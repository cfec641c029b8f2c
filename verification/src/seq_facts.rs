//! Facts about filtered sequences that the collections' proofs share.

use vstd::prelude::*;

verus! {

/// What holds of every element of a sequence still holds of every element
/// that a filter keeps, and so does the filter's own condition.
pub proof fn lemma_filter_keeps<A>(s: Seq<A>, keep: spec_fn(A) -> bool, holds: spec_fn(A) -> bool)
    requires
        forall|i: int| 0 <= i < s.len() ==> holds(#[trigger] s[i]),
    ensures
        s.filter(keep).len() <= s.len(),
        forall|i: int|
            0 <= i < s.filter(keep).len() ==> holds(#[trigger] s.filter(keep)[i]) && keep(
                s.filter(keep)[i],
            ),
{
    s.lemma_filter_len(keep);
    assert forall|i: int| 0 <= i < s.filter(keep).len() implies holds(
        #[trigger] s.filter(keep)[i],
    ) && keep(s.filter(keep)[i]) by {
        let kept = s.filter(keep)[i];
        s.lemma_filter_pred(keep, i);
        assert(s.filter(keep).contains(kept));
        s.lemma_filter_contains_rev(keep, kept);
        let at = choose|at: int| 0 <= at < s.len() && s[at] == kept;
        assert(holds(s[at]));
    }
}

} // verus!
