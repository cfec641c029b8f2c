//! Circle colliders and the circle-against-circle overlap test.

use vstd::prelude::*;

verus! {

/// A point of the play field, in position steps.
#[derive(Clone, Copy, Debug, PartialEq, Eq, Structural)]
pub struct Point {
    pub x: i64,
    pub y: i64,
}

/// A circular hitbox: a centre that follows its owner and a fixed radius.
#[derive(Clone, Copy, Debug, PartialEq, Eq, Structural)]
pub struct CircleCollider {
    pub pos: Point,
    pub radius: u32,
}

impl CircleCollider {
    /// Squared Euclidean distance between the two centres.
    pub open spec fn distance_squared(self, other: CircleCollider) -> int {
        (self.pos.x - other.pos.x) * (self.pos.x - other.pos.x) + (self.pos.y - other.pos.y) * (
        self.pos.y - other.pos.y)
    }

    /// Square of the sum of the two radii.
    pub open spec fn reach_squared(self, other: CircleCollider) -> int {
        (self.radius + other.radius) * (self.radius + other.radius)
    }

    /// Two circles overlap when their centres are no further apart than the
    /// sum of their radii; touching circles overlap.
    pub open spec fn overlaps(self, other: CircleCollider) -> bool {
        self.distance_squared(other) <= self.reach_squared(other)
    }
}

/// Builds a collider centred on `pos`.
pub fn create_circle_collider(pos: Point, radius: u32) -> (collider: CircleCollider)
    ensures
        collider == (CircleCollider { pos, radius }),
{
    CircleCollider { pos, radius }
}

/// Moves the collider's centre to `new_pos`; the radius stays as it is.
pub fn update_circle_collider(collider: &mut CircleCollider, new_pos: Point)
    ensures
        *final(collider) == (CircleCollider { pos: new_pos, radius: old(collider).radius }),
{
    collider.pos = new_pos;
}

/// A coordinate difference beyond the reach alone puts the centres too far apart.
proof fn lemma_far_on_one_axis(d: int, e: int, reach: int)
    requires
        0 <= reach,
        d > reach || d < -reach,
    ensures
        d * d + e * e > reach * reach,
{
    assert(d * d > reach * reach) by (nonlinear_arith)
        requires
            0 <= reach,
            d > reach || d < -reach,
    ;
    assert(e * e >= 0) by (nonlinear_arith);
}

/// Within the reach on an axis, the squares stay far below the 128-bit limit.
proof fn lemma_square_in_range(d: int, reach: int)
    requires
        -reach <= d <= reach,
        reach <= 0x1_ffff_fffe,
    ensures
        0 <= d * d <= reach * reach,
        reach * reach <= 0x4_0000_0000_0000_0000,
{
    assert(0 <= d * d <= reach * reach && reach * reach <= 0x4_0000_0000_0000_0000)
        by (nonlinear_arith)
        requires
            -reach <= d <= reach,
            reach <= 0x1_ffff_fffe,
    ;
}

/// Decides whether two circles overlap by comparing squared distances, with
/// no division and no square root.
pub fn is_circle_collision(a: &CircleCollider, b: &CircleCollider) -> (hit: bool)
    ensures
        hit == a.overlaps(*b),
{
    let dx: i128 = a.pos.x as i128 - b.pos.x as i128;
    let dy: i128 = a.pos.y as i128 - b.pos.y as i128;
    let reach: i128 = a.radius as i128 + b.radius as i128;
    if dx > reach || dx < -reach {
        proof {
            lemma_far_on_one_axis(dx as int, dy as int, reach as int);
        }
        return false;
    }
    if dy > reach || dy < -reach {
        proof {
            lemma_far_on_one_axis(dy as int, dx as int, reach as int);
        }
        return false;
    }
    proof {
        lemma_square_in_range(dx as int, reach as int);
        lemma_square_in_range(dy as int, reach as int);
    }
    dx * dx + dy * dy <= reach * reach
}

/// The overlap test does not depend on the order of its arguments.
pub proof fn lemma_overlap_symmetric(a: CircleCollider, b: CircleCollider)
    ensures
        a.overlaps(b) == b.overlaps(a),
{
    let dx: int = a.pos.x - b.pos.x;
    let dy: int = a.pos.y - b.pos.y;
    assert(dx * dx == (-dx) * (-dx)) by (nonlinear_arith);
    assert(dy * dy == (-dy) * (-dy)) by (nonlinear_arith);
    assert(b.pos.x - a.pos.x == -dx);
    assert(b.pos.y - a.pos.y == -dy);
    assert(a.distance_squared(b) == b.distance_squared(a));
    assert(a.reach_squared(b) == b.reach_squared(a)) by (nonlinear_arith);
}

/// The boundary is closed: circles whose centres are exactly the sum of the
/// radii apart overlap, and any greater distance separates them.
pub proof fn lemma_overlap_boundary(a: CircleCollider, b: CircleCollider)
    ensures
        a.distance_squared(b) == a.reach_squared(b) ==> a.overlaps(b),
        a.distance_squared(b) > a.reach_squared(b) ==> !a.overlaps(b),
{
}

/// Along one axis: at a centre distance of exactly the radius sum the circles
/// overlap, and at any `gap > 0` beyond it they do not.
pub proof fn lemma_overlap_boundary_on_axis(a: CircleCollider, b: CircleCollider, gap: int)
    requires
        a.pos.y == b.pos.y,
        gap >= 0,
        b.pos.x - a.pos.x == a.radius + b.radius + gap,
    ensures
        a.overlaps(b) <==> gap == 0,
{
    let reach: int = a.radius + b.radius;
    let d: int = a.pos.x - b.pos.x;
    assert(d == -(reach + gap));
    assert(d * d == (reach + gap) * (reach + gap)) by (nonlinear_arith)
        requires
            d == -(reach + gap),
    ;
    assert((a.pos.y - b.pos.y) * (a.pos.y - b.pos.y) == 0);
    if gap > 0 {
        assert((reach + gap) * (reach + gap) > reach * reach) by (nonlinear_arith)
            requires
                reach >= 0,
                gap > 0,
        ;
    }
}

} // verus!
