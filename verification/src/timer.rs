//! A countable duration that fires once or over and over.

use vstd::prelude::*;

verus! {

/// What a timer does when it reaches its target.
#[derive(Clone, Copy, Debug, PartialEq, Eq, Structural)]
pub enum TimerMode {
    /// Fires a single time and then stays finished.
    Once,
    /// Fires each time a further target's worth of time has gone by.
    Repeating,
}

/// A timer fed with elapsed frame time. All durations are in microseconds.
#[derive(Clone, Copy, Debug, PartialEq, Eq, Structural)]
pub struct Timer {
    /// Time counted so far in the current period.
    pub elapsed: u64,
    /// Length of one period.
    pub target: u64,
    pub mode: TimerMode,
    /// Whether the last call of [`Timer::advance`] reached the target; a
    /// `Once` timer keeps the flag for good.
    pub finished: bool,
}

impl Timer {
    /// A timer as [`Timer::new`] makes it: nothing counted, not finished.
    pub open spec fn fresh(target: u64, mode: TimerMode) -> Timer {
        Timer { elapsed: 0, target, mode, finished: false }
    }

    /// Whether adding `dt` reaches the target.
    pub open spec fn reaches_target(self, dt: int) -> bool {
        self.elapsed + dt >= self.target
    }

    /// The timer after `dt` more microseconds.
    ///
    /// A finished `Once` timer does not change. Otherwise `dt` is added and the
    /// timer is finished exactly if that reaches the target. On reaching it a
    /// `Once` timer stops at the target, while a `Repeating` timer gives up one
    /// target's worth of time and carries the rest into the next period.
    pub open spec fn advanced(self, dt: int) -> Timer {
        if self.mode == TimerMode::Once && self.finished {
            self
        } else if !self.reaches_target(dt) {
            Timer { elapsed: (self.elapsed + dt) as u64, finished: false, ..self }
        } else if self.mode == TimerMode::Once {
            Timer { elapsed: self.target, finished: true, ..self }
        } else {
            Timer { elapsed: (self.elapsed + dt - self.target) as u64, finished: true, ..self }
        }
    }

    /// Whether the time carried over by a `Repeating` timer still fits the
    /// counter. A `Once` timer can always advance.
    pub open spec fn can_advance(self, dt: int) -> bool {
        self.mode == TimerMode::Repeating ==> self.elapsed + dt - self.target <= u64::MAX
    }

    /// A timer of `target` microseconds that has counted nothing yet.
    pub fn new(target: u64, mode: TimerMode) -> (timer: Timer)
        ensures
            timer == Timer::fresh(target, mode),
    {
        Timer { elapsed: 0, target, mode, finished: false }
    }

    /// A timer of `seconds` whole seconds that has counted nothing yet.
    pub fn from_seconds(seconds: u32, mode: TimerMode) -> (timer: Timer)
        ensures
            timer == Timer::fresh((seconds * 1_000_000) as u64, mode),
    {
        let target: u64 = seconds as u64 * 1_000_000;
        Timer::new(target, mode)
    }

    /// Feeds `dt` microseconds of frame time to the timer.
    pub fn advance(&mut self, dt: u32)
        requires
            old(self).can_advance(dt as int),
        ensures
            *final(self) == old(self).advanced(dt as int),
    {
        match self.mode {
            TimerMode::Once => {
                if !self.finished {
                    if self.elapsed >= self.target || dt as u64 >= self.target - self.elapsed {
                        self.elapsed = self.target;
                        self.finished = true;
                    } else {
                        self.elapsed = self.elapsed + dt as u64;
                    }
                }
            },
            TimerMode::Repeating => {
                let total: u128 = self.elapsed as u128 + dt as u128;
                if total >= self.target as u128 {
                    self.elapsed = (total - self.target as u128) as u64;
                    self.finished = true;
                } else {
                    self.elapsed = total as u64;
                    self.finished = false;
                }
            },
        }
    }

    /// Whether the last advance reached the target.
    pub fn finished(&self) -> (done: bool)
        ensures
            done == self.finished,
    {
        self.finished
    }

    /// The timer after a whole run of frame times, fed one by one.
    pub open spec fn advanced_through(self, dts: Seq<u32>) -> Timer
        decreases dts.len(),
    {
        if dts.len() == 0 {
            self
        } else {
            self.advanced_through(dts.drop_last()).advanced(dts.last() as int)
        }
    }

    /// How many of the advances in a run of frame times reached the target.
    pub open spec fn firings_through(self, dts: Seq<u32>) -> nat
        decreases dts.len(),
    {
        if dts.len() == 0 {
            0
        } else {
            let before = self.firings_through(dts.drop_last());
            if self.advanced_through(dts).finished {
                before + 1
            } else {
                before
            }
        }
    }
}

/// Sum of a run of frame times.
pub open spec fn total_time(dts: Seq<u32>) -> int
    decreases dts.len(),
{
    if dts.len() == 0 {
        0
    } else {
        total_time(dts.drop_last()) + dts.last()
    }
}

/// A fresh `Once` timer counts the total time fed to it up to its target. Once
/// something has been fed, it is finished exactly if that total has reached
/// the target: it fires on the frame that completes the target, not before.
pub proof fn lemma_once_timer_fires_at_target(target: u64, dts: Seq<u32>)
    ensures
        ({
            let timer = Timer::fresh(target, TimerMode::Once).advanced_through(dts);
            &&& timer.target == target
            &&& timer.mode == TimerMode::Once
            &&& timer.elapsed == if total_time(dts) >= target {
                target as int
            } else {
                total_time(dts)
            }
            &&& dts.len() > 0 ==> (timer.finished <==> total_time(dts) >= target)
            &&& dts.len() == 0 ==> !timer.finished
        }),
    decreases dts.len(),
{
    if dts.len() > 0 {
        lemma_once_timer_fires_at_target(target, dts.drop_last());
        lemma_total_time_nonnegative(dts.drop_last());
    }
}

/// A `Repeating` timer loses no time: what it has counted, plus one target for
/// every firing, is what it started with plus all the time fed to it.
pub proof fn lemma_repeating_timer_carries_overshoot(timer: Timer, dts: Seq<u32>)
    requires
        timer.mode == TimerMode::Repeating,
        timer.elapsed + total_time(dts) <= u64::MAX,
    ensures
        ({
            let after = timer.advanced_through(dts);
            &&& after.target == timer.target
            &&& after.mode == TimerMode::Repeating
            &&& after.elapsed + timer.target * timer.firings_through(dts) == timer.elapsed
                + total_time(dts)
        }),
    decreases dts.len(),
{
    if dts.len() > 0 {
        let head = dts.drop_last();
        lemma_total_time_nonnegative(head);
        lemma_repeating_timer_carries_overshoot(timer, head);
        let before = timer.advanced_through(head);
        let count = timer.firings_through(head);
        assert(timer.target * (count + 1) == timer.target * count + timer.target)
            by (nonlinear_arith);
        assert(timer.target * count >= 0) by (nonlinear_arith)
            requires
                timer.target >= 0,
                count >= 0,
        ;
        let after = before.advanced(dts.last() as int);
        assert(timer.advanced_through(dts) == after);
        assert(before.elapsed + dts.last() <= u64::MAX);
        if before.reaches_target(dts.last() as int) {
            assert(after.finished);
            assert(after.elapsed == before.elapsed + dts.last() - timer.target);
            assert(timer.firings_through(dts) == count + 1);
            assert(timer.target * timer.firings_through(dts) == timer.target * count
                + timer.target);
        } else {
            assert(!after.finished);
            assert(after.elapsed == before.elapsed + dts.last());
            assert(timer.firings_through(dts) == count);
        }
    } else {
        assert(timer.target * timer.firings_through(dts) == 0) by (nonlinear_arith)
            requires
                timer.firings_through(dts) == 0,
        ;
    }
}

/// Frame times are never negative, so neither is their sum.
pub proof fn lemma_total_time_nonnegative(dts: Seq<u32>)
    ensures
        total_time(dts) >= 0,
    decreases dts.len(),
{
    if dts.len() > 0 {
        lemma_total_time_nonnegative(dts.drop_last());
    }
}

} // verus!
