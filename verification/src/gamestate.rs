//! The two game states and the score that goes with them.

use vstd::prelude::*;

verus! {

/// Whether a round is running or has ended.
#[derive(Clone, Copy, Debug, PartialEq, Eq, Hash, Structural)]
pub enum GameState {
    Playing,
    GameOver,
}

impl GameState {
    /// The other state: what the manual toggle switches to.
    pub open spec fn toggled(self) -> GameState {
        match self {
            GameState::Playing => GameState::GameOver,
            GameState::GameOver => GameState::Playing,
        }
    }
}

impl Default for GameState {
    /// A game starts out playing.
    fn default() -> (state: GameState)
        ensures
            state == GameState::Playing,
    {
        GameState::Playing
    }
}

/// Points of the running round and the best round so far.
#[derive(Clone, Copy, Debug, PartialEq, Eq, Structural)]
pub struct Score {
    pub current: u64,
    pub best: u64,
}

impl Score {
    /// The score as the end of a round leaves it: the best score takes up the
    /// current one if that is higher.
    pub open spec fn round_ended(self) -> Score {
        Score {
            current: self.current,
            best: if self.current > self.best {
                self.current
            } else {
                self.best
            },
        }
    }

    /// The score as a replay leaves it: the current score starts over and the
    /// best score is kept.
    pub open spec fn round_restarted(self) -> Score {
        Score { current: 0, best: self.best }
    }

    /// No points yet, in this round or any other.
    pub fn new() -> (score: Score)
        ensures
            score == (Score { current: 0, best: 0 }),
    {
        Score { current: 0, best: 0 }
    }

    /// Takes the snapshot of the best score when a round ends.
    pub fn end_round(&mut self)
        ensures
            *final(self) == old(self).round_ended(),
    {
        if self.current > self.best {
            self.best = self.current;
        }
    }

    /// Starts the current score over for a replay.
    pub fn restart_round(&mut self)
        ensures
            *final(self) == old(self).round_restarted(),
    {
        self.current = 0;
    }
}

/// The best score never drops when a round ends, and it is then at least the
/// score of that round; a replay leaves it untouched.
pub proof fn lemma_best_score_is_kept(score: Score)
    ensures
        score.round_ended().best >= score.best,
        score.round_ended().best >= score.current,
        score.round_ended().current == score.current,
        score.round_restarted().best == score.best,
        score.round_restarted().current == 0,
{
}

} // verus!
