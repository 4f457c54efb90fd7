use vstd::prelude::*;

use crate::board::Mark;
use crate::verdict::Verdict;

verus! {

/// Match results so far: wins for each mark and draws.
#[derive(Clone, Copy, Debug, PartialEq, Eq, Structural)]
pub struct Score {
    pub x_wins: u64,
    pub o_wins: u64,
    pub draws: u64,
}

/// Whether the counter that `verdict` increments can still grow.
pub open spec fn has_room(score: Score, verdict: Verdict) -> bool {
    match verdict {
        Verdict::Win(Mark::X, _) => score.x_wins < u64::MAX,
        Verdict::Win(Mark::O, _) => score.o_wins < u64::MAX,
        Verdict::Draw => score.draws < u64::MAX,
        Verdict::Ongoing => true,
    }
}

/// 1 when `verdict` is a win for `m`, else 0.
pub open spec fn win_for(verdict: Verdict, m: Mark) -> int {
    if verdict matches Verdict::Win(w, _) && w == m {
        1
    } else {
        0
    }
}

/// The running score over the matches of one session.
#[derive(Clone, Copy, Debug)]
pub struct SessionTracker {
    score: Score,
}

impl SessionTracker {
    /// The score so far.
    pub closed spec fn spec_score(&self) -> Score {
        self.score
    }

    /// A session with no results yet.
    pub fn new() -> (t: SessionTracker)
        ensures
            t.spec_score() == (Score { x_wins: 0, o_wins: 0, draws: 0 }),
    {
        SessionTracker { score: Score { x_wins: 0, o_wins: 0, draws: 0 } }
    }

    /// A snapshot of the score so far.
    pub fn score(&self) -> (s: Score)
        ensures
            s == self.spec_score(),
    {
        self.score
    }

    /// Whether recording `verdict` would overflow its counter.
    pub fn can_record(&self, verdict: Verdict) -> (r: bool)
        ensures
            r == has_room(self.spec_score(), verdict),
    {
        match verdict {
            Verdict::Win(Mark::X, _) => self.score.x_wins < u64::MAX,
            Verdict::Win(Mark::O, _) => self.score.o_wins < u64::MAX,
            Verdict::Draw => self.score.draws < u64::MAX,
            Verdict::Ongoing => true,
        }
    }

    /// Counts a match result: a win adds one to its mark's counter, a draw to
    /// the draw counter; `Ongoing` changes nothing.
    pub fn record_result(&mut self, verdict: Verdict)
        requires
            has_room(old(self).spec_score(), verdict),
        ensures
            final(self).spec_score().x_wins == old(self).spec_score().x_wins + win_for(
                verdict,
                Mark::X,
            ),
            final(self).spec_score().o_wins == old(self).spec_score().o_wins + win_for(
                verdict,
                Mark::O,
            ),
            final(self).spec_score().draws == old(self).spec_score().draws + if verdict
                == Verdict::Draw {
                1int
            } else {
                0int
            },
    {
        match verdict {
            Verdict::Win(Mark::X, _) => {
                self.score.x_wins = self.score.x_wins + 1;
            },
            Verdict::Win(Mark::O, _) => {
                self.score.o_wins = self.score.o_wins + 1;
            },
            Verdict::Draw => {
                self.score.draws = self.score.draws + 1;
            },
            Verdict::Ongoing => {},
        }
    }
}

} // verus!
