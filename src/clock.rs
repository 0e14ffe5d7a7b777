use vstd::prelude::*;

verus! {

/// Time left to one side, in milliseconds, and what it gains per move.
#[derive(Clone, Copy, Debug, PartialEq, Eq, Structural)]
pub struct Clock {
    pub time_remaining_ms: u64,
    pub increment_ms: u64,
}

/// Whether a move came in within the time its side had left.
#[derive(Clone, Copy, Debug, PartialEq, Eq, Structural)]
pub enum MoveTiming {
    InTime,
    Timeout,
}

/// The clock after a move that took `elapsed` ms: `None` where the move came
/// too late (a flag fall). The time left never passes `u64::MAX` ms.
pub open spec fn committed(c: Clock, elapsed: nat) -> Option<Clock> {
    if elapsed > c.time_remaining_ms {
        None
    } else {
        let t = c.time_remaining_ms - elapsed + c.increment_ms;
        Some(
            Clock {
                time_remaining_ms: if t > u64::MAX {
                    u64::MAX
                } else {
                    t as u64
                },
                increment_ms: c.increment_ms,
            },
        )
    }
}

/// The clock after moves that took `elapsed[0]`, `elapsed[1]`, ... ms, or
/// `None` where one of them came too late.
pub open spec fn after_moves(c: Clock, elapsed: Seq<u64>) -> Option<Clock>
    decreases elapsed.len(),
{
    if elapsed.len() == 0 {
        Some(c)
    } else {
        match after_moves(c, elapsed.drop_last()) {
            Some(p) => committed(p, elapsed.last() as nat),
            None => None,
        }
    }
}

pub open spec fn sum(s: Seq<u64>) -> int
    decreases s.len(),
{
    if s.len() == 0 {
        0
    } else {
        sum(s.drop_last()) + s.last()
    }
}

proof fn lemma_sum_nonnegative(s: Seq<u64>)
    ensures
        sum(s) >= 0,
    decreases s.len(),
{
    if s.len() > 0 {
        lemma_sum_nonnegative(s.drop_last());
    }
}

impl Clock {
    pub fn new(time_ms: u64, increment_ms: u64) -> (r: Clock)
        ensures
            r.time_remaining_ms == time_ms,
            r.increment_ms == increment_ms,
    {
        Clock { time_remaining_ms: time_ms, increment_ms }
    }

    /// The most a side may think before its flag falls.
    pub fn move_budget_ms(&self) -> (r: u64)
        ensures
            r == self.time_remaining_ms,
    {
        self.time_remaining_ms
    }

    /// Books a move that took `elapsed_ms`. A late move leaves the clock as
    /// it was and is a timeout.
    pub fn commit_move(&mut self, elapsed_ms: u64) -> (r: MoveTiming)
        ensures
            r == MoveTiming::Timeout <==> committed(*old(self), elapsed_ms as nat) is None,
            r == MoveTiming::Timeout ==> *final(self) == *old(self),
            r == MoveTiming::InTime ==> Some(*final(self)) == committed(
                *old(self),
                elapsed_ms as nat,
            ),
    {
        if elapsed_ms > self.time_remaining_ms {
            return MoveTiming::Timeout;
        }
        let left = self.time_remaining_ms - elapsed_ms;
        self.time_remaining_ms = left.saturating_add(self.increment_ms);
        MoveTiming::InTime
    }
}

/// After N moves in time the clock shows the starting time less the time
/// spent plus N increments, which is never negative; once a move overran the
/// time left, no later move changes the outcome.
pub proof fn lemma_clock_after_moves(c: Clock, elapsed: Seq<u64>)
    requires
        c.time_remaining_ms + elapsed.len() * c.increment_ms <= u64::MAX,
    ensures
        after_moves(c, elapsed) is Some ==> {
            let d = after_moves(c, elapsed)->0;
            &&& d.time_remaining_ms == c.time_remaining_ms - sum(elapsed) + elapsed.len()
                * c.increment_ms
            &&& c.time_remaining_ms - sum(elapsed) + elapsed.len() * c.increment_ms >= 0
            &&& d.increment_ms == c.increment_ms
        },
        forall|k: int|
            0 <= k <= elapsed.len() && after_moves(c, elapsed.subrange(0, k)) is None
                ==> after_moves(c, elapsed) is None,
    decreases elapsed.len(),
{
    if elapsed.len() > 0 {
        let e = elapsed.drop_last();
        assert(c.time_remaining_ms + e.len() * c.increment_ms <= u64::MAX) by (nonlinear_arith)
            requires
                c.time_remaining_ms + elapsed.len() * c.increment_ms <= u64::MAX,
                e.len() == elapsed.len() - 1,
        ;
        lemma_clock_after_moves(c, e);
        assert forall|k: int|
            0 <= k <= elapsed.len() && after_moves(c, elapsed.subrange(0, k)) is None
                implies after_moves(c, elapsed) is None by {
            if k < elapsed.len() {
                assert(elapsed.subrange(0, k) =~= e.subrange(0, k));
            } else {
                assert(elapsed.subrange(0, k) =~= elapsed);
            }
        }
        if after_moves(c, elapsed) is Some {
            let p = after_moves(c, e)->0;
            assert(p.time_remaining_ms - elapsed.last() + c.increment_ms == c.time_remaining_ms
                - sum(elapsed) + elapsed.len() * c.increment_ms) by (nonlinear_arith)
                requires
                    p.time_remaining_ms == c.time_remaining_ms - sum(e) + e.len()
                        * c.increment_ms,
                    sum(elapsed) == sum(e) + elapsed.last(),
                    e.len() == elapsed.len() - 1,
            ;
            lemma_sum_nonnegative(elapsed);
        }
    }
}

} // verus!
