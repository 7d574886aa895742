//! The time budget of one invocation.
//!
//! Every read of the command's output is bounded by what is left of the
//! budget, and the time a read took is taken off it afterwards.

use vstd::prelude::*;

verus! {

/// Nanoseconds in a second.
pub const NANOS_PER_SEC: u128 = 1_000_000_000;

/// What is left of an invocation's time, in nanoseconds; `None` where no
/// timeout is configured.
#[derive(PartialEq, Eq, Structural, Debug, Clone, Copy)]
pub struct TimeBudget {
    pub remaining: Option<u128>,
}

/// What is left of `remaining` after `elapsed`, and nothing if `elapsed`
/// exceeds it.
pub open spec fn budget_after(remaining: Option<u128>, elapsed: u128) -> Option<u128> {
    match remaining {
        Some(left) => Some(if elapsed >= left { 0u128 } else { (left - elapsed) as u128 }),
        None => None,
    }
}

/// Whether a read that took `elapsed` stayed within `remaining`.
pub open spec fn within_budget(remaining: Option<u128>, elapsed: u128) -> bool {
    match remaining {
        Some(left) => elapsed < left,
        None => true,
    }
}

impl TimeBudget {
    /// The budget of an invocation with the given timeout in seconds, or an
    /// unbounded one.
    pub fn new(timeout_secs: Option<u64>) -> (r: TimeBudget)
        ensures
            r.remaining == (match timeout_secs {
                Some(s) => Some((s * NANOS_PER_SEC) as u128),
                None => None,
            }),
    {
        match timeout_secs {
            Some(s) => {
                let secs: u128 = s as u128;
                assert(secs * NANOS_PER_SEC <= u128::MAX) by (nonlinear_arith)
                    requires
                        secs <= u64::MAX,
                        NANOS_PER_SEC == 1_000_000_000,
                ;
                TimeBudget { remaining: Some(secs * NANOS_PER_SEC) }
            },
            None => TimeBudget { remaining: None },
        }
    }

    /// Whether the budget is spent, so that the next read fails at once.
    pub fn is_exhausted(&self) -> (r: bool)
        ensures
            r == (self.remaining == Some(0u128)),
    {
        match self.remaining {
            Some(left) => left == 0,
            None => false,
        }
    }

    /// Takes the time `elapsed` of one read off the budget, and says whether
    /// the read stayed within it. A read that did not leaves nothing.
    pub fn charge(&mut self, elapsed: u128) -> (r: bool)
        ensures
            r == within_budget(old(self).remaining, elapsed),
            final(self).remaining == budget_after(old(self).remaining, elapsed),
    {
        match self.remaining {
            Some(left) => {
                if elapsed >= left {
                    self.remaining = Some(0);
                    false
                } else {
                    self.remaining = Some(left - elapsed);
                    true
                }
            },
            None => true,
        }
    }
}

/// The budget never grows, and once spent it stays spent.
pub proof fn lemma_budget_shrinks(remaining: Option<u128>, elapsed: u128)
    ensures
        remaining is Some ==> budget_after(remaining, elapsed) is Some && budget_after(
            remaining,
            elapsed,
        ).unwrap() <= remaining.unwrap(),
        remaining is None ==> budget_after(remaining, elapsed) is None,
        remaining == Some(0u128) ==> budget_after(remaining, elapsed) == Some(0u128)
            && !within_budget(remaining, elapsed),
{
}

} // verus!
