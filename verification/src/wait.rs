//! Waiting for a message: how long to sleep, and when to give up.
use vstd::prelude::*;

use crate::builder::ReaderMode;

verus! {

/// The first sleep between two polls, in microseconds.
pub const INITIAL_BACKOFF_US: u64 = 1;

/// The longest sleep between two polls, in microseconds.
pub const MAX_BACKOFF_US: u64 = 10_000;

/// How often a reader that joins late looks for a segment that retention may remove
/// under it.
pub const MAX_OPEN_RETRIES: usize = 8;

/// The pace of a poll loop: every sleep is twice as long as the one before, up to a
/// limit.
#[derive(Debug, Clone, Copy, PartialEq, Eq, Structural)]
pub struct Backoff {
    /// The next sleep in microseconds.
    pub us: u64,
}

/// The sleep after one of `us` microseconds.
pub open spec fn slower(us: int) -> int {
    if 2 * us > MAX_BACKOFF_US {
        MAX_BACKOFF_US as int
    } else {
        2 * us
    }
}

/// The `n`-th sleep, in microseconds.
pub open spec fn nth_sleep(n: nat) -> int
    decreases n,
{
    if n == 0 {
        INITIAL_BACKOFF_US as int
    } else {
        slower(nth_sleep((n - 1) as nat))
    }
}

impl Backoff {
    /// A sleep is never too long and never nothing.
    pub open spec fn wf(self) -> bool {
        INITIAL_BACKOFF_US <= self.us <= MAX_BACKOFF_US
    }

    /// The pace at the beginning.
    pub fn new() -> (b: Backoff)
        ensures
            b.us == nth_sleep(0),
            b.wf(),
    {
        Backoff { us: INITIAL_BACKOFF_US }
    }

    /// How long to sleep before the next poll. `remaining_us` is what is left of the
    /// time to wait, if there is a limit; where nothing is left, there is nothing to
    /// sleep and the wait is over.
    pub fn next_sleep(&mut self, remaining_us: Option<u64>) -> (sleep: Option<u64>)
        requires
            old(self).wf(),
        ensures
            final(self).wf(),
            match remaining_us {
                Some(0) => sleep is None && *final(self) == *old(self),
                Some(left) => {
                    &&& sleep == Some(
                        if left < old(self).us {
                            left
                        } else {
                            old(self).us
                        },
                    )
                    &&& final(self).us == slower(old(self).us as int)
                },
                None => sleep == Some(old(self).us) && final(self).us == slower(
                    old(self).us as int,
                ),
            },
    {
        let sleep: u64 = match remaining_us {
            Some(left) => {
                if left == 0 {
                    return None;
                }
                if left < self.us {
                    left
                } else {
                    self.us
                }
            },
            None => self.us,
        };
        self.us = if 2 * self.us > MAX_BACKOFF_US {
            MAX_BACKOFF_US
        } else {
            2 * self.us
        };
        Some(sleep)
    }
}

/// What a wait for a message comes to next.
#[derive(Debug, Clone, Copy, PartialEq, Eq, Structural)]
pub enum WaitStep {
    /// A message is there: the wait is over.
    Ready,
    /// The time is over and no message is there.
    TimedOut,
    /// Sleep this long and poll again.
    Sleep { us: u64 },
}

/// Decides how a wait goes on after a poll. `found` says whether the poll has found a
/// message; `remaining_us` is what is left of the time to wait, if there is a limit.
///
/// A message that is there is never missed for want of time, and a wait without a limit
/// never times out.
pub fn wait_step(pace: &mut Backoff, found: bool, remaining_us: Option<u64>) -> (step: WaitStep)
    requires
        old(pace).wf(),
    ensures
        final(pace).wf(),
        step is Ready <==> found,
        step is TimedOut <==> !found && remaining_us == Some(0u64),
        match step {
            WaitStep::Sleep { us } => {
                &&& us == match remaining_us {
                    Some(left) => if left < old(pace).us {
                        left
                    } else {
                        old(pace).us
                    },
                    None => old(pace).us,
                }
                &&& us > 0
                &&& final(pace).us == slower(old(pace).us as int)
            },
            _ => *final(pace) == *old(pace),
        },
{
    if found {
        return WaitStep::Ready;
    }
    match pace.next_sleep(remaining_us) {
        Some(us) => WaitStep::Sleep { us },
        None => WaitStep::TimedOut,
    }
}

/// Sleeps double, never shrink, and settle at the limit after fourteen of them.
pub proof fn law_backoff_doubles_up_to_its_limit(n: nat)
    ensures
        INITIAL_BACKOFF_US <= nth_sleep(n) <= nth_sleep(n + 1) <= MAX_BACKOFF_US,
        nth_sleep(n + 1) == 2 * nth_sleep(n) || nth_sleep(n + 1) == MAX_BACKOFF_US,
        n >= 14 ==> nth_sleep(n) == MAX_BACKOFF_US,
    decreases n,
{
    if n > 0 {
        law_backoff_doubles_up_to_its_limit((n - 1) as nat);
    }
    if n == 14 {
        reveal_with_fuel(nth_sleep, 15);
    }
}

/// Whether a failed attempt to open a channel is to be repeated. `attempt` counts
/// from 1; `not_found` says that the segment was gone when it was opened.
///
/// The earliest segment can be removed between the look at the directory and the
/// opening, so a reader that joins late looks again. The latest segment is not
/// removed, so a reader that joins live does not.
pub fn retry_open(mode: ReaderMode, attempt: usize, not_found: bool) -> (r: bool)
    ensures
        r == (mode is LateJoin && not_found && attempt < MAX_OPEN_RETRIES),
{
    match mode {
        ReaderMode::LateJoin => not_found && attempt < MAX_OPEN_RETRIES,
        ReaderMode::Live => false,
    }
}

} // verus!
