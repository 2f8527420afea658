//! How long to wait before trying again: a second at first, twice as long after each failure,
//! a minute at most.

use vstd::prelude::*;

verus! {

/// The longest wait, in seconds.
pub const MAX_BACKOFF_SECS: u64 = 60;

/// The wait before the next try.
pub struct Backoff {
    seconds: u64,
}

/// The wait that follows a wait of `seconds`: twice as long, a minute at most.
pub open spec fn longer(seconds: nat) -> nat {
    if 2 * seconds < MAX_BACKOFF_SECS {
        2 * seconds
    } else {
        MAX_BACKOFF_SECS as nat
    }
}

impl Backoff {
    /// How many seconds the next wait takes.
    pub closed spec fn next_wait(&self) -> nat {
        self.seconds as nat
    }

    /// The wait is no longer than the longest.
    pub open spec fn wf(&self) -> bool {
        0 < self.next_wait() <= MAX_BACKOFF_SECS
    }

    /// Nothing has failed yet.
    pub fn new() -> (r: Backoff)
        ensures
            r.wf(),
            r.next_wait() == 1,
    {
        Backoff { seconds: 1 }
    }

    /// Something failed: how many seconds to wait now.
    pub fn failed(&mut self) -> (seconds: u64)
        requires
            old(self).wf(),
        ensures
            final(self).wf(),
            seconds == old(self).next_wait(),
            final(self).next_wait() == longer(old(self).next_wait()),
            2 * old(self).next_wait() <= 60 ==> final(self).next_wait() == 2 * old(
                self,
            ).next_wait(),
            2 * old(self).next_wait() > 60 ==> final(self).next_wait() == 60,
    {
        let seconds: u64 = self.seconds;
        let doubled: u64 = seconds * 2;
        self.seconds = if doubled < MAX_BACKOFF_SECS {
            doubled
        } else {
            MAX_BACKOFF_SECS
        };
        seconds
    }
}

/// The wait after `failures` earlier failures.
pub open spec fn wait_after(failures: nat) -> nat
    decreases failures,
{
    if failures == 0 {
        1
    } else {
        longer(wait_after((failures - 1) as nat))
    }
}

/// The waits are the powers of two up to a minute, and a minute from then on.
pub proof fn waits_double_up_to_a_minute(failures: nat)
    ensures
        wait_after(failures) == (if vstd::arithmetic::power2::pow2(failures) < MAX_BACKOFF_SECS {
            vstd::arithmetic::power2::pow2(failures)
        } else {
            MAX_BACKOFF_SECS as nat
        }),
    decreases failures,
{
    vstd::arithmetic::power2::lemma2_to64();
    if failures > 0 {
        waits_double_up_to_a_minute((failures - 1) as nat);
        vstd::arithmetic::power2::lemma_pow2_unfold(failures);
    }
}

/// Each wait is twice the one before, or a minute where that is shorter; from the seventh
/// failure on every wait is a minute, and none is ever longer.
pub proof fn waits_double_until_a_minute(failures: nat)
    ensures
        wait_after(0) == 1,
        2 * wait_after(failures) <= 60 ==> wait_after(failures + 1) == 2 * wait_after(failures),
        2 * wait_after(failures) > 60 ==> wait_after(failures + 1) == 60,
        failures >= 6 ==> wait_after(failures) == 60,
        0 < wait_after(failures) <= 60,
    decreases failures,
{
    if failures > 0 {
        waits_double_until_a_minute((failures - 1) as nat);
    }
    if failures == 6 {
        reveal_with_fuel(wait_after, 7);
    }
}

} // verus!
