//! Memory pressure-stall monitoring: checking the parameters of a wait for
//! a PSI event and deriving the trigger to register and the times to wait.
use vstd::prelude::*;

verus! {

/// Why a PSI wait cannot be set up.
#[derive(Clone, Copy, PartialEq, Eq, Debug, Structural)]
pub enum PsiError {
    /// The stall time is larger than the time window.
    StallLargerThanWindow,
    /// The minimal waiting time is larger than the maximal waiting time.
    MinWaitLargerThanMax,
    /// A time in microseconds does not fit in 64 bits.
    TooLarge,
}

/// How to wait for a PSI memory event.
#[derive(Clone, Copy, PartialEq, Eq, Debug, Structural)]
pub struct PsiWait {
    /// Stall threshold of the trigger, in microseconds.
    pub stall_us: u64,
    /// Time window of the trigger, in microseconds.
    pub window_us: u64,
    /// Time to sleep before listening, in milliseconds.
    pub sleep_ms: u64,
    /// Time to listen before giving up, in milliseconds.
    pub listen_ms: u64,
}

/// Checks the parameters of a wait for a memory stall of `stall_ms` within
/// `window_ms`, waiting at least `min_waiting_ms` and at most
/// `max_waiting_ms`, and derives the trigger and the waiting times.
pub fn psi_wait_plan(stall_ms: u64, window_ms: u64, min_waiting_ms: u64, max_waiting_ms: u64) -> (r:
    Result<PsiWait, PsiError>)
    ensures
        stall_ms > window_ms ==> r == Err::<PsiWait, PsiError>(PsiError::StallLargerThanWindow),
        stall_ms <= window_ms && min_waiting_ms > max_waiting_ms ==> r == Err::<PsiWait, PsiError>(
            PsiError::MinWaitLargerThanMax,
        ),
        stall_ms <= window_ms && min_waiting_ms <= max_waiting_ms && window_ms * 1000
            > u64::MAX ==> r == Err::<PsiWait, PsiError>(PsiError::TooLarge),
        stall_ms <= window_ms && min_waiting_ms <= max_waiting_ms && window_ms * 1000 <= u64::MAX
            ==> r == Ok::<PsiWait, PsiError>(
            PsiWait {
                stall_us: (stall_ms * 1000) as u64,
                window_us: (window_ms * 1000) as u64,
                sleep_ms: min_waiting_ms,
                listen_ms: (max_waiting_ms - min_waiting_ms) as u64,
            },
        ),
{
    if stall_ms > window_ms {
        return Err(PsiError::StallLargerThanWindow);
    }
    if min_waiting_ms > max_waiting_ms {
        return Err(PsiError::MinWaitLargerThanMax);
    }
    if window_ms > u64::MAX / 1000 {
        return Err(PsiError::TooLarge);
    }
    Ok(
        PsiWait {
            stall_us: stall_ms * 1000,
            window_us: window_ms * 1000,
            sleep_ms: min_waiting_ms,
            listen_ms: max_waiting_ms - min_waiting_ms,
        },
    )
}

} // verus!
