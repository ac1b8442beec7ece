use cros_p9::psi::{psi_wait_plan, PsiError, PsiWait};

#[test]
fn test_wait_psi_monitor_memory_event() {
    const MIN_WAITING_MS: u64 = 500;
    const MAX_WAITING_MS: u64 = 10000;
    const STALL_MS: u64 = 150;
    const WINDOW_MS: u64 = 1000;

    const WRONG_STALL_MS: u64 = 1001;
    const WRONG_MIN_WAITING_MS: u64 = 10001;

    // It should return error when stall is larger than window.
    assert!(psi_wait_plan(WRONG_STALL_MS, WINDOW_MS, MIN_WAITING_MS, MAX_WAITING_MS).is_err());

    // It should return error when min waiting is larger than max waiting.
    assert!(psi_wait_plan(STALL_MS, WINDOW_MS, WRONG_MIN_WAITING_MS, MAX_WAITING_MS).is_err());

    assert_eq!(
        psi_wait_plan(STALL_MS, WINDOW_MS, MIN_WAITING_MS, MAX_WAITING_MS),
        Ok(PsiWait {
            stall_us: 150_000,
            window_us: 1_000_000,
            sleep_ms: 500,
            listen_ms: 9500,
        })
    );
}

#[test]
fn psi_errors() {
    assert_eq!(psi_wait_plan(2, 1, 0, 0), Err(PsiError::StallLargerThanWindow));
    assert_eq!(psi_wait_plan(1, 1, 2, 1), Err(PsiError::MinWaitLargerThanMax));
    assert_eq!(psi_wait_plan(0, u64::MAX, 0, 0), Err(PsiError::TooLarge));
}
