use cros_p9::schedqos::{
    thread_settings, CpuSelection, ProcessState, SchedQosContext, ThreadState, SCHED_FIFO,
    SCHED_FLAG_UTIL_CLAMP_MAX, SCHED_FLAG_UTIL_CLAMP_MIN, UCLAMP_BOOSTED_MIN, UCLAMP_MAX,
};

const NUM_PROCESS_STATES: usize = 2;
const NUM_THREAD_STATES: usize = 6;

#[test]
fn test_process_state_conversion() {
    for state in [ProcessState::Normal, ProcessState::Background] {
        assert_eq!(state, ProcessState::try_from(state as u8).unwrap());
    }

    assert!(ProcessState::try_from(NUM_PROCESS_STATES as u8).is_err());
}

#[test]
fn test_thread_state_conversion() {
    for state in [
        ThreadState::UrgentBursty,
        ThreadState::Urgent,
        ThreadState::Balanced,
        ThreadState::Eco,
        ThreadState::Utility,
        ThreadState::Background,
    ] {
        assert_eq!(state, ThreadState::try_from(state as u8).unwrap());
    }

    assert!(ThreadState::try_from(NUM_THREAD_STATES as u8).is_err());
}

#[test]
fn thread_settings_table() {
    let s = thread_settings(ThreadState::UrgentBursty);
    assert_eq!(s.sched_settings.sched_policy, SCHED_FIFO);
    assert_eq!(s.sched_settings.sched_priority, 8);
    assert_eq!(s.sched_settings.sched_util_min, UCLAMP_BOOSTED_MIN);
    assert_eq!(UCLAMP_BOOSTED_MIN, 614);
    assert_eq!(s.cpuset, CpuSelection::All);
    assert!(s.prefer_idle);

    let s = thread_settings(ThreadState::Background);
    assert_eq!(s.sched_settings.sched_nice, 10);
    assert_eq!(s.sched_settings.sched_util_max, UCLAMP_MAX);
    assert_eq!(s.cpuset, CpuSelection::Efficient);
    assert!(!s.prefer_idle);

    assert_eq!(thread_settings(ThreadState::Urgent).sched_settings.sched_nice, -8);
    assert_eq!(thread_settings(ThreadState::Utility).sched_settings.sched_nice, 1);
    assert_eq!(thread_settings(ThreadState::Eco).cpuset, CpuSelection::Efficient);
    assert_eq!(thread_settings(ThreadState::Balanced).cpuset, CpuSelection::All);
}

#[test]
fn clamp_flags_follow_kernel_support() {
    let with = SchedQosContext::new(true);
    let without = SchedQosContext::new(false);
    let flags = SCHED_FLAG_UTIL_CLAMP_MIN | SCHED_FLAG_UTIL_CLAMP_MAX;
    assert_eq!(with.thread_sched_attr(ThreadState::Eco).sched_flags, flags);
    assert_eq!(without.thread_sched_attr(ThreadState::Eco).sched_flags, 0);
    assert_eq!(with.thread_sched_attr(ThreadState::Urgent).sched_nice, -8);
}
