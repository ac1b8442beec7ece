//! Scheduler quality-of-service states for processes and threads, and the
//! scheduler settings that each thread state maps to.
use vstd::prelude::*;

verus! {

/// Scheduler QoS states of a process.
#[derive(Clone, Copy, PartialEq, Eq, Debug, Structural)]
pub enum ProcessState {
    Normal,
    Background,
}

/// The wire value of a process state.
pub open spec fn process_state_value(s: ProcessState) -> u8 {
    match s {
        ProcessState::Normal => 0,
        ProcessState::Background => 1,
    }
}

impl ProcessState {
    /// Decodes a process state from its numeric value.
    pub fn try_from(v: u8) -> (r: Result<ProcessState, ()>)
        ensures
            v < 2 <==> r.is_ok(),
            r matches Ok(s) ==> process_state_value(s) == v,
    {
        match v {
            0 => Ok(ProcessState::Normal),
            1 => Ok(ProcessState::Background),
            _ => Err(()),
        }
    }
}

/// Scheduler QoS states of a thread.
#[derive(Clone, Copy, PartialEq, Eq, Debug, Structural)]
pub enum ThreadState {
    UrgentBursty,
    Urgent,
    Balanced,
    Eco,
    Utility,
    Background,
}

/// The wire value of a thread state.
pub open spec fn thread_state_value(s: ThreadState) -> u8 {
    match s {
        ThreadState::UrgentBursty => 0,
        ThreadState::Urgent => 1,
        ThreadState::Balanced => 2,
        ThreadState::Eco => 3,
        ThreadState::Utility => 4,
        ThreadState::Background => 5,
    }
}

impl ThreadState {
    /// Decodes a thread state from its numeric value.
    pub fn try_from(v: u8) -> (r: Result<ThreadState, ()>)
        ensures
            v < 6 <==> r.is_ok(),
            r matches Ok(s) ==> thread_state_value(s) == v,
    {
        match v {
            0 => Ok(ThreadState::UrgentBursty),
            1 => Ok(ThreadState::Urgent),
            2 => Ok(ThreadState::Balanced),
            3 => Ok(ThreadState::Eco),
            4 => Ok(ThreadState::Utility),
            5 => Ok(ThreadState::Background),
            _ => Err(()),
        }
    }
}

/// The set of CPUs a thread may run on.
#[derive(Clone, Copy, PartialEq, Eq, Debug, Structural)]
pub enum CpuSelection {
    All,
    Efficient,
}

/// Scheduling policy for normal time-shared threads.
pub const SCHED_OTHER: u32 = 0;
/// Scheduling policy for first-in first-out real-time threads.
pub const SCHED_FIFO: u32 = 1;
/// Flag asking the kernel to apply `sched_util_min`.
pub const SCHED_FLAG_UTIL_CLAMP_MIN: u64 = 0x20;
/// Flag asking the kernel to apply `sched_util_max`.
pub const SCHED_FLAG_UTIL_CLAMP_MAX: u64 = 0x40;
/// Largest utilization clamp value.
pub const UCLAMP_MAX: u32 = 1024;
/// Minimum utilization clamp of boosted threads: 60% of the maximum, rounded.
pub const UCLAMP_BOOSTED_MIN: u32 = 614;
/// Size in bytes of the kernel's `sched_attr` structure.
pub const SCHED_ATTR_SIZE: u32 = 56;

/// The kernel's `sched_attr`, as passed to `sched_setattr(2)`.
#[derive(Clone, Copy, PartialEq, Eq, Debug, Structural)]
pub struct SchedAttr {
    pub size: u32,
    pub sched_policy: u32,
    pub sched_flags: u64,
    pub sched_nice: i32,
    pub sched_priority: u32,
    pub sched_runtime: u64,
    pub sched_deadline: u64,
    pub sched_period: u64,
    pub sched_util_min: u32,
    pub sched_util_max: u32,
}

/// Default attributes: normal policy, no priority, full utilization range.
pub open spec fn default_attr() -> SchedAttr {
    SchedAttr {
        size: SCHED_ATTR_SIZE,
        sched_policy: SCHED_OTHER,
        sched_flags: 0,
        sched_nice: 0,
        sched_priority: 0,
        sched_runtime: 0,
        sched_deadline: 0,
        sched_period: 0,
        sched_util_min: 0,
        sched_util_max: UCLAMP_MAX,
    }
}

impl SchedAttr {
    /// Default attributes: normal policy, no priority, full utilization range.
    pub fn new_default() -> (r: SchedAttr)
        ensures
            r == default_attr(),
    {
        SchedAttr {
            size: SCHED_ATTR_SIZE,
            sched_policy: SCHED_OTHER,
            sched_flags: 0,
            sched_nice: 0,
            sched_priority: 0,
            sched_runtime: 0,
            sched_deadline: 0,
            sched_period: 0,
            sched_util_min: 0,
            sched_util_max: UCLAMP_MAX,
        }
    }
}

/// What a thread state asks of the scheduler.
#[derive(Clone, Copy, PartialEq, Eq, Debug, Structural)]
pub struct ThreadSettings {
    pub sched_settings: SchedAttr,
    pub cpuset: CpuSelection,
    /// Whether the thread should prefer idle CPUs (latency sensitive).
    pub prefer_idle: bool,
}

/// The settings table for thread states.
pub open spec fn thread_settings_spec(s: ThreadState) -> ThreadSettings {
    let d = default_attr();
    match s {
        ThreadState::UrgentBursty => ThreadSettings {
            sched_settings: SchedAttr {
                sched_policy: SCHED_FIFO,
                sched_priority: 8u32,
                sched_util_min: UCLAMP_BOOSTED_MIN,
                ..d
            },
            cpuset: CpuSelection::All,
            prefer_idle: true,
        },
        ThreadState::Urgent => ThreadSettings {
            sched_settings: SchedAttr { sched_nice: -8i32, sched_util_min: UCLAMP_BOOSTED_MIN, ..d },
            cpuset: CpuSelection::All,
            prefer_idle: true,
        },
        ThreadState::Balanced => ThreadSettings {
            sched_settings: d,
            cpuset: CpuSelection::All,
            prefer_idle: true,
        },
        ThreadState::Eco => ThreadSettings {
            sched_settings: d,
            cpuset: CpuSelection::Efficient,
            prefer_idle: false,
        },
        ThreadState::Utility => ThreadSettings {
            sched_settings: SchedAttr { sched_nice: 1i32, ..d },
            cpuset: CpuSelection::Efficient,
            prefer_idle: false,
        },
        ThreadState::Background => ThreadSettings {
            sched_settings: SchedAttr { sched_nice: 10i32, ..d },
            cpuset: CpuSelection::Efficient,
            prefer_idle: false,
        },
    }
}

/// Looks up the settings of a thread state.
pub fn thread_settings(s: ThreadState) -> (r: ThreadSettings)
    ensures
        r == thread_settings_spec(s),
{
    let d = SchedAttr::new_default();
    match s {
        ThreadState::UrgentBursty => ThreadSettings {
            sched_settings: SchedAttr {
                sched_policy: SCHED_FIFO,
                sched_priority: 8,
                sched_util_min: UCLAMP_BOOSTED_MIN,
                ..d
            },
            cpuset: CpuSelection::All,
            prefer_idle: true,
        },
        ThreadState::Urgent => ThreadSettings {
            sched_settings: SchedAttr { sched_nice: -8, sched_util_min: UCLAMP_BOOSTED_MIN, ..d },
            cpuset: CpuSelection::All,
            prefer_idle: true,
        },
        ThreadState::Balanced => ThreadSettings {
            sched_settings: d,
            cpuset: CpuSelection::All,
            prefer_idle: true,
        },
        ThreadState::Eco => ThreadSettings {
            sched_settings: d,
            cpuset: CpuSelection::Efficient,
            prefer_idle: false,
        },
        ThreadState::Utility => ThreadSettings {
            sched_settings: SchedAttr { sched_nice: 1, ..d },
            cpuset: CpuSelection::Efficient,
            prefer_idle: false,
        },
        ThreadState::Background => ThreadSettings {
            sched_settings: SchedAttr { sched_nice: 10, ..d },
            cpuset: CpuSelection::Efficient,
            prefer_idle: false,
        },
    }
}

/// Scheduler QoS context: remembers whether the kernel supports utilization
/// clamping, which decides the flags passed with each thread's attributes.
pub struct SchedQosContext {
    uclamp_support: bool,
}

impl SchedQosContext {
    /// Whether the kernel supports utilization clamping.
    pub closed spec fn spec_uclamp_support(&self) -> bool {
        self.uclamp_support
    }

    /// Creates a context for a kernel that does (or does not) support
    /// utilization clamping through `sched_attr`.
    pub fn new(uclamp_support: bool) -> (r: SchedQosContext)
        ensures
            r.spec_uclamp_support() == uclamp_support,
    {
        SchedQosContext { uclamp_support }
    }

    /// The attributes to pass to `sched_setattr(2)` for a thread in `state`:
    /// those of the settings table, with the clamp flags set when the kernel
    /// supports them (otherwise the call would fail with `EOPNOTSUPP`).
    pub fn thread_sched_attr(&self, state: ThreadState) -> (r: SchedAttr)
        ensures
            r == (SchedAttr {
                sched_flags: if self.spec_uclamp_support() {
                    thread_settings_spec(state).sched_settings.sched_flags | SCHED_FLAG_UTIL_CLAMP_MIN
                        | SCHED_FLAG_UTIL_CLAMP_MAX
                } else {
                    thread_settings_spec(state).sched_settings.sched_flags
                },
                ..thread_settings_spec(state).sched_settings
            }),
    {
        let mut attr = thread_settings(state).sched_settings;
        if self.uclamp_support {
            attr.sched_flags = attr.sched_flags | SCHED_FLAG_UTIL_CLAMP_MIN | SCHED_FLAG_UTIL_CLAMP_MAX;
        }
        attr
    }
}

} // verus!
