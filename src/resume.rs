//! The decisions of resuming from hibernation: whether the hibernate cookie
//! allows a resume, and what happens to the cookie when it does not.
use vstd::prelude::*;

verus! {

/// The hibernate cookie left on the stateful block device.
#[derive(Clone, Copy, PartialEq, Eq, Debug, Structural)]
pub enum HibernateCookie {
    Uninitialized,
    NoResume,
    ResumeReady,
    ResumeInProgress,
    ResumeAborting,
    EmergencyReboot,
}

/// Options of a resume attempt.
#[derive(Clone, Copy, PartialEq, Eq, Debug, Structural)]
pub struct ResumeOptions {
    /// Go through the motions without launching the resume image.
    pub dry_run: bool,
}

/// What to do with a cookie when deciding whether to resume.
#[derive(Clone, Copy, PartialEq, Eq, Debug, Structural)]
pub enum ResumeDecision {
    /// Resume. `overridden` when only the dry run makes it go ahead.
    Resume { overridden: bool },
    /// No resume is pending.
    NoResumePending,
    /// Abandon the resume; `clear_cookie` when the cookie is to be reset to
    /// `NoResume` (it recorded an emergency reboot, which has been logged).
    Abandon { clear_cookie: bool },
}

/// Orchestrates resuming the system from hibernation.
pub struct ResumeConductor {
    options: ResumeOptions,
    stateful_block_path: String,
}

/// The decision for a cookie under the given options.
pub open spec fn decision(cookie: HibernateCookie, dry_run: bool) -> ResumeDecision {
    if cookie == HibernateCookie::ResumeInProgress || dry_run {
        ResumeDecision::Resume { overridden: cookie != HibernateCookie::ResumeInProgress }
    } else if cookie == HibernateCookie::NoResume {
        ResumeDecision::NoResumePending
    } else {
        ResumeDecision::Abandon { clear_cookie: cookie == HibernateCookie::EmergencyReboot }
    }
}

impl ResumeConductor {
    /// The options of the current attempt.
    pub closed spec fn spec_options(&self) -> ResumeOptions {
        self.options
    }

    /// The path of the stateful block device.
    pub closed spec fn spec_block_path(&self) -> Seq<char> {
        self.stateful_block_path@
    }

    /// A conductor for the stateful block device at `stateful_block_path`,
    /// with default options.
    pub fn new(stateful_block_path: String) -> (r: ResumeConductor)
        ensures
            r.spec_block_path() == stateful_block_path@,
            r.spec_options() == (ResumeOptions { dry_run: false }),
    {
        ResumeConductor { options: ResumeOptions { dry_run: false }, stateful_block_path }
    }

    /// Sets the options of the attempt about to start.
    pub fn set_options(&mut self, options: ResumeOptions)
        ensures
            final(self).spec_options() == options,
            final(self).spec_block_path() == old(self).spec_block_path(),
    {
        self.options = options;
    }

    /// The path of the stateful block device.
    pub fn stateful_block_path(&self) -> (r: &str)
        ensures
            r@ == self.spec_block_path(),
    {
        self.stateful_block_path.as_str()
    }

    /// Decides from the hibernate cookie whether to resume: only a resume in
    /// progress goes ahead, unless this is a dry run; a cookie that says no
    /// resume is pending stops quietly; any other abandons the resume, and an
    /// emergency-reboot cookie is to be cleared.
    pub fn decide_to_resume(&self, cookie: HibernateCookie) -> (r: ResumeDecision)
        ensures
            r == decision(cookie, self.spec_options().dry_run),
    {
        if cookie == HibernateCookie::ResumeInProgress || self.options.dry_run {
            ResumeDecision::Resume { overridden: cookie != HibernateCookie::ResumeInProgress }
        } else if cookie == HibernateCookie::NoResume {
            ResumeDecision::NoResumePending
        } else {
            ResumeDecision::Abandon { clear_cookie: cookie == HibernateCookie::EmergencyReboot }
        }
    }

    /// Whether the resume image is to be launched once everything is ready:
    /// not in a dry run.
    pub fn should_launch_image(&self) -> (r: bool)
        ensures
            r == !self.spec_options().dry_run,
    {
        !self.options.dry_run
    }
}

} // verus!
