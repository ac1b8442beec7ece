use cros_p9::resume::{HibernateCookie, ResumeConductor, ResumeDecision, ResumeOptions};

#[test]
fn resume_only_when_in_progress() {
    let c = ResumeConductor::new(String::from("/dev/sda1"));
    assert_eq!(c.stateful_block_path(), "/dev/sda1");
    assert_eq!(
        c.decide_to_resume(HibernateCookie::ResumeInProgress),
        ResumeDecision::Resume { overridden: false }
    );
    assert_eq!(
        c.decide_to_resume(HibernateCookie::NoResume),
        ResumeDecision::NoResumePending
    );
    assert_eq!(
        c.decide_to_resume(HibernateCookie::EmergencyReboot),
        ResumeDecision::Abandon { clear_cookie: true }
    );
    assert_eq!(
        c.decide_to_resume(HibernateCookie::ResumeAborting),
        ResumeDecision::Abandon { clear_cookie: false }
    );
    assert!(c.should_launch_image());
}

#[test]
fn dry_run_always_resumes_without_launching() {
    let mut c = ResumeConductor::new(String::from("/dev/sda1"));
    c.set_options(ResumeOptions { dry_run: true });
    assert_eq!(
        c.decide_to_resume(HibernateCookie::NoResume),
        ResumeDecision::Resume { overridden: true }
    );
    assert!(!c.should_launch_image());
}
