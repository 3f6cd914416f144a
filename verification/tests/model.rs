use xetop::model::{EngineSchedulerParams, GpuRuntimePmState};

#[test]
fn pm_state_from_kernel_strings() {
    assert_eq!(GpuRuntimePmState::from_str("on"), GpuRuntimePmState::On);
    assert_eq!(GpuRuntimePmState::from_str("suspend"), GpuRuntimePmState::Suspend);
    assert_eq!(GpuRuntimePmState::from_str("suspend-noirq"), GpuRuntimePmState::SuspendNoIrq);
    assert_eq!(GpuRuntimePmState::from_str("resume"), GpuRuntimePmState::Resume);
    assert_eq!(
        GpuRuntimePmState::from_str("suspending"),
        GpuRuntimePmState::Unknown("suspending".to_string())
    );
    assert_eq!(GpuRuntimePmState::from_str("On"), GpuRuntimePmState::Unknown("On".to_string()));
    assert_eq!(GpuRuntimePmState::from_str(""), GpuRuntimePmState::Unknown(String::new()));
}

#[test]
fn pm_state_strings_round_trip() {
    for s in ["on", "suspend", "suspend-noirq", "resume", "active", "é"] {
        assert_eq!(GpuRuntimePmState::from_str(s).as_str(), s);
    }
}

#[test]
fn pm_state_display_and_default() {
    assert_eq!(GpuRuntimePmState::SuspendNoIrq.to_display_string(), "[suspend-noirq]");
    assert_eq!(GpuRuntimePmState::Unknown("x".to_string()).to_display_string(), "[x]");
    assert_eq!(GpuRuntimePmState::default(), GpuRuntimePmState::On);
}

#[test]
fn scheduler_params_default_is_zero() {
    let p = EngineSchedulerParams::default();
    assert_eq!(p.name, "");
    assert_eq!((p.timeslice_ms, p.preempt_timeout_ms, p.job_timeout_ms), (0, 0, 0));
}
