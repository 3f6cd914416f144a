//! Shared data types.
use vstd::prelude::*;

use crate::text::str_equals;

verus! {

/// Runtime power-management state of the GPU, from
/// `device/power/runtime_status`.
#[derive(Debug, Clone, PartialEq, Eq)]
pub enum GpuRuntimePmState {
    On,
    Suspend,
    SuspendNoIrq,
    Resume,
    Unknown(String),
}

/// Mathematical model of [`GpuRuntimePmState`].
pub enum PmStateView {
    On,
    Suspend,
    SuspendNoIrq,
    Resume,
    Unknown(Seq<char>),
}

impl View for GpuRuntimePmState {
    type V = PmStateView;

    open spec fn view(&self) -> PmStateView {
        match self {
            GpuRuntimePmState::On => PmStateView::On,
            GpuRuntimePmState::Suspend => PmStateView::Suspend,
            GpuRuntimePmState::SuspendNoIrq => PmStateView::SuspendNoIrq,
            GpuRuntimePmState::Resume => PmStateView::Resume,
            GpuRuntimePmState::Unknown(s) => PmStateView::Unknown(s@),
        }
    }
}

/// The state that the kernel string `t` names.
pub open spec fn pm_state_from_text(t: Seq<char>) -> PmStateView {
    if t == "on"@ {
        PmStateView::On
    } else if t == "suspend"@ {
        PmStateView::Suspend
    } else if t == "suspend-noirq"@ {
        PmStateView::SuspendNoIrq
    } else if t == "resume"@ {
        PmStateView::Resume
    } else {
        PmStateView::Unknown(t)
    }
}

/// The kernel string of state `v`.
pub open spec fn pm_state_text(v: PmStateView) -> Seq<char> {
    match v {
        PmStateView::On => "on"@,
        PmStateView::Suspend => "suspend"@,
        PmStateView::SuspendNoIrq => "suspend-noirq"@,
        PmStateView::Resume => "resume"@,
        PmStateView::Unknown(t) => t,
    }
}

/// The states that some kernel string names: every state but `Unknown`
/// holding the string of a known state.
pub open spec fn is_canonical(v: PmStateView) -> bool {
    match v {
        PmStateView::Unknown(t) => t != "on"@ && t != "suspend"@ && t != "suspend-noirq"@ && t
            != "resume"@,
        _ => true,
    }
}

impl GpuRuntimePmState {
    /// The state that the kernel string `s` names; any other string is kept
    /// in `Unknown`.
    pub fn from_str(s: &str) -> (r: Self)
        ensures
            r@ == pm_state_from_text(s@),
    {
        if str_equals(s, "on") {
            GpuRuntimePmState::On
        } else if str_equals(s, "suspend") {
            GpuRuntimePmState::Suspend
        } else if str_equals(s, "suspend-noirq") {
            GpuRuntimePmState::SuspendNoIrq
        } else if str_equals(s, "resume") {
            GpuRuntimePmState::Resume
        } else {
            GpuRuntimePmState::Unknown(s.to_owned())
        }
    }

    /// The kernel string of this state.
    pub fn as_str(&self) -> (r: &str)
        ensures
            r@ == pm_state_text(self@),
    {
        match self {
            GpuRuntimePmState::On => "on",
            GpuRuntimePmState::Suspend => "suspend",
            GpuRuntimePmState::SuspendNoIrq => "suspend-noirq",
            GpuRuntimePmState::Resume => "resume",
            GpuRuntimePmState::Unknown(s) => s.as_str(),
        }
    }

    /// The state as it is displayed: its kernel string in brackets.
    pub fn to_display_string(&self) -> (r: String)
        ensures
            r@ == seq!['['] + pm_state_text(self@) + seq![']'],
    {
        proof {
            reveal_strlit("[");
            reveal_strlit("]");
        }
        let mut r = "[".to_owned();
        r.append(self.as_str());
        r.append("]");
        r
    }
}

impl Default for GpuRuntimePmState {
    fn default() -> (r: Self)
        ensures
            r@ == PmStateView::On,
    {
        GpuRuntimePmState::On
    }
}

/// The kernel strings of the runtime PM states are those of
/// `power/runtime_status`: `on`, `suspend`,
/// `suspend-noirq` and `resume`.
pub proof fn pm_state_strings()
    ensures
        pm_state_text(PmStateView::On) == "on"@,
        pm_state_text(PmStateView::Suspend) == "suspend"@,
        pm_state_text(PmStateView::SuspendNoIrq) == "suspend-noirq"@,
        pm_state_text(PmStateView::Resume) == "resume"@,
        pm_state_from_text("on"@) == PmStateView::On,
        pm_state_from_text("suspend"@) == PmStateView::Suspend,
        pm_state_from_text("suspend-noirq"@) == PmStateView::SuspendNoIrq,
        pm_state_from_text("resume"@) == PmStateView::Resume,
{
    reveal_strlit("on");
    reveal_strlit("suspend");
    reveal_strlit("suspend-noirq");
    reveal_strlit("resume");
}

/// Reading a kernel string as a state and writing the state back gives the
/// same string, for every string.
pub proof fn pm_state_text_round_trip(t: Seq<char>)
    ensures
        pm_state_text(pm_state_from_text(t)) == t,
{
}

/// Writing a state as its kernel string and reading it back gives the same
/// state, for every state that some string names.
pub proof fn pm_state_round_trip(v: PmStateView)
    requires
        is_canonical(v),
    ensures
        pm_state_from_text(pm_state_text(v)) == v,
{
    reveal_strlit("on");
    reveal_strlit("suspend");
    reveal_strlit("suspend-noirq");
    reveal_strlit("resume");
    assert("on"@.len() == 2);
    assert("suspend"@.len() == 7);
    assert("suspend-noirq"@.len() == 13);
    assert("resume"@.len() == 6);
}

/// Scheduler parameters of one engine class.
#[derive(Debug, Clone)]
pub struct EngineSchedulerParams {
    pub name: String,
    pub timeslice_ms: u64,
    pub preempt_timeout_ms: u64,
    pub job_timeout_ms: u64,
}

impl Default for EngineSchedulerParams {
    fn default() -> (r: Self)
        ensures
            r.name@ == Seq::<char>::empty(),
            r.timeslice_ms == 0,
            r.preempt_timeout_ms == 0,
            r.job_timeout_ms == 0,
    {
        EngineSchedulerParams {
            name: String::new(),
            timeslice_ms: 0,
            preempt_timeout_ms: 0,
            job_timeout_ms: 0,
        }
    }
}

} // verus!
