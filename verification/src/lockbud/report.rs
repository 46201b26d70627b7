//! The reports that the detectors produce.

use vstd::prelude::*;

verus! {

/// A bug report, by the kind of bug.
#[derive(Debug, Clone)]
pub enum Report {
    DoubleLock(ReportContent<DeadlockDiagnosis>),
    ConflictLock(ReportContent<Vec<DeadlockDiagnosis>>),
    CondvarDeadlock(ReportContent<CondvarDeadlockDiagnosis>),
    AtomicityViolation(ReportContent<AtomicityViolationDiagnosis>),
    InvalidFree(ReportContent<InvalidFreeDiagnosis>),
    UseAfterFree(ReportContent<UseAfterFreeDiagnosis>),
    Panic(ReportContent<PanicDiagnosis>),
    ChannelDeadlock(ReportContent<ChannelDeadlockDiagnosis>),
    OrphanSender(ReportContent<OrphanSenderDiagnosis>),
    MissingSend(ReportContent<MissingSendDiagnosis>),
}

/// What every report says: the kind of bug, how likely it is, the evidence and an explanation.
#[derive(Debug, Clone)]
pub struct ReportContent<T> {
    pub bug_kind: String,
    pub possibility: String,
    pub diagnosis: T,
    pub explanation: String,
}

impl<T> ReportContent<T> {
    /// A report with these parts.
    pub fn new(bug_kind: String, possibility: String, diagnosis: T, explanation: String) -> (r: Self)
        ensures
            r.bug_kind@ == bug_kind@,
            r.possibility@ == possibility@,
            r.diagnosis == diagnosis,
            r.explanation@ == explanation@,
    {
        Self { bug_kind, possibility, diagnosis, explanation }
    }
}

/// Two lock acquisitions that may deadlock, and the call chains that lead to them.
#[derive(Debug, Clone)]
pub struct DeadlockDiagnosis {
    pub first_lock_type: String,
    pub first_lock_span: String,
    pub second_lock_type: String,
    pub second_lock_span: String,
    pub callchains: Vec<Vec<Vec<String>>>,
}

impl DeadlockDiagnosis {
    /// A diagnosis with these parts.
    pub fn new(
        first_lock_type: String,
        first_lock_span: String,
        second_lock_type: String,
        second_lock_span: String,
        callchains: Vec<Vec<Vec<String>>>,
    ) -> (r: Self)
        ensures
            r.first_lock_type@ == first_lock_type@,
            r.first_lock_span@ == first_lock_span@,
            r.second_lock_type@ == second_lock_type@,
            r.second_lock_span@ == second_lock_span@,
            r.callchains == callchains,
    {
        Self { first_lock_type, first_lock_span, second_lock_type, second_lock_span, callchains }
    }
}

/// A lock held around a condition-variable wait, and one held around the matching notify.
#[derive(Debug, Clone)]
pub struct WaitNotifyLocks {
    pub wait_lock_type: String,
    pub wait_lock_span: String,
    pub notify_lock_type: String,
    pub notify_lock_span: String,
}

impl WaitNotifyLocks {
    /// A pair of locks with these parts.
    pub fn new(
        wait_lock_type: String,
        wait_lock_span: String,
        notify_lock_type: String,
        notify_lock_span: String,
    ) -> (r: Self)
        ensures
            r.wait_lock_type@ == wait_lock_type@,
            r.wait_lock_span@ == wait_lock_span@,
            r.notify_lock_type@ == notify_lock_type@,
            r.notify_lock_span@ == notify_lock_span@,
    {
        Self { wait_lock_type, wait_lock_span, notify_lock_type, notify_lock_span }
    }
}

/// A condition-variable wait and notify that may deadlock, and the locks involved.
#[derive(Debug, Clone)]
pub struct CondvarDeadlockDiagnosis {
    pub condvar_wait_type: String,
    pub condvar_wait_callsite_span: String,
    pub condvar_notify_type: String,
    pub condvar_notify_callsite_span: String,
    pub deadlocks: Vec<WaitNotifyLocks>,
}

impl CondvarDeadlockDiagnosis {
    /// A diagnosis with these parts.
    pub fn new(
        condvar_wait_type: String,
        condvar_wait_callsite_span: String,
        condvar_notify_type: String,
        condvar_notify_callsite_span: String,
        deadlocks: Vec<WaitNotifyLocks>,
    ) -> (r: Self)
        ensures
            r.condvar_wait_type@ == condvar_wait_type@,
            r.condvar_wait_callsite_span@ == condvar_wait_callsite_span@,
            r.condvar_notify_type@ == condvar_notify_type@,
            r.condvar_notify_callsite_span@ == condvar_notify_callsite_span@,
            r.deadlocks@ == deadlocks@,
    {
        Self {
            condvar_wait_type,
            condvar_wait_callsite_span,
            condvar_notify_type,
            condvar_notify_callsite_span,
            deadlocks,
        }
    }
}

/// An atomic read and a later atomic write that depends on it.
#[derive(Debug, Clone)]
pub struct AtomicityViolationDiagnosis {
    pub fn_name: String,
    pub atomic_reader: String,
    pub atomic_writer: String,
    pub dep_kind: String,
}

/// A value that may be freed while not initialised.
#[derive(Debug, Clone)]
pub struct InvalidFreeDiagnosis {
    pub ty: String,
    pub uninit_span: String,
    pub assume_init_span: Option<String>,
}

/// A raw pointer used after what it points to was dropped.
#[derive(Debug, Clone)]
pub struct UseAfterFreeDiagnosis {
    pub raw_ptr_local: usize,
    pub use_span: String,
    pub drop_span: String,
    pub explanation: String,
}

/// A call that may panic.
#[derive(Debug, Clone)]
pub struct PanicDiagnosis {
    pub fn_name: String,
    pub panic_api: String,
    pub callsite_span: String,
}

/// A blocking send that comes before the receive it waits for.
#[derive(Debug, Clone)]
pub struct ChannelDeadlockDiagnosis {
    pub fn_name: String,
    pub channel_type: String,
    pub send_span: String,
    pub recv_span: String,
    pub explanation: String,
}

/// A receive with no send on the same channel.
#[derive(Debug, Clone)]
pub struct OrphanSenderDiagnosis {
    pub fn_name: String,
    pub channel_type: String,
    pub receiver_recv_span: String,
    pub explanation: String,
}

/// A sender moved to another thread that never sends.
#[derive(Debug, Clone)]
pub struct MissingSendDiagnosis {
    pub fn_name: String,
    pub channel_type: String,
    pub sender_span: String,
    pub explanation: String,
}

} // verus!
