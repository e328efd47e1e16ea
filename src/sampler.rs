//! The Ruby sampler and the channels it delivers through. Everything here
//! stands for code outside this library; the backend's decisions around it
//! are verified in `backend`.
use std::sync::mpsc::{Receiver, Sender, SyncSender};
use vstd::prelude::*;

verus! {

#[verifier::external_type_specification]
#[verifier::external_body]
pub struct ExSampler(rbspy::sampler::Sampler);

#[verifier::external_type_specification]
#[verifier::external_body]
pub struct ExRubyStackTrace(rbspy::StackTrace);

#[verifier::external_type_specification]
#[verifier::external_body]
pub struct ExRubyStackFrame(rbspy::StackFrame);

#[verifier::external_type_specification]
#[verifier::external_body]
pub struct ExAnyhowError(anyhow::Error);

#[verifier::external_type_specification]
#[verifier::external_body]
#[verifier::reject_recursive_types(T)]
pub struct ExReceiver<T>(Receiver<T>);

#[verifier::external_type_specification]
#[verifier::external_body]
#[verifier::reject_recursive_types(T)]
pub struct ExSender<T>(Sender<T>);

#[verifier::external_type_specification]
#[verifier::external_body]
#[verifier::reject_recursive_types(T)]
pub struct ExSyncSender<T>(SyncSender<T>);

/// What the sampler reports about its own failures.
pub type SamplerResult = Result<(), anyhow::Error>;

/// The longest time limit, in seconds, that a sampler accepts here. Starting
/// the sampler adds the limit to the current monotonic time, which panics
/// when the sum cannot be represented; this bound keeps it representable for
/// any uptime below 2^62 seconds.
pub const MAX_TIME_LIMIT_SECS: u64 = 0xffff_ffff;

/// A Ruby sampler together with the settings it was built with.
pub struct RubySampler {
    pid: i32,
    sample_rate: u32,
    lock_process: bool,
    time_limit_secs: Option<u64>,
    with_subprocesses: bool,
    sampler: rbspy::sampler::Sampler,
}

/// The settings of a sampler: process, rate, locking, time limit in seconds,
/// and whether subprocesses are sampled.
pub ghost struct SamplerSettings {
    pub pid: i32,
    pub sample_rate: u32,
    pub lock_process: bool,
    pub time_limit_secs: Option<u64>,
    pub with_subprocesses: bool,
}

impl RubySampler {
    /// The settings the sampler was built with.
    pub closed spec fn settings(&self) -> SamplerSettings {
        SamplerSettings {
            pid: self.pid,
            sample_rate: self.sample_rate,
            lock_process: self.lock_process,
            time_limit_secs: self.time_limit_secs,
            with_subprocesses: self.with_subprocesses,
        }
    }
}

/// Relies on `rbspy::sampler::Sampler::new`, which only stores its arguments:
/// no version is forced and off-CPU samples are kept. The time limit is
/// handed over as whole seconds.
#[verifier::external_body]
pub(crate) fn new_sampler(pid: i32, sample_rate: u32, lock_process: bool, time_limit_secs: Option<u64>, with_subprocesses: bool) -> (r: RubySampler)
    ensures
        r.settings() == (SamplerSettings { pid, sample_rate, lock_process, time_limit_secs, with_subprocesses }),
{
    let time_limit = time_limit_secs.map(core::time::Duration::from_secs);
    let sampler = rbspy::sampler::Sampler::new(pid, sample_rate, lock_process, time_limit, with_subprocesses, None, false);
    RubySampler { pid, sample_rate, lock_process, time_limit_secs, with_subprocesses, sampler }
}

/// Relies on `rbspy::sampler::Sampler::start`: it starts the sampling threads,
/// which send traces and their own failures to the two senders. It adds the
/// time limit to `Instant::now()`, hence the bound.
#[verifier::external_body]
pub(crate) fn start_sampler(sampler: &RubySampler, traces: SyncSender<rbspy::StackTrace>, errors: Sender<SamplerResult>) -> SamplerResult
    requires
        sampler.settings().time_limit_secs matches Some(l) ==> l <= MAX_TIME_LIMIT_SECS,
{
    sampler.sampler.start(traces, errors)
}

/// Relies on `anyhow::Error`'s `Display`: the error's message.
#[verifier::external_body]
pub(crate) fn error_message(error: anyhow::Error) -> String {
    error.to_string()
}

/// Relies on `rbspy::sampler::Sampler::stop`: it tells the sampling threads to end.
#[verifier::external_body]
pub(crate) fn stop_sampler(sampler: &RubySampler) {
    sampler.sampler.stop()
}

/// Relies on `std::sync::mpsc::sync_channel`: a queue that holds at most
/// `capacity` traces, whose sender blocks when it is full. The capacity is
/// taken as a `usize`, which holds it on the 64-bit targets that the sampler
/// supports.
#[verifier::external_body]
pub(crate) fn trace_channel(capacity: u64) -> (SyncSender<rbspy::StackTrace>, Receiver<rbspy::StackTrace>) {
    std::sync::mpsc::sync_channel(capacity as usize)
}

/// Relies on `std::sync::mpsc::channel`: an unbounded queue for the sampler's failures.
#[verifier::external_body]
pub(crate) fn error_channel() -> (Sender<SamplerResult>, Receiver<SamplerResult>) {
    std::sync::mpsc::channel()
}

/// Relies on `Receiver::try_iter`: the traces already queued, without waiting.
#[verifier::external_body]
pub(crate) fn drain_traces(receiver: &Receiver<rbspy::StackTrace>) -> Vec<rbspy::StackTrace> {
    receiver.try_iter().collect()
}

/// Relies on `Receiver::try_iter`: the sampler's results already queued,
/// without waiting.
#[verifier::external_body]
pub(crate) fn drain_results(receiver: &Receiver<SamplerResult>) -> Vec<SamplerResult> {
    receiver.try_iter().collect()
}

/// The parts of a sampler frame: method name, relative path, absolute path
/// and line number.
pub type FrameParts = (String, String, Option<String>, Option<usize>);

/// Relies on the public fields of `rbspy::StackTrace` and `rbspy::StackFrame`:
/// the process id, the thread id, and the frames, innermost first, each as
/// its parts.
#[verifier::external_body]
pub(crate) fn trace_parts(trace: rbspy::StackTrace) -> (Option<i32>, Option<usize>, Vec<FrameParts>) {
    let frames = trace.trace.into_iter().map(|f| (f.name, f.relative_path, f.absolute_path, f.lineno)).collect();
    (trace.pid, trace.thread_id, frames)
}

} // verus!
