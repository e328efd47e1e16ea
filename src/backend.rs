//! The Ruby sampling backend: configuration and lifecycle. The sampler itself
//! runs outside; the backend decides what may happen in which state, and
//! aggregates and encodes what the sampler delivered.
use vstd::prelude::*;
use vstd::string::StringExecFns;

use crate::error::BackendError;
use crate::model::{is_trace_of_parts, trace_from_parts, Trace};
use crate::sampler::{
    drain_results, drain_traces, error_channel, error_message, new_sampler, start_sampler, stop_sampler,
    trace_channel, trace_parts, FrameParts, RubySampler, SamplerResult, SamplerSettings, MAX_TIME_LIMIT_SECS,
};
use std::sync::mpsc::Receiver;
use crate::report::{add_capped, is_folded, key_of, law_fold_depends_on_counts_only, KeyView, Report};
use vstd::seq_lib::{to_multiset_contains, to_multiset_len, to_multiset_remove};

verus! {

/// Where a backend stands in its lifecycle.
#[derive(Debug, Clone, Copy, PartialEq, Eq, Structural)]
pub enum State {
    Uninitialized,
    Ready,
    Running,
}

/// Configuration of the Ruby sampler.
#[derive(Debug)]
pub struct RbspyConfig {
    /// Process to monitor.
    pub pid: Option<i32>,
    /// Samples per second.
    pub sample_rate: u32,
    /// Whether the process is stopped while a sample is taken.
    pub lock_process: bool,
    /// How long to profile, in seconds; `None` for no limit.
    pub time_limit: Option<u64>,
    /// Whether subprocesses are sampled too.
    pub with_subprocesses: bool,
}

/// The sample rate of a configuration that sets none.
pub const DEFAULT_SAMPLE_RATE: u32 = 100;

impl Default for RbspyConfig {
    fn default() -> (r: Self)
        ensures
            r.pid is None,
            r.sample_rate == DEFAULT_SAMPLE_RATE,
            !r.lock_process,
            r.time_limit is None,
            !r.with_subprocesses,
    {
        RbspyConfig {
            pid: None,
            sample_rate: DEFAULT_SAMPLE_RATE,
            lock_process: false,
            time_limit: None,
            with_subprocesses: false,
        }
    }
}

impl RbspyConfig {
    /// A configuration that samples process `pid`, otherwise the defaults.
    pub fn new(pid: i32) -> (r: Self)
        ensures
            r.pid == Some(pid),
            r.sample_rate == DEFAULT_SAMPLE_RATE,
            !r.lock_process,
            r.time_limit is None,
            !r.with_subprocesses,
    {
        RbspyConfig { pid: Some(pid), ..Default::default() }
    }

    /// The same configuration with another sample rate.
    pub fn sample_rate(self, sample_rate: u32) -> (r: Self)
        ensures
            r.pid == self.pid,
            r.sample_rate == sample_rate,
            r.lock_process == self.lock_process,
            r.time_limit == self.time_limit,
            r.with_subprocesses == self.with_subprocesses,
    {
        RbspyConfig { sample_rate, ..self }
    }

    /// The same configuration with another process locking choice.
    pub fn lock_process(self, lock_process: bool) -> (r: Self)
        ensures
            r.pid == self.pid,
            r.sample_rate == self.sample_rate,
            r.lock_process == lock_process,
            r.time_limit == self.time_limit,
            r.with_subprocesses == self.with_subprocesses,
    {
        RbspyConfig { lock_process, ..self }
    }

    /// The same configuration with another time limit, in seconds.
    pub fn time_limit(self, time_limit: Option<u64>) -> (r: Self)
        ensures
            r.pid == self.pid,
            r.sample_rate == self.sample_rate,
            r.lock_process == self.lock_process,
            r.time_limit == time_limit,
            r.with_subprocesses == self.with_subprocesses,
    {
        RbspyConfig { time_limit, ..self }
    }

    /// The same configuration with another subprocess choice.
    pub fn with_subprocesses(self, with_subprocesses: bool) -> (r: Self)
        ensures
            r.pid == self.pid,
            r.sample_rate == self.sample_rate,
            r.lock_process == self.lock_process,
            r.time_limit == self.time_limit,
            r.with_subprocesses == with_subprocesses,
    {
        RbspyConfig { with_subprocesses, ..self }
    }
}

/// Number of times `k` is the key of a trace in `ts`.
pub open spec fn occurrences(ts: Seq<Trace>, k: KeyView) -> nat
    decreases ts.len(),
{
    if ts.len() == 0 {
        0
    } else {
        (if key_of(ts[0]) == k { 1nat } else { 0nat }) + occurrences(ts.drop_first(), k)
    }
}

/// The UTF-8 encoding of one character.
pub open spec fn utf8_char(c: char) -> Seq<u8> {
    let n = c as int;
    if n < 0x80 {
        seq![n as u8]
    } else if n < 0x800 {
        seq![(0xc0 + n / 64) as u8, (0x80 + n % 64) as u8]
    } else if n < 0x10000 {
        seq![(0xe0 + n / 4096) as u8, (0x80 + (n / 64) % 64) as u8, (0x80 + n % 64) as u8]
    } else {
        seq![(0xf0 + n / 262144) as u8, (0x80 + (n / 4096) % 64) as u8, (0x80 + (n / 64) % 64) as u8, (0x80 + n % 64) as u8]
    }
}

/// The UTF-8 encoding of a character sequence.
pub open spec fn utf8_of(s: Seq<char>) -> Seq<u8>
    decreases s.len(),
{
    if s.len() == 0 {
        Seq::empty()
    } else {
        utf8_of(s.drop_last()) + utf8_char(s.last())
    }
}

/// Every character takes at least one byte.
pub proof fn lemma_utf8_len(s: Seq<char>)
    ensures
        utf8_of(s).len() >= s.len(),
    decreases s.len(),
{
    if s.len() > 0 {
        lemma_utf8_len(s.drop_last());
    }
}

/// Relies on `String::into_bytes`: the bytes of the string's UTF-8 encoding.
#[verifier::external_body]
fn string_into_bytes(s: String) -> (r: Vec<u8>)
    ensures
        r@ == utf8_of(s@),
{
    s.into_bytes()
}

/// `bytes` reports the window that `before` had aggregated, with `traces`
/// recorded on top: the folded encoding, without thread names, of a report
/// that counts each key as `before` did plus its occurrences in `traces`.
/// The bytes are empty exactly when that window is.
pub open spec fn is_window_report(before: Report, traces: Seq<Trace>, bytes: Seq<u8>) -> bool {
    exists|window: Report, text: Seq<char>| {
        &&& window.wf()
        &&& forall|k: KeyView| #[trigger] window.count(k) == add_capped(before.count(k), occurrences(traces, k))
        &&& is_folded(window.key_seq(), window.count_seq(), false, text)
        &&& bytes == utf8_of(text)
        &&& (bytes.len() == 0 <==> window.spec_is_empty())
    }
}

/// `t` is made from one trace of the sampler: from some process id, thread
/// id and frames, as `trace_from_parts` converts them.
pub open spec fn is_sampler_trace(t: Trace) -> bool {
    exists|pid: Option<i32>, thread_id: Option<usize>, frames: Seq<FrameParts>|
        #[trigger] is_trace_of_parts(t, pid, thread_id, frames)
}

/// A trace of the Ruby sampler in this library's terms (see `trace_from_parts`).
pub fn convert_trace(trace: rbspy::StackTrace) -> (r: Trace)
    ensures
        is_sampler_trace(r),
{
    let (pid, thread_id, frames) = trace_parts(trace);
    let ghost gf = frames@;
    let r = trace_from_parts(pid, thread_id, frames);
    assert(is_trace_of_parts(r, pid, thread_id, gf));
    r
}

/// Number of failures among the sampler's results.
pub open spec fn failure_count(results: Seq<SamplerResult>) -> nat
    decreases results.len(),
{
    if results.len() == 0 {
        0
    } else {
        failure_count(results.drop_last()) + if results.last() is Err { 1nat } else { 0nat }
    }
}

/// One message for each failure among `results`, in order.
fn failure_messages(results: Vec<SamplerResult>) -> (r: Vec<String>)
    ensures
        r@.len() == failure_count(results@),
{
    let ghost all = results@;
    let mut rest = results;
    let mut reversed: Vec<String> = Vec::new();
    while rest.len() > 0
        invariant
            rest@ == all.take(rest@.len() as int),
            rest@.len() <= all.len(),
            reversed@.len() + failure_count(rest@) == failure_count(all),
        decreases rest@.len(),
    {
        let ghost before = rest@;
        assert(before.drop_last() =~= all.take(before.len() - 1));
        match rest.pop().unwrap() {
            Ok(()) => {},
            Err(e) => reversed.push(error_message(e)),
        }
    }
    let mut messages: Vec<String> = Vec::new();
    let ghost n = reversed@.len();
    while reversed.len() > 0
        invariant
            messages@.len() + reversed@.len() == n,
        decreases reversed@.len(),
    {
        messages.push(reversed.pop().unwrap());
    }
    assert(all.take(all.len() as int) =~= all);
    messages
}

/// The sampler settings a configuration asks for.
pub open spec fn settings_of(c: RbspyConfig) -> SamplerSettings {
    SamplerSettings {
        pid: c.pid->0,
        sample_rate: c.sample_rate,
        lock_process: c.lock_process,
        time_limit_secs: c.time_limit,
        with_subprocesses: c.with_subprocesses,
    }
}

/// The time limit of a configuration is one a sampler can start with.
pub open spec fn time_limit_ok(c: RbspyConfig) -> bool {
    c.time_limit matches Some(l) ==> l <= MAX_TIME_LIMIT_SECS
}

/// The Ruby sampling backend.
pub struct Rbspy {
    state: State,
    config: RbspyConfig,
    sampler: Option<RubySampler>,
    stack_receiver: Option<Receiver<rbspy::StackTrace>>,
    error_receiver: Option<Receiver<SamplerResult>>,
    sampler_errors: Vec<String>,
    buffer: Report,
}

impl Rbspy {
    /// Lifecycle state.
    pub closed spec fn spec_state(&self) -> State {
        self.state
    }

    /// The configuration the backend was made with.
    pub closed spec fn spec_config(&self) -> &RbspyConfig {
        &self.config
    }

    /// The traces aggregated and not yet reported.
    pub closed spec fn spec_buffer(&self) -> &Report {
        &self.buffer
    }

    /// Failures the sampler reported and nobody has taken yet.
    pub closed spec fn spec_sampler_errors(&self) -> Seq<String> {
        self.sampler_errors@
    }

    /// The sampler, once built.
    pub closed spec fn spec_sampler(&self) -> Option<RubySampler> {
        self.sampler
    }

    /// Where the traces of the started sampler arrive.
    pub closed spec fn spec_stack_receiver(&self) -> Option<Receiver<rbspy::StackTrace>> {
        self.stack_receiver
    }

    /// Where the failures of the started sampler arrive.
    pub closed spec fn spec_error_receiver(&self) -> Option<Receiver<SamplerResult>> {
        self.error_receiver
    }

    /// The buffer is well formed; once initialized a sampler built from the
    /// configuration exists; while running both receivers are set.
    pub open spec fn wf(&self) -> bool {
        &&& self.spec_buffer().wf()
        &&& self.spec_state() != State::Uninitialized ==> self.spec_sampler() is Some
        &&& self.spec_sampler() is Some ==> (self.spec_config().pid is Some
            && self.spec_sampler()->0.settings() == settings_of(*self.spec_config()))
        &&& self.spec_state() == State::Running ==> self.spec_stack_receiver() is Some
            && self.spec_error_receiver() is Some
    }

    /// An uninitialized backend for `config`, with nothing aggregated, no
    /// sampler and no channels.
    pub fn new(config: RbspyConfig) -> (r: Self)
        ensures
            r.wf(),
            r.spec_state() == State::Uninitialized,
            *r.spec_config() == config,
            r.spec_buffer().spec_is_empty(),
            r.spec_sampler_errors().len() == 0,
            r.spec_sampler() is None,
            r.spec_stack_receiver() is None,
            r.spec_error_receiver() is None,
    {
        Rbspy {
            state: State::Uninitialized,
            config,
            sampler: None,
            stack_receiver: None,
            error_receiver: None,
            sampler_errors: Vec::new(),
            buffer: Report::new(),
        }
    }

    /// Lifecycle state.
    pub fn get_state(&self) -> (r: State)
        ensures
            r == self.spec_state(),
    {
        self.state
    }

    /// The name of the sampling technique.
    pub fn spy_name(&self) -> (r: Result<String, BackendError>)
        ensures
            r is Ok,
            r->Ok_0@ == seq!['r', 'b', 's', 'p', 'y'],
    {
        proof { reveal_strlit("rbspy"); }
        Ok(String::from_str("rbspy"))
    }

    /// Configured samples per second.
    pub fn sample_rate(&self) -> (r: Result<u32, BackendError>)
        ensures
            r == Ok::<u32, BackendError>(self.spec_config().sample_rate),
    {
        Ok(self.config.sample_rate)
    }

    /// Checks the configuration, builds the sampler (not started) and moves
    /// from uninitialized to ready.
    pub fn initialize(&mut self) -> (r: Result<(), BackendError>)
        requires
            old(self).wf(),
        ensures
            final(self).wf(),
            final(self).spec_config() == old(self).spec_config(),
            final(self).spec_buffer() == old(self).spec_buffer(),
            final(self).spec_sampler_errors() == old(self).spec_sampler_errors(),
            final(self).spec_stack_receiver() == old(self).spec_stack_receiver(),
            final(self).spec_error_receiver() == old(self).spec_error_receiver(),
            old(self).spec_state() != State::Uninitialized ==> r == Err::<(), BackendError>(BackendError::AlreadyInitialized),
            old(self).spec_state() == State::Uninitialized && old(self).spec_config().pid is None
                ==> r == Err::<(), BackendError>(BackendError::MissingTarget),
            r is Ok <==> (old(self).spec_state() == State::Uninitialized && old(self).spec_config().pid is Some),
            final(self).spec_state() == if r is Ok { State::Ready } else { old(self).spec_state() },
            r is Ok ==> (final(self).spec_sampler() is Some
                && final(self).spec_sampler()->0.settings() == settings_of(*old(self).spec_config())),
            r is Err ==> final(self).spec_sampler() == old(self).spec_sampler(),
    {
        if self.state != State::Uninitialized {
            return Err(BackendError::AlreadyInitialized);
        }
        let pid = match self.config.pid {
            Some(pid) => pid,
            None => return Err(BackendError::MissingTarget),
        };
        self.sampler = Some(new_sampler(
            pid,
            self.config.sample_rate,
            self.config.lock_process,
            self.config.time_limit,
            self.config.with_subprocesses,
        ));
        self.state = State::Ready;
        Ok(())
    }

    /// Capacity of the trace queue: room for a hundred threads over ten
    /// seconds at the configured rate.
    pub fn queue_size(&self) -> (r: u64)
        ensures
            r == self.spec_config().sample_rate as nat * 10 * 100,
    {
        self.config.sample_rate as u64 * 10 * 100
    }

    /// Makes the two channels, hands their senders to the sampler and starts
    /// it; running once the sampler accepted. Only from ready.
    pub fn start(&mut self) -> (r: Result<(), BackendError>)
        requires
            old(self).wf(),
            time_limit_ok(*old(self).spec_config()),
        ensures
            final(self).wf(),
            final(self).spec_config() == old(self).spec_config(),
            final(self).spec_buffer() == old(self).spec_buffer(),
            final(self).spec_sampler_errors() == old(self).spec_sampler_errors(),
            final(self).spec_sampler() == old(self).spec_sampler(),
            old(self).spec_state() != State::Ready ==> r == Err::<(), BackendError>(BackendError::NotReady)
                && final(self).spec_stack_receiver() == old(self).spec_stack_receiver()
                && final(self).spec_error_receiver() == old(self).spec_error_receiver(),
            old(self).spec_state() == State::Ready ==> (r is Ok || r matches Err(BackendError::SamplerStartFailed(_))),
            final(self).spec_state() == if r is Ok { State::Running } else { old(self).spec_state() },
    {
        if self.state != State::Ready {
            return Err(BackendError::NotReady);
        }
        let (error_sender, error_receiver) = error_channel();
        let (stack_sender, stack_receiver) = trace_channel(self.queue_size());
        let started = match &self.sampler {
            Some(sampler) => start_sampler(sampler, stack_sender, error_sender),
            None => {
                proof { assert(false); }
                Ok(())
            },
        };
        let outcome = match started {
            Ok(()) => Ok(()),
            Err(e) => Err(error_message(e)),
        };
        self.apply_start_outcome(outcome, stack_receiver, error_receiver)
    }

    /// The step from ready that follows the sampler's start: running, with
    /// the given receivers, when it reported success; else still ready with
    /// its cause. `NotReady` outside the ready state.
    pub fn apply_start_outcome(
        &mut self,
        sampler_started: Result<(), String>,
        stack_receiver: Receiver<rbspy::StackTrace>,
        error_receiver: Receiver<SamplerResult>,
    ) -> (r: Result<(), BackendError>)
        requires
            old(self).wf(),
        ensures
            final(self).wf(),
            final(self).spec_config() == old(self).spec_config(),
            final(self).spec_buffer() == old(self).spec_buffer(),
            final(self).spec_sampler_errors() == old(self).spec_sampler_errors(),
            final(self).spec_sampler() == old(self).spec_sampler(),
            old(self).spec_state() != State::Ready ==> r == Err::<(), BackendError>(BackendError::NotReady),
            old(self).spec_state() == State::Ready ==> match sampler_started {
                Ok(_) => r is Ok,
                Err(cause) => r == Err::<(), BackendError>(BackendError::SamplerStartFailed(cause)),
            },
            final(self).spec_state() == if r is Ok { State::Running } else { old(self).spec_state() },
            r is Ok ==> final(self).spec_stack_receiver() == Some(stack_receiver)
                && final(self).spec_error_receiver() == Some(error_receiver),
            r is Err ==> final(self).spec_stack_receiver() == old(self).spec_stack_receiver()
                && final(self).spec_error_receiver() == old(self).spec_error_receiver(),
    {
        if self.state != State::Ready {
            return Err(BackendError::NotReady);
        }
        match sampler_started {
            Ok(()) => {
                self.stack_receiver = Some(stack_receiver);
                self.error_receiver = Some(error_receiver);
                self.state = State::Running;
                Ok(())
            },
            Err(cause) => Err(BackendError::SamplerStartFailed(cause)),
        }
    }

    /// Tells the sampler to stop and moves from running to ready. Traces
    /// still queued are not read.
    pub fn stop(&mut self) -> (r: Result<(), BackendError>)
        requires
            old(self).wf(),
        ensures
            final(self).wf(),
            final(self).spec_config() == old(self).spec_config(),
            final(self).spec_buffer() == old(self).spec_buffer(),
            final(self).spec_sampler_errors() == old(self).spec_sampler_errors(),
            final(self).spec_sampler() == old(self).spec_sampler(),
            final(self).spec_stack_receiver() == old(self).spec_stack_receiver(),
            final(self).spec_error_receiver() == old(self).spec_error_receiver(),
            old(self).spec_state() != State::Running ==> r == Err::<(), BackendError>(BackendError::NotRunning),
            r is Ok <==> old(self).spec_state() == State::Running,
            final(self).spec_state() == if r is Ok { State::Ready } else { old(self).spec_state() },
    {
        if self.state != State::Running {
            return Err(BackendError::NotRunning);
        }
        match &self.sampler {
            Some(sampler) => stop_sampler(sampler),
            None => {
                proof { assert(false); }
            },
        }
        self.state = State::Ready;
        Ok(())
    }

    /// Keeps the failures the sampler reported, reads the traces it queued,
    /// converts each (see `trace_from_parts`) and reports the window with them
    /// (see `report_traces`). Only while running.
    pub fn report(&mut self) -> (r: Result<Vec<u8>, BackendError>)
        requires
            old(self).wf(),
        ensures
            final(self).wf(),
            final(self).spec_config() == old(self).spec_config(),
            final(self).spec_state() == old(self).spec_state(),
            final(self).spec_sampler() == old(self).spec_sampler(),
            final(self).spec_stack_receiver() == old(self).spec_stack_receiver(),
            final(self).spec_error_receiver() == old(self).spec_error_receiver(),
            old(self).spec_state() != State::Running ==> r == Err::<Vec<u8>, BackendError>(BackendError::NotRunning)
                && final(self).spec_buffer() == old(self).spec_buffer()
                && final(self).spec_sampler_errors() == old(self).spec_sampler_errors(),
            old(self).spec_state() == State::Running ==> {
                &&& r is Ok
                &&& final(self).spec_buffer().spec_is_empty()
                &&& exists|traces: Seq<Trace>| {
                    &&& forall|i: int| 0 <= i < traces.len() ==> #[trigger] is_sampler_trace(traces[i])
                    &&& is_window_report(*old(self).spec_buffer(), traces, r->Ok_0@)
                    &&& (r->Ok_0@.len() == 0 <==> (old(self).spec_buffer().spec_is_empty() && traces.len() == 0))
                }
                &&& exists|results: Seq<SamplerResult>| {
                    &&& final(self).spec_sampler_errors().len() == old(self).spec_sampler_errors().len() + failure_count(results)
                    &&& final(self).spec_sampler_errors().take(old(self).spec_sampler_errors().len() as int)
                        == old(self).spec_sampler_errors()
                }
            },
    {
        if self.state != State::Running {
            return Err(BackendError::NotRunning);
        }
        let results = match &self.error_receiver {
            Some(receiver) => drain_results(receiver),
            None => Vec::new(),
        };
        let raw = match &self.stack_receiver {
            Some(receiver) => drain_traces(receiver),
            None => Vec::new(),
        };
        let mut errors = failure_messages(results);
        let ghost old_errors = self.sampler_errors@;
        self.sampler_errors.append(&mut errors);
        assert(self.sampler_errors@.take(old_errors.len() as int) =~= old_errors);
        let mut raw = raw;
        let mut traces: Vec<Trace> = Vec::new();
        while raw.len() > 0
            invariant
                forall|i: int| 0 <= i < traces@.len() ==> #[trigger] is_sampler_trace(traces@[i]),
            decreases raw@.len(),
        {
            let t = raw.pop().unwrap();
            let c = convert_trace(t);
            let ghost before = traces@;
            traces.push(c);
            assert(forall|i: int| 0 <= i < before.len() ==> traces@[i] == before[i]);
        }
        self.report_traces(traces)
    }

    /// Hands out the failures the sampler reported since the last call.
    pub fn take_sampler_errors(&mut self) -> (r: Vec<String>)
        requires
            old(self).wf(),
        ensures
            final(self).wf(),
            r@ == old(self).spec_sampler_errors(),
            final(self).spec_sampler_errors().len() == 0,
            final(self).spec_state() == old(self).spec_state(),
            final(self).spec_config() == old(self).spec_config(),
            final(self).spec_buffer() == old(self).spec_buffer(),
    {
        let mut taken: Vec<String> = Vec::new();
        std::mem::swap(&mut taken, &mut self.sampler_errors);
        taken
    }

    /// Records `traces`, the traces the sampler delivered since the last
    /// report, encodes everything aggregated in the folded format without
    /// thread names, and starts a new window. Only while running.
    pub fn report_traces(&mut self, traces: Vec<Trace>) -> (r: Result<Vec<u8>, BackendError>)
        requires
            old(self).wf(),
        ensures
            final(self).wf(),
            final(self).spec_config() == old(self).spec_config(),
            final(self).spec_state() == old(self).spec_state(),
            final(self).spec_sampler_errors() == old(self).spec_sampler_errors(),
            final(self).spec_sampler() == old(self).spec_sampler(),
            final(self).spec_stack_receiver() == old(self).spec_stack_receiver(),
            final(self).spec_error_receiver() == old(self).spec_error_receiver(),
            old(self).spec_state() != State::Running ==> r == Err::<Vec<u8>, BackendError>(BackendError::NotRunning)
                && final(self).spec_buffer() == old(self).spec_buffer(),
            old(self).spec_state() == State::Running ==> {
                &&& r is Ok
                &&& final(self).spec_buffer().spec_is_empty()
                &&& is_window_report(*old(self).spec_buffer(), traces@, r->Ok_0@)
                &&& (r->Ok_0@.len() == 0 <==> (old(self).spec_buffer().spec_is_empty() && traces@.len() == 0))
            },
    {
        if self.state != State::Running {
            return Err(BackendError::NotRunning);
        }
        let ghost t0 = traces@;
        let ghost n0 = t0.len();
        let mut rest = traces;
        proof {
            assert(t0.subrange(n0 as int, n0 as int) =~= Seq::<Trace>::empty());
            assert forall|k: KeyView| #[trigger] self.buffer.count(k)
                == add_capped(old(self).spec_buffer().count(k), occurrences(t0.subrange(n0 as int, n0 as int), k)) by {
                self.buffer.lemma_count_bounded_by_max(k);
            }
        }
        while rest.len() > 0
            invariant
                self.buffer.wf(),
                self.state == old(self).state,
                self.config == old(self).config,
                self.sampler == old(self).sampler,
                self.stack_receiver == old(self).stack_receiver,
                self.error_receiver == old(self).error_receiver,
                self.sampler_errors == old(self).sampler_errors,
                n0 == t0.len(),
                rest@.len() <= n0,
                rest@ == t0.take(rest@.len() as int),
                forall|k: KeyView| #[trigger] self.buffer.count(k)
                    == add_capped(old(self).spec_buffer().count(k), occurrences(t0.subrange(rest@.len() as int, n0 as int), k)),
            decreases rest@.len(),
        {
            let ghost m = rest@.len() as int;
            let trace = rest.pop().unwrap();
            proof {
                assert(t0.take(m)[m - 1] == trace);
                assert(rest@ =~= t0.take(m - 1));
            }
            let ghost before = self.buffer;
            self.buffer.record(trace);
            proof {
                let sub = t0.subrange(m - 1, n0 as int);
                assert(sub.drop_first() =~= t0.subrange(m, n0 as int));
                assert(sub[0] == trace);
                assert forall|k: KeyView| #[trigger] self.buffer.count(k)
                    == add_capped(old(self).spec_buffer().count(k), occurrences(sub, k)) by {
                    assert(before.count(k) == add_capped(old(self).spec_buffer().count(k),
                        occurrences(t0.subrange(m, n0 as int), k)));
                }
            }
        }
        assert(t0.subrange(0, n0 as int) =~= t0);
        let text = self.buffer.encode(false);
        let ghost window = self.buffer;
        self.buffer.clear();
        let bytes = string_into_bytes(text);
        proof {
            lemma_utf8_len(text@);
            window.lemma_empty_iff_no_count();
            old(self).spec_buffer().lemma_empty_iff_no_count();
            if t0.len() > 0 {
                let k = key_of(t0[0]);
                assert(occurrences(t0, k) >= 1);
                assert(window.count(k) >= 1);
            }
            if !old(self).spec_buffer().spec_is_empty() {
                let k = choose|k: KeyView| old(self).spec_buffer().count(k) != 0;
                assert(window.count(k) >= 1);
            }
            if old(self).spec_buffer().spec_is_empty() && t0.len() == 0 {
                assert forall|k: KeyView| window.count(k) == 0 by {
                    assert(old(self).spec_buffer().count(k) == 0);
                }
            }
        }
        Ok(bytes)
    }
}

proof fn lemma_occurrences_remove(ts: Seq<Trace>, j: int, k: KeyView)
    requires
        0 <= j < ts.len(),
    ensures
        occurrences(ts.remove(j), k) + (if key_of(ts[j]) == k { 1nat } else { 0nat }) == occurrences(ts, k),
    decreases ts.len(),
{
    if j > 0 {
        assert(ts.remove(j).drop_first() =~= ts.drop_first().remove(j - 1));
        assert(ts.remove(j)[0] == ts[0]);
        lemma_occurrences_remove(ts.drop_first(), j - 1, k);
    } else {
        assert(ts.remove(0) =~= ts.drop_first());
    }
}

proof fn lemma_occurrences_permutation(ts1: Seq<Trace>, ts2: Seq<Trace>, k: KeyView)
    requires
        ts1.to_multiset() == ts2.to_multiset(),
    ensures
        occurrences(ts1, k) == occurrences(ts2, k),
    decreases ts1.len(),
{
    to_multiset_len(ts1);
    to_multiset_len(ts2);
    if ts1.len() > 0 {
        let x = ts1[0];
        assert(ts1.contains(x));
        to_multiset_contains(ts1, x);
        to_multiset_contains(ts2, x);
        let j = choose|j: int| 0 <= j < ts2.len() && ts2[j] == x;
        to_multiset_remove(ts1, 0);
        to_multiset_remove(ts2, j);
        assert(ts1.remove(0) =~= ts1.drop_first());
        lemma_occurrences_permutation(ts1.drop_first(), ts2.remove(j), k);
        lemma_occurrences_remove(ts2, j, k);
    }
}

/// A window's report does not depend on the order in which its traces
/// arrived: the same traces in any order give the same bytes.
pub proof fn law_window_report_order_independent(before: Report, ts1: Seq<Trace>, ts2: Seq<Trace>, b1: Seq<u8>, b2: Seq<u8>)
    requires
        ts1.to_multiset() == ts2.to_multiset(),
        is_window_report(before, ts1, b1),
        is_window_report(before, ts2, b2),
    ensures
        b1 == b2,
{
    let (w1, t1) = choose|w: Report, t: Seq<char>| {
        &&& w.wf()
        &&& forall|k: KeyView| #[trigger] w.count(k) == add_capped(before.count(k), occurrences(ts1, k))
        &&& is_folded(w.key_seq(), w.count_seq(), false, t)
        &&& b1 == utf8_of(t)
        &&& (b1.len() == 0 <==> w.spec_is_empty())
    };
    let (w2, t2) = choose|w: Report, t: Seq<char>| {
        &&& w.wf()
        &&& forall|k: KeyView| #[trigger] w.count(k) == add_capped(before.count(k), occurrences(ts2, k))
        &&& is_folded(w.key_seq(), w.count_seq(), false, t)
        &&& b2 == utf8_of(t)
        &&& (b2.len() == 0 <==> w.spec_is_empty())
    };
    assert forall|k: KeyView| w1.count(k) == w2.count(k) by {
        lemma_occurrences_permutation(ts1, ts2, k);
    }
    law_fold_depends_on_counts_only(w1, w2, false, t1, t2);
}

} // verus!
