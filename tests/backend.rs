use pyroscope_rbspy::backend::{Rbspy, RbspyConfig, State};
use pyroscope_rbspy::error::BackendError;
use pyroscope_rbspy::model::{Frame, Trace};

fn stack() -> std::sync::mpsc::Receiver<rbspy::StackTrace> {
    std::sync::mpsc::sync_channel(1).1
}

fn errors() -> std::sync::mpsc::Receiver<Result<(), anyhow::Error>> {
    std::sync::mpsc::channel().1
}

fn leaf(name: &str) -> Trace {
    Trace {
        pid: None,
        thread_id: None,
        thread_name: None,
        frames: vec![Frame { module: None, name: Some(name.to_string()), filename: None, relative_path: None, absolute_path: None, line: None }],
    }
}

#[test]
fn config_defaults_and_builders() {
    let c = RbspyConfig::new(42);
    assert_eq!(c.pid, Some(42));
    assert_eq!(c.sample_rate, 100);
    assert!(!c.lock_process);
    assert_eq!(c.time_limit, None);
    assert!(!c.with_subprocesses);
    let c = c
        .sample_rate(250)
        .lock_process(true)
        .time_limit(Some(5))
        .with_subprocesses(true);
    assert_eq!(c.pid, Some(42));
    assert_eq!(c.sample_rate, 250);
    assert!(c.lock_process);
    assert_eq!(c.time_limit, Some(5));
    assert!(c.with_subprocesses);
    let d = RbspyConfig::default();
    assert_eq!(d.pid, None);
    assert_eq!(d.sample_rate, 100);
}

#[test]
fn start_before_initialize_is_not_ready() {
    let mut b = Rbspy::new(RbspyConfig::new(1));
    assert_eq!(b.get_state(), State::Uninitialized);
    assert_eq!(b.start(), Err(BackendError::NotReady));
    assert_eq!(b.apply_start_outcome(Ok(()), stack(), errors()), Err(BackendError::NotReady));
    assert_eq!(b.get_state(), State::Uninitialized);
}

#[test]
fn initialize_twice_is_already_initialized() {
    let mut b = Rbspy::new(RbspyConfig::new(1));
    assert_eq!(b.initialize(), Ok(()));
    assert_eq!(b.get_state(), State::Ready);
    assert_eq!(b.initialize(), Err(BackendError::AlreadyInitialized));
    assert_eq!(b.get_state(), State::Ready);
}

#[test]
fn initialize_without_pid_is_missing_target() {
    let mut b = Rbspy::new(RbspyConfig::default());
    assert_eq!(b.initialize(), Err(BackendError::MissingTarget));
    assert_eq!(b.get_state(), State::Uninitialized);
}

#[test]
fn report_after_stop_is_not_running() {
    let mut b = Rbspy::new(RbspyConfig::new(1).sample_rate(10));
    assert_eq!(b.report(), Err(BackendError::NotRunning));
    b.initialize().unwrap();
    assert_eq!(b.queue_size(), 10_000);
    assert_eq!(b.apply_start_outcome(Ok(()), stack(), errors()), Ok(()));
    assert_eq!(b.get_state(), State::Running);
    assert_eq!(b.stop(), Ok(()));
    assert_eq!(b.get_state(), State::Ready);
    assert_eq!(b.report(), Err(BackendError::NotRunning));
    assert_eq!(b.report_traces(vec![leaf("a")]), Err(BackendError::NotRunning));
    assert_eq!(b.stop(), Err(BackendError::NotRunning));
    assert_eq!(b.apply_start_outcome(Ok(()), stack(), errors()), Ok(()));
    assert_eq!(b.report_traces(vec![]), Ok(vec![]));
}

#[test]
fn failed_sampler_start_stays_ready() {
    let mut b = Rbspy::new(RbspyConfig::new(1));
    b.initialize().unwrap();
    assert_eq!(
        b.apply_start_outcome(Err("no such process".to_string()), stack(), errors()),
        Err(BackendError::SamplerStartFailed("no such process".to_string()))
    );
    assert_eq!(b.get_state(), State::Ready);
    assert_eq!(b.apply_start_outcome(Ok(()), stack(), errors()), Ok(()));
}

#[test]
fn report_encodes_and_starts_a_new_window() {
    let mut b = Rbspy::new(RbspyConfig::new(1));
    b.initialize().unwrap();
    b.apply_start_outcome(Ok(()), stack(), errors()).unwrap();
    let bytes = b.report_traces(vec![leaf("a"), leaf("b"), leaf("a")]).unwrap();
    assert_eq!(bytes, b"a 2\nb 1\n".to_vec());
    assert_eq!(b.report_traces(vec![]).unwrap(), Vec::<u8>::new());
    assert_eq!(b.report().unwrap(), Vec::<u8>::new());
    assert!(b.take_sampler_errors().is_empty());
}

#[test]
fn names_and_rate() {
    let b = Rbspy::new(RbspyConfig::new(1).sample_rate(33));
    assert_eq!(b.spy_name().unwrap(), "rbspy");
    assert_eq!(b.sample_rate().unwrap(), 33);
    assert_eq!(b.queue_size(), 33_000);
}

#[test]
fn sampler_traces_convert_in_order() {
    let frame = |name: &str, line: Option<usize>| rbspy::StackFrame {
        name: name.to_string(),
        relative_path: format!("lib/{}.rb", name),
        absolute_path: Some(format!("/srv/lib/{}.rb", name)),
        lineno: line,
    };
    let raw = rbspy::StackTrace {
        trace: vec![frame("leaf", Some(3)), frame("root", None)],
        pid: Some(77),
        thread_id: Some(5),
        time: None,
        on_cpu: None,
    };
    let t = pyroscope_rbspy::backend::convert_trace(raw);
    assert_eq!(t.frames[0].relative_path.as_deref(), Some("lib/leaf.rb"));
    assert_eq!(t.pid, Some(77));
    assert_eq!(t.thread_id, Some(5));
    assert_eq!(t.thread_name, None);
    assert_eq!(t.frames.len(), 2);
    assert_eq!(t.frames[0].name.as_deref(), Some("leaf"));
    assert_eq!(t.frames[0].filename.as_deref(), Some("lib/leaf.rb"));
    assert_eq!(t.frames[0].absolute_path.as_deref(), Some("/srv/lib/leaf.rb"));
    assert_eq!(t.frames[0].line, Some(3));
    assert_eq!(t.frames[1].name.as_deref(), Some("root"));
    assert_eq!(t.frames[1].line, None);
}

#[test]
fn start_and_stop_with_a_real_sampler() {
    let mut b = Rbspy::new(RbspyConfig::new(i32::MAX));
    b.initialize().unwrap();
    assert_eq!(b.start(), Ok(()));
    assert_eq!(b.get_state(), State::Running);
    assert_eq!(b.start(), Err(BackendError::NotReady));
    assert!(b.report().is_ok());
    assert_eq!(b.stop(), Ok(()));
    assert_eq!(b.get_state(), State::Ready);
}

#[test]
fn trace_from_parts_keeps_order_and_casts_ids() {
    let parts = vec![
        ("a".to_string(), "x.rb".to_string(), None, Some(1)),
        ("b".to_string(), "y.rb".to_string(), Some("/y.rb".to_string()), None),
    ];
    let t = pyroscope_rbspy::model::trace_from_parts(Some(-1), Some(9), parts);
    assert_eq!(t.pid, Some(u32::MAX));
    assert_eq!(t.thread_id, Some(9));
    assert_eq!(t.thread_name, None);
    assert_eq!(t.frames[0].name.as_deref(), Some("a"));
    assert_eq!(t.frames[0].line, Some(1));
    assert_eq!(t.frames[1].name.as_deref(), Some("b"));
    assert_eq!(t.frames[1].absolute_path.as_deref(), Some("/y.rb"));
}

#[test]
fn report_reads_queued_traces_from_the_channel() {
    let mut b = Rbspy::new(RbspyConfig::new(1));
    b.initialize().unwrap();
    let (trace_tx, trace_rx) = std::sync::mpsc::sync_channel(4);
    let (error_tx, error_rx) = std::sync::mpsc::channel();
    b.apply_start_outcome(Ok(()), trace_rx, error_rx).unwrap();
    let raw = |name: &str| rbspy::StackTrace {
        trace: vec![rbspy::StackFrame { name: name.to_string(), relative_path: "r.rb".to_string(), absolute_path: None, lineno: Some(2) }],
        pid: Some(1),
        thread_id: Some(1),
        time: None,
        on_cpu: None,
    };
    trace_tx.send(raw("m")).unwrap();
    trace_tx.send(raw("m")).unwrap();
    trace_tx.send(raw("n")).unwrap();
    error_tx.send(Ok(())).unwrap();
    error_tx.send(Err(anyhow::Error::msg("lost the process"))).unwrap();
    assert_eq!(b.report().unwrap(), b"m 2\nn 1\n".to_vec());
    assert_eq!(b.take_sampler_errors(), vec!["lost the process".to_string()]);
    assert_eq!(b.report().unwrap(), Vec::<u8>::new());
}
