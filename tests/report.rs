use pyroscope_rbspy::model::{frame_from_sampler, trace_from_sampler, Frame, Trace};
use pyroscope_rbspy::report::{fold, Report};

fn named(name: &str) -> Frame {
    Frame {
        module: None,
        name: Some(name.to_string()),
        filename: None,
        relative_path: None,
        absolute_path: None,
        line: None,
    }
}

fn trace(thread_id: Option<u64>, thread_name: Option<&str>, names: &[&str]) -> Trace {
    Trace {
        pid: Some(1),
        thread_id,
        thread_name: thread_name.map(|s| s.to_string()),
        frames: names.iter().map(|n| named(n)).collect(),
    }
}

#[test]
fn folds_root_to_leaf_with_count() {
    let mut report = Report::new();
    for _ in 0..7 {
        report.record(trace(None, None, &["f0", "f1", "f2"]));
    }
    assert_eq!(report.encode(false), "f2;f1;f0 7\n");
    assert_eq!(fold(&report, false), "f2;f1;f0 7\n");
}

#[test]
fn counts_interleaved_records_per_key() {
    let mut report = Report::new();
    for i in 0..10 {
        report.record(trace(None, None, &["a"]));
        if i % 2 == 0 {
            report.record(trace(None, None, &["b"]));
        }
    }
    assert_eq!(report.encode(false), "a 10\nb 5\n");
}

#[test]
fn clear_then_encode_is_empty() {
    let mut report = Report::new();
    assert!(report.is_empty());
    report.record(trace(Some(3), None, &["x"]));
    assert!(!report.is_empty());
    report.clear();
    assert!(report.is_empty());
    assert_eq!(report.encode(false), "");
    assert_eq!(report.encode(true), "");
}

#[test]
fn empty_frame_sequence_still_gives_a_line() {
    let mut report = Report::new();
    report.record(trace(Some(9), None, &[]));
    assert_eq!(report.encode(false), " 1\n");
    assert_eq!(report.encode(true), "9; 1\n");
}

#[test]
fn thread_column_prefers_non_empty_name() {
    let mut report = Report::new();
    report.record(trace(Some(12), Some("worker"), &["main", "run"]));
    report.record(trace(Some(34), Some(""), &["main"]));
    report.record(trace(None, None, &["idle"]));
    assert_eq!(report.encode(true), "34;main 1\n;idle 1\nworker;run;main 1\n");
}

#[test]
fn threads_are_separate_keys() {
    let mut report = Report::new();
    report.record(trace(Some(1), None, &["m"]));
    report.record(trace(Some(2), None, &["m"]));
    report.record(trace(Some(1), None, &["m"]));
    assert_eq!(report.encode(false), "m 1\nm 2\n");
    assert_eq!(report.encode(true), "1;m 2\n2;m 1\n");
}

#[test]
fn frame_label_falls_back_to_file_then_question_mark() {
    let mut report = Report::new();
    let frames = vec![
        Frame { module: None, name: None, filename: Some("lib.rb".to_string()), relative_path: None, absolute_path: None, line: Some(3) },
        Frame { module: None, name: None, filename: None, relative_path: None, absolute_path: None, line: None },
    ];
    report.record(Trace { pid: None, thread_id: None, thread_name: None, frames });
    assert_eq!(report.encode(false), "?;lib.rb 1\n");
}

#[test]
fn merge_adds_matching_keys_and_keeps_others() {
    let mut a = Report::new();
    a.record(trace(None, None, &["x"]));
    a.record(trace(None, None, &["y"]));
    let mut b = Report::new();
    b.record(trace(None, None, &["y"]));
    b.record(trace(None, None, &["y"]));
    b.record(trace(None, None, &["z"]));
    a.merge(b);
    assert_eq!(a.encode(false), "x 1\ny 3\nz 1\n");
}

#[test]
fn sampler_frames_convert_field_by_field() {
    let f = frame_from_sampler("block in run".to_string(), "app/a.rb".to_string(), None, Some(42));
    assert_eq!(f.module, None);
    assert_eq!(f.name.as_deref(), Some("block in run"));
    assert_eq!(f.filename.as_deref(), Some("app/a.rb"));
    assert_eq!(f.relative_path.as_deref(), Some("app/a.rb"));
    assert_eq!(f.absolute_path, None);
    assert_eq!(f.line, Some(42));
    let t = trace_from_sampler(Some(7), Some(8), vec![f]);
    assert_eq!(t.pid, Some(7));
    assert_eq!(t.thread_id, Some(8));
    assert_eq!(t.thread_name, None);
    assert_eq!(t.frames.len(), 1);
}

#[test]
fn producers_and_reports_lose_no_count() {
    // Producers interleaved with reports: every recorded trace shows up in
    // exactly one encoded window or in the live report.
    let mut report = Report::new();
    let mut total: u64 = 0;
    let producers = 4;
    for round in 0..1000 {
        for p in 0..producers {
            let name = format!("p{}", p);
            report.record(trace(None, None, &[name.as_str()]));
        }
        if round % 250 == 249 {
            total += sum_counts(&report.encode(false));
            report.clear();
        }
    }
    total += sum_counts(&report.encode(false));
    assert_eq!(total, producers * 1000);
}

fn sum_counts(text: &str) -> u64 {
    text.lines().map(|l| l.rsplit(' ').next().unwrap().parse::<u64>().unwrap()).sum()
}

#[test]
fn record_times_adds_many_at_once() {
    let mut report = Report::new();
    report.record_times(trace(None, None, &["w"]), 40);
    report.record(trace(None, None, &["w"]));
    assert_eq!(report.encode(false), "w 41\n");
}

#[test]
fn counts_stop_at_the_largest_value() {
    let mut report = Report::new();
    report.record_times(trace(None, None, &["s"]), u64::MAX - 1);
    report.record(trace(None, None, &["s"]));
    report.record(trace(None, None, &["s"]));
    assert_eq!(report.encode(false), format!("s {}\n", u64::MAX));
}
