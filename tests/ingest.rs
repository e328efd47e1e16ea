use pyroscope_rbspy::ingest::{ingest_request, ingest_window};
use pyroscope_rbspy::text::decimal_string;

#[test]
fn window_is_aligned_to_ten_seconds() {
    assert_eq!(ingest_window(1005), (1000, 1010));
    assert_eq!(ingest_window(1000), (1000, 1010));
    assert_eq!(ingest_window(9), (0, 10));
}

#[test]
fn empty_body_sends_nothing() {
    assert!(ingest_request(1005, 100, vec![], "http://h".to_string(), "app".to_string()).is_none());
}

#[test]
fn request_carries_the_protocol_parameters() {
    let req = ingest_request(1005, 100, b"a 1\n".to_vec(), "http://h:4040".to_string(), "app{env=x}".to_string()).unwrap();
    assert_eq!(req.url, "http://h:4040/ingest");
    assert_eq!(req.body, b"a 1\n".to_vec());
    let q: Vec<(&str, &str)> = req.query.iter().map(|(k, v)| (k.as_str(), v.as_str())).collect();
    assert_eq!(
        q,
        vec![
            ("name", "app{env=x}"),
            ("from", "1000"),
            ("until", "1010"),
            ("format", "folded"),
            ("sampleRate", "100"),
            ("spyName", "pprof-rs"),
        ]
    );
}

#[test]
fn negative_rate_is_written_with_sign() {
    let req = ingest_request(0, -5, vec![1], "u".to_string(), "n".to_string()).unwrap();
    assert_eq!(req.query[4].1, "-5");
    let req = ingest_request(0, i32::MIN, vec![1], "u".to_string(), "n".to_string()).unwrap();
    assert_eq!(req.query[4].1, "-2147483648");
}

#[test]
fn decimal_rendering() {
    assert_eq!(decimal_string(0), "0");
    assert_eq!(decimal_string(907), "907");
    assert_eq!(decimal_string(u64::MAX), "18446744073709551615");
}

#[test]
fn empty_body_sends_nothing_even_at_the_end_of_time() {
    assert!(ingest_request(u64::MAX, 100, vec![], "u".to_string(), "n".to_string()).is_none());
}
