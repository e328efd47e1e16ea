//! What an export of one window sends to the collector.
use vstd::prelude::*;
use vstd::string::StringExecFns;

use crate::text::{decimal, decimal_string, push_signed_decimal, signed_decimal};

verus! {

/// Width of the window that `from` and `until` describe, in seconds.
pub const WINDOW_SECONDS: u64 = 10;

/// Start of the window that `start` falls in: `start` rounded down to the
/// window width.
pub open spec fn window_from(start: nat) -> nat {
    (start - start % (WINDOW_SECONDS as nat)) as nat
}

/// The request to send for one window: a POST to `url` with the `query`
/// parameters, content type `binary/octet-stream`, and `body`.
#[derive(Debug)]
pub struct IngestRequest {
    pub url: String,
    pub query: Vec<(String, String)>,
    pub body: Vec<u8>,
}

/// The query parameters as character sequences.
pub open spec fn query_view(q: Seq<(String, String)>) -> Seq<(Seq<char>, Seq<char>)> {
    q.map_values(|p: (String, String)| (p.0@, p.1@))
}

/// The `from` and `until` of the window that `start` falls in.
pub fn ingest_window(start: u64) -> (r: (u64, u64))
    requires
        window_from(start as nat) + WINDOW_SECONDS <= u64::MAX,
    ensures
        r.0 == window_from(start as nat),
        r.1 == window_from(start as nat) + WINDOW_SECONDS,
{
    let from = start - start % WINDOW_SECONDS;
    (from, from + WINDOW_SECONDS)
}

fn param(key: &str, value: String) -> (r: (String, String))
    ensures
        r.0@ == key@,
        r.1@ == value@,
{
    (String::from_str(key), value)
}

/// The request that exports `buffer`, a folded report of the window that
/// `start` (seconds since the epoch) falls in, under `application_name` to
/// the collector at `url`; `None` when there is nothing to send.
pub fn ingest_request(start: u64, sample_rate: i32, buffer: Vec<u8>, url: String, application_name: String) -> (r: Option<IngestRequest>)
    requires
        buffer@.len() > 0 ==> window_from(start as nat) + WINDOW_SECONDS <= u64::MAX,
    ensures
        r is None <==> buffer@.len() == 0,
        r matches Some(req) ==> {
            &&& req.url@ == url@ + "/ingest"@
            &&& req.body@ == buffer@
            &&& query_view(req.query@) == seq![
                ("name"@, application_name@),
                ("from"@, decimal(window_from(start as nat))),
                ("until"@, decimal(window_from(start as nat) + WINDOW_SECONDS as nat)),
                ("format"@, "folded"@),
                ("sampleRate"@, signed_decimal(sample_rate as int)),
                ("spyName"@, "pprof-rs"@),
            ]
        },
{
    if buffer.len() == 0 {
        return None;
    }
    let (from, until) = ingest_window(start);
    let mut full_url = url;
    full_url.append("/ingest");
    let mut rate = String::new();
    push_signed_decimal(&mut rate, sample_rate);
    let mut query: Vec<(String, String)> = Vec::new();
    query.push(param("name", application_name));
    query.push(param("from", decimal_string(from)));
    query.push(param("until", decimal_string(until)));
    query.push(param("format", String::from_str("folded")));
    query.push(param("sampleRate", rate));
    query.push(param("spyName", String::from_str("pprof-rs")));
    assert(query_view(query@) =~= seq![
        ("name"@, application_name@),
        ("from"@, decimal(window_from(start as nat))),
        ("until"@, decimal(window_from(start as nat) + WINDOW_SECONDS as nat)),
        ("format"@, "folded"@),
        ("sampleRate"@, signed_decimal(sample_rate as int)),
        ("spyName"@, "pprof-rs"@),
    ]);
    Some(IngestRequest { url: full_url, query, body: buffer })
}

} // verus!
