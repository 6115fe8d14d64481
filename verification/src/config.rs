//! Configuration types, the contexts handed to hooks and generators, and the
//! parsing of command-line durations and headers.
use bytes::Bytes;
use vstd::prelude::*;

use crate::body::{bytes_contents, bytes_from_string};
use crate::error::Error;
use crate::text::{
    chars_of, decimal, drop_end, ends_with, ends_with_chars, find_char, first_index,
    lemma_decimal_digits, lemma_parse_decimal, lemma_trim_unchanged, parse_u64, parse_u64_spec,
    string_of, trim, trim_bounds,
};
use crate::time::Duration;

verus! {

/// When a benchmark stops.
#[derive(Debug, Clone, Copy, PartialEq, Eq)]
pub enum StopCondition {
    /// After this many requests.
    Requests(usize),
    /// After this much time.
    Duration(Duration),
    /// When interrupted.
    Infinite,
}

/// The HTTP method of a request.
#[derive(Debug, Clone, Copy, PartialEq, Eq, Structural)]
pub enum HttpMethod {
    Get,
    Post,
    Put,
    Delete,
    Patch,
    Head,
    Options,
}

/// How results are written out.
#[derive(Debug, Clone, Copy, PartialEq, Eq, Structural)]
pub enum OutputFormat {
    /// Human-readable text.
    Text,
    /// A JSON document.
    Json,
}

/// One HTTP request: target, method, headers (each name at most once) and body.
#[derive(Debug)]
pub struct RequestConfig {
    pub url: String,
    pub method: HttpMethod,
    pub headers: Vec<(String, String)>,
    pub body: Option<Bytes>,
}

/// Which worker asks for a request, and how many it has asked for before.
#[derive(Debug, Clone, Copy, PartialEq, Eq, Structural)]
pub struct RequestContext {
    pub worker_id: usize,
    pub request_number: usize,
}

/// The benchmark's state just before a request is sent.
#[derive(Debug, Clone, Copy, PartialEq, Eq)]
pub struct BeforeRequestContext {
    /// The worker sending the request (0-based).
    pub worker_id: usize,
    /// How many requests this worker sent before (0-based).
    pub request_number: usize,
    /// Time since the benchmark started.
    pub elapsed: Duration,
    /// Requests completed so far (successes and failures).
    pub total_requests: usize,
    /// Requests that ended with a 2xx status so far.
    pub successful_requests: usize,
    /// Requests that ended otherwise so far.
    pub failed_requests: usize,
}

/// The benchmark's state just after a request completed or failed.
#[derive(Debug, Clone, Copy, PartialEq, Eq)]
pub struct AfterRequestContext {
    /// The worker that sent the request (0-based).
    pub worker_id: usize,
    /// How many requests this worker sent before (0-based).
    pub request_number: usize,
    /// Time since the benchmark started.
    pub elapsed: Duration,
    /// Requests completed so far (successes and failures).
    pub total_requests: usize,
    /// Requests that ended with a 2xx status so far.
    pub successful_requests: usize,
    /// Requests that ended otherwise so far.
    pub failed_requests: usize,
    /// How long this request took.
    pub latency: Duration,
    /// The response status, if a response came back.
    pub status: Option<u16>,
}

/// What a hook asks the executor to do with the current request.
#[derive(Debug, Clone, Copy, PartialEq, Eq, Structural)]
pub enum HookAction {
    /// Go on as usual.
    Continue,
    /// Give up on this request; it counts as failed.
    Abort,
    /// Try this request again, up to the retry limit.
    Retry,
}

/// Where requests come from: one fixed request, or a generator function
/// that the caller holds and calls with a [`RequestContext`].
#[derive(Debug)]
pub enum RequestSource {
    Static(RequestConfig),
    Dynamic,
}

/// A validated benchmark configuration.
#[derive(Debug)]
pub struct BenchConfig {
    pub request_source: RequestSource,
    pub concurrency: usize,
    pub stop_condition: StopCondition,
    pub timeout: Duration,
    pub rate: Option<u64>,
    pub max_retries: usize,
    pub insecure: bool,
}

/// The command-line options that configure a benchmark.
#[derive(Debug, Clone)]
pub struct Args {
    pub url: String,
    pub method: HttpMethod,
    pub concurrency: usize,
    pub requests: Option<usize>,
    pub duration: Option<String>,
    pub headers: Vec<String>,
    pub body: Option<String>,
    pub timeout: u64,
    pub rate: Option<u64>,
    pub insecure: bool,
}

// ---------------------------------------------------------------------------
// Headers
// ---------------------------------------------------------------------------

/// The header map that a list of (name, value) pairs stands for; a later pair wins.
pub open spec fn header_map(h: Seq<(String, String)>) -> Map<Seq<char>, Seq<char>>
    decreases h.len(),
{
    if h.len() == 0 {
        Map::empty()
    } else {
        header_map(h.drop_last()).insert(h.last().0@, h.last().1@)
    }
}

/// No header name occurs twice.
pub open spec fn distinct_names(h: Seq<(String, String)>) -> bool {
    forall|i: int, j: int| 0 <= i < j < h.len() ==> h[i].0@ != h[j].0@
}

proof fn lemma_header_map_names(h: Seq<(String, String)>, k: Seq<char>)
    requires
        forall|i: int| 0 <= i < h.len() ==> h[i].0@ != k,
    ensures
        !header_map(h).contains_key(k),
    decreases h.len(),
{
    if h.len() > 0 {
        lemma_header_map_names(h.drop_last(), k);
    }
}

proof fn lemma_header_map_update(h: Seq<(String, String)>, i: int, k: String, v: String)
    requires
        distinct_names(h),
        0 <= i < h.len(),
        h[i].0@ == k@,
    ensures
        header_map(h.update(i, (k, v))) == header_map(h).insert(k@, v@),
    decreases h.len(),
{
    let u = h.update(i, (k, v));
    if i == h.len() - 1 {
        assert(u.drop_last() =~= h.drop_last());
        assert(header_map(u) =~= header_map(h).insert(k@, v@));
    } else {
        assert(u.drop_last() =~= h.drop_last().update(i, (k, v)));
        lemma_header_map_update(h.drop_last(), i, k, v);
        assert(h.last().0@ != k@);
        assert(header_map(u) =~= header_map(h).insert(k@, v@));
    }
}

/// Sets header `key` to `value`, replacing an earlier value of the same name.
pub fn insert_header(headers: &mut Vec<(String, String)>, key: String, value: String)
    requires
        distinct_names(old(headers)@),
    ensures
        distinct_names(final(headers)@),
        header_map(final(headers)@) == header_map(old(headers)@).insert(key@, value@),
{
    let n = headers.len();
    let mut i: usize = 0;
    while i < n
        invariant
            n == headers.len(),
            i <= n,
            headers@ == old(headers)@,
            distinct_names(old(headers)@),
            forall|j: int| 0 <= j < i ==> headers@[j].0@ != key@,
        decreases n - i,
    {
        if headers[i].0 == key {
            proof {
                lemma_header_map_update(headers@, i as int, key, value);
            }
            let ghost before = headers@;
            headers.set(i, (key, value));
            proof {
                assert(headers@ == before.update(i as int, (key, value)));
                assert forall|a: int, b: int| 0 <= a < b < headers@.len() implies headers@[a].0@
                    != headers@[b].0@ by {
                    assert(before[a].0@ != before[b].0@);
                }
            }
            return;
        }
        i = i + 1;
    }
    let ghost before = headers@;
    headers.push((key, value));
    proof {
        assert(headers@.drop_last() =~= before);
    }
}

/// Header text has a colon separating name from value.
pub open spec fn header_ok(h: Seq<char>) -> bool {
    first_index(h, ':') is Some
}

/// The header name: the trimmed text before the first colon.
pub open spec fn header_name(h: Seq<char>) -> Seq<char> {
    trim(h.subrange(0, first_index(h, ':').unwrap() as int))
}

/// The header value: the trimmed text after the first colon.
pub open spec fn header_value(h: Seq<char>) -> Seq<char> {
    trim(h.subrange(first_index(h, ':').unwrap() + 1int, h.len() as int))
}

/// The header map that header lines `"Key: Value"` stand for.
pub open spec fn parsed_headers(hs: Seq<String>) -> Map<Seq<char>, Seq<char>>
    decreases hs.len(),
{
    if hs.len() == 0 {
        Map::empty()
    } else {
        parsed_headers(hs.drop_last()).insert(header_name(hs.last()@), header_value(hs.last()@))
    }
}

/// All header lines have a colon.
pub open spec fn all_headers_ok(hs: Seq<String>) -> bool {
    forall|i: int| 0 <= i < hs.len() ==> header_ok(#[trigger] hs[i]@)
}

/// `k` is the first header line without a colon.
pub open spec fn first_bad_header(hs: Seq<String>, k: int) -> bool {
    &&& 0 <= k < hs.len()
    &&& !header_ok(hs[k]@)
    &&& forall|i: int| 0 <= i < k ==> header_ok(#[trigger] hs[i]@)
}

proof fn lemma_first_index_bound(s: Seq<char>, c: char)
    ensures
        first_index(s, c) matches Some(k) ==> k < s.len() && s[k as int] == c,
    decreases s.len(),
{
    if s.len() > 0 {
        lemma_first_index_bound(s.drop_first(), c);
    }
}

/// Parses header lines `"Key: Value"` into (name, value) pairs.
///
/// Each line is split at its first colon and both sides are trimmed; a later
/// line with the same name replaces an earlier one. The first line without a
/// colon is the error.
pub fn parse_headers(headers: &Vec<String>) -> (r: Result<Vec<(String, String)>, Error>)
    ensures
        match r {
            Ok(v) => all_headers_ok(headers@) && distinct_names(v@) && header_map(v@)
                == parsed_headers(headers@),
            Err(e) => exists|k: int|
                first_bad_header(headers@, k) && e == Error::InvalidHeader(#[trigger] headers@[k]),
        },
{
    let mut map: Vec<(String, String)> = Vec::new();
    let n = headers.len();
    let mut i: usize = 0;
    while i < n
        invariant
            n == headers.len(),
            i <= n,
            forall|j: int| 0 <= j < i ==> header_ok(#[trigger] headers@[j]@),
            distinct_names(map@),
            header_map(map@) == parsed_headers(headers@.subrange(0, i as int)),
        decreases n - i,
    {
        let h = &headers[i];
        let cs = chars_of(h.as_str());
        let len = cs.len();
        match find_char(&cs, 0, len, ':') {
            None => {
                proof {
                    assert(cs@.subrange(0, len as int) =~= headers@[i as int]@);
                    assert(first_bad_header(headers@, i as int));
                }
                return Err(Error::InvalidHeader(h.clone()));
            },
            Some(k) => {
                proof {
                    assert(cs@.subrange(0, len as int) =~= headers@[i as int]@);
                    lemma_first_index_bound(cs@, ':');
                }
                let (ka, kb) = trim_bounds(&cs, 0, k);
                let (va, vb) = trim_bounds(&cs, k + 1, len);
                let key = string_of(&cs, ka, kb);
                let value = string_of(&cs, va, vb);
                insert_header(&mut map, key, value);
                proof {
                    let hs = headers@.subrange(0, i + 1);
                    assert(hs.drop_last() =~= headers@.subrange(0, i as int));
                    assert(hs.last() == headers@[i as int]);
                }
            },
        }
        i = i + 1;
    }
    assert(headers@.subrange(0, n as int) =~= headers@);
    Ok(map)
}

// ---------------------------------------------------------------------------
// Durations
// ---------------------------------------------------------------------------

/// The span, in nanoseconds, that duration text stands for: a number of
/// milliseconds (`500ms`), seconds (`10s`), minutes (`1m`) or plain seconds
/// (`30`), after trimming white space; `None` where the text is none of these.
pub open spec fn duration_nanos(s: Seq<char>) -> Option<nat> {
    let t = trim(s);
    if ends_with(t, "ms"@) {
        match parse_u64_spec(drop_end(t, 2)) {
            Some(ms) => Some(ms as nat * 1_000_000),
            None => None,
        }
    } else if ends_with(t, "s"@) {
        match parse_u64_spec(drop_end(t, 1)) {
            Some(secs) => Some(secs as nat * 1_000_000_000),
            None => None,
        }
    } else if ends_with(t, "m"@) {
        match parse_u64_spec(drop_end(t, 1)) {
            Some(mins) => Some(mins as nat * 60 * 1_000_000_000),
            None => None,
        }
    } else {
        match parse_u64_spec(t) {
            Some(secs) => Some(secs as nat * 1_000_000_000),
            None => None,
        }
    }
}

/// Duration text in minutes whose count of seconds overflows a `u64`.
pub open spec fn minutes_overflow(s: Seq<char>) -> bool {
    let t = trim(s);
    &&& !ends_with(t, "ms"@)
    &&& !ends_with(t, "s"@)
    &&& ends_with(t, "m"@)
    &&& parse_u64_spec(drop_end(t, 1)) matches Some(mins)
    &&& mins * 60 > u64::MAX
}

/// Whether the minute count in `s` is too large to convert to seconds.
pub fn duration_minutes_overflow(s: &str) -> (b: bool)
    ensures
        b == minutes_overflow(s@),
{
    let cs = chars_of(s);
    let len = cs.len();
    let (a, b) = trim_bounds(&cs, 0, len);
    proof {
        assert(cs@.subrange(0, len as int) =~= s@);
    }
    if ends_with_chars(&cs, a, b, "ms") || ends_with_chars(&cs, a, b, "s") || !ends_with_chars(
        &cs,
        a,
        b,
        "m",
    ) {
        return false;
    }
    proof {
        reveal_strlit("m");
        assert(cs@.subrange(a as int, b - 1) =~= drop_end(cs@.subrange(a as int, b as int), 1));
    }
    match parse_u64(&cs, a, b - 1) {
        Some(mins) => mins > u64::MAX / 60,
        None => false,
    }
}

/// Parses duration text such as `10s`, `1m`, `500ms`, or a plain number of seconds.
pub fn parse_duration(s: &str) -> (r: Result<Duration, Error>)
    requires
        !minutes_overflow(s@),
    ensures
        match r {
            Ok(d) => duration_nanos(s@) == Some(d@),
            Err(e) => duration_nanos(s@) is None && (e matches Error::InvalidDuration(m) && m@
                == trim(s@)),
        },
{
    let cs = chars_of(s);
    let len = cs.len();
    let (a, b) = trim_bounds(&cs, 0, len);
    let ghost t = cs@.subrange(a as int, b as int);
    proof {
        assert(cs@.subrange(0, len as int) =~= s@);
        reveal_strlit("ms");
        reveal_strlit("s");
        reveal_strlit("m");
    }
    if ends_with_chars(&cs, a, b, "ms") {
        proof {
            assert(cs@.subrange(a as int, b - 2) =~= drop_end(t, 2));
        }
        return match parse_u64(&cs, a, b - 2) {
            Some(ms) => Ok(Duration::from_millis(ms)),
            None => Err(Error::InvalidDuration(string_of(&cs, a, b))),
        };
    }
    if ends_with_chars(&cs, a, b, "s") {
        proof {
            assert(cs@.subrange(a as int, b - 1) =~= drop_end(t, 1));
        }
        return match parse_u64(&cs, a, b - 1) {
            Some(secs) => Ok(Duration::from_secs(secs)),
            None => Err(Error::InvalidDuration(string_of(&cs, a, b))),
        };
    }
    if ends_with_chars(&cs, a, b, "m") {
        proof {
            assert(cs@.subrange(a as int, b - 1) =~= drop_end(t, 1));
        }
        return match parse_u64(&cs, a, b - 1) {
            Some(mins) => Ok(Duration::from_secs(mins * 60)),
            None => Err(Error::InvalidDuration(string_of(&cs, a, b))),
        };
    }
    match parse_u64(&cs, a, b) {
        Some(secs) => Ok(Duration::from_secs(secs)),
        None => Err(Error::InvalidDuration(string_of(&cs, a, b))),
    }
}

// ---------------------------------------------------------------------------
// Configuration from command-line options
// ---------------------------------------------------------------------------

/// `sc` is the stop condition that the options ask for: a request count,
/// the span that the duration text stands for, or no limit.
pub open spec fn stop_condition_from(
    sc: StopCondition,
    requests: Option<usize>,
    duration: Option<String>,
) -> bool {
    match (requests, duration) {
        (Some(n), None) => sc == StopCondition::Requests(n),
        (None, Some(d)) => (sc matches StopCondition::Duration(span) && duration_nanos(d@) == Some(
            span@,
        )),
        _ => sc == StopCondition::Infinite,
    }
}

/// The request body built from optional text: its UTF-8 bytes.
pub open spec fn body_from(body: Option<Bytes>, text: Option<String>) -> bool {
    match text {
        Some(t) => (body matches Some(b) && bytes_contents(b) == vstd::utf8::encode_utf8(t@)),
        None => body is None,
    }
}

/// Turns optional body text into a buffer of its UTF-8 bytes.
pub fn body_bytes(text: Option<String>) -> (body: Option<Bytes>)
    ensures
        body_from(body, text),
{
    match text {
        Some(t) => Some(bytes_from_string(t)),
        None => None,
    }
}

impl BenchConfig {
    /// Builds the configuration that command-line options describe.
    ///
    /// The duration text is parsed first, then the headers; the first that
    /// fails is the error. Retries default to 3.
    pub fn from_args(args: Args) -> (r: Result<BenchConfig, Error>)
        requires
            !(args.requests is Some && args.duration is Some),
            args.duration matches Some(d) ==> !minutes_overflow(d@),
        ensures
            match r {
                Ok(cfg) => {
                    &&& args.duration matches Some(d) ==> duration_nanos(d@) is Some
                    &&& all_headers_ok(args.headers@)
                    &&& stop_condition_from(cfg.stop_condition, args.requests, args.duration)
                    &&& cfg.request_source matches RequestSource::Static(req) && req.url
                        == args.url && req.method == args.method && distinct_names(req.headers@)
                        && header_map(req.headers@) == parsed_headers(args.headers@) && body_from(
                        req.body,
                        args.body,
                    )
                    &&& cfg.concurrency == args.concurrency
                    &&& cfg.timeout@ == args.timeout * 1_000_000_000
                    &&& cfg.rate == args.rate
                    &&& cfg.max_retries == 3
                    &&& cfg.insecure == args.insecure
                },
                Err(e) => match args.duration {
                    Some(d) if duration_nanos(d@) is None => (e matches Error::InvalidDuration(m)
                        && m@ == trim(d@)),
                    _ => exists|k: int|
                        first_bad_header(args.headers@, k) && e == Error::InvalidHeader(
                            #[trigger] args.headers@[k],
                        ),
                },
            },
    {
        let stop_condition = match (args.requests, &args.duration) {
            (Some(n), None) => StopCondition::Requests(n),
            (None, Some(d)) => match parse_duration(d.as_str()) {
                Ok(span) => StopCondition::Duration(span),
                Err(e) => {
                    return Err(e);
                },
            },
            _ => StopCondition::Infinite,
        };
        let headers = match parse_headers(&args.headers) {
            Ok(h) => h,
            Err(e) => {
                return Err(e);
            },
        };
        let request_config = RequestConfig {
            url: args.url,
            method: args.method,
            headers,
            body: body_bytes(args.body),
        };
        Ok(BenchConfig {
            request_source: RequestSource::Static(request_config),
            concurrency: args.concurrency,
            stop_condition,
            timeout: Duration::from_secs(args.timeout),
            rate: args.rate,
            max_retries: 3,
            insecure: args.insecure,
        })
    }
}


/// A count written in decimal, followed by `ms`, `s`, `m` or by nothing,
/// parses back to that many milliseconds, seconds, minutes or seconds.
pub proof fn lemma_duration_round_trip(n: u64)
    ensures
        duration_nanos(decimal(n as nat) + "ms"@) == Some(n as nat * 1_000_000),
        duration_nanos(decimal(n as nat) + "s"@) == Some(n as nat * 1_000_000_000),
        n * 60 <= u64::MAX ==> duration_nanos(decimal(n as nat) + "m"@) == Some(
            n as nat * 60 * 1_000_000_000,
        ),
        duration_nanos(decimal(n as nat)) == Some(n as nat * 1_000_000_000),
{
    reveal_strlit("ms");
    reveal_strlit("s");
    reveal_strlit("m");
    let d = decimal(n as nat);
    lemma_decimal_digits(n as nat);
    lemma_parse_decimal(n);
    let ms = d + "ms"@;
    let s = d + "s"@;
    let m = d + "m"@;
    lemma_trim_unchanged(ms);
    lemma_trim_unchanged(s);
    lemma_trim_unchanged(m);
    lemma_trim_unchanged(d);
    assert(ms.subrange(ms.len() - 2, ms.len() as int) =~= "ms"@);
    assert(drop_end(ms, 2) =~= d);
    assert(s.subrange(s.len() - 2, s.len() as int)[0] == d.last());
    assert(!ends_with(s, "ms"@));
    assert(s.subrange(s.len() - 1, s.len() as int) =~= "s"@);
    assert(drop_end(s, 1) =~= d);
    assert(m.subrange(m.len() - 2, m.len() as int)[1] == 'm');
    assert(!ends_with(m, "ms"@));
    assert(m.subrange(m.len() - 1, m.len() as int)[0] == 'm');
    assert(!ends_with(m, "s"@));
    assert(m.subrange(m.len() - 1, m.len() as int) =~= "m"@);
    assert(drop_end(m, 1) =~= d);
    if d.len() >= 2 {
        assert(d.subrange(d.len() - 2, d.len() as int)[1] == d.last());
    }
    assert(!ends_with(d, "ms"@));
    assert(d.subrange(d.len() - 1, d.len() as int)[0] == d.last());
    assert(!ends_with(d, "s"@));
    assert(!ends_with(d, "m"@));
}

} // verus!
