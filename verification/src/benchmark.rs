//! The benchmark builder: collecting options and validating them into a
//! configuration.
//!
//! The functions that a caller supplies (request generator, rate function,
//! hooks) are held by the caller; the builder only records whether a
//! request generator or a rate function was given, since that decides which
//! other options may be combined.
use vstd::prelude::*;
use vstd::string::*;

use crate::config::{
    body_bytes, body_from, distinct_names, header_map, insert_header, BenchConfig, HttpMethod,
    RequestConfig, RequestSource, StopCondition,
};
use crate::error::Error;
use crate::time::Duration;

verus! {

/// Request headers in the order their names were first set, each name once.
#[derive(Debug)]
pub struct HeaderList {
    entries: Vec<(String, String)>,
}

impl View for HeaderList {
    type V = Seq<(String, String)>;

    /// The headers, in order.
    closed spec fn view(&self) -> Seq<(String, String)> {
        self.entries@
    }
}

impl HeaderList {
    /// No name occurs twice.
    #[verifier::type_invariant]
    spec fn names_distinct(&self) -> bool {
        distinct_names(self.entries@)
    }

    /// No headers.
    pub fn new() -> (h: HeaderList)
        ensures
            h@.len() == 0,
    {
        HeaderList { entries: Vec::new() }
    }

    /// The list with `key` set to `value`: a header of that name is replaced
    /// in place, otherwise the header is added at the end.
    pub fn set(self, key: String, value: String) -> (h: HeaderList)
        ensures
            header_map(h@) == header_map(self@).insert(key@, value@),
    {
        proof {
            use_type_invariant(&self);
        }
        let mut entries = self.entries;
        insert_header(&mut entries, key, value);
        HeaderList { entries }
    }

    /// How many headers there are.
    pub fn len(&self) -> (n: usize)
        ensures
            n == self@.len(),
    {
        self.entries.len()
    }

    /// Whether there are no headers.
    pub fn is_empty(&self) -> (b: bool)
        ensures
            b == (self@.len() == 0),
    {
        self.entries.len() == 0
    }

    /// The headers as a list of name and value.
    pub fn into_vec(self) -> (v: Vec<(String, String)>)
        ensures
            v@ == self@,
            distinct_names(v@),
    {
        proof {
            use_type_invariant(&self);
        }
        self.entries
    }
}

/// The options of a benchmark being configured.
#[derive(Debug)]
pub struct BenchmarkBuilder {
    pub url: Option<String>,
    pub method: Option<HttpMethod>,
    pub concurrency: usize,
    pub stop_condition: StopCondition,
    pub headers: HeaderList,
    pub body: Option<String>,
    pub timeout: Duration,
    pub rate: Option<u64>,
    pub has_rate_fn: bool,
    pub has_request_fn: bool,
    pub max_retries: usize,
    pub show_progress: bool,
    pub insecure: bool,
}

/// A validated benchmark, ready to run.
#[derive(Debug)]
pub struct Benchmark {
    pub config: BenchConfig,
    pub show_progress: bool,
}

/// Why options cannot be combined, checked in this order: a fixed rate with a
/// rate function; a URL with a request generator; neither of the two; and a
/// method, a header or a body with a request generator.
pub open spec fn build_error(b: BenchmarkBuilder) -> Option<Seq<char>> {
    if b.rate is Some && b.has_rate_fn {
        Some("Cannot use both rate() and rate_fn()"@)
    } else if b.url is Some && b.has_request_fn {
        Some("Cannot use both url() and request_fn()"@)
    } else if b.url is None && !b.has_request_fn {
        Some("Must provide either url() or request_fn()"@)
    } else if b.has_request_fn && b.method is Some {
        Some("Cannot use method() with request_fn()"@)
    } else if b.has_request_fn && b.headers@.len() > 0 {
        Some("Cannot use header() with request_fn()"@)
    } else if b.has_request_fn && b.body is Some {
        Some("Cannot use body() with request_fn()"@)
    } else {
        None
    }
}

fn config_error(message: &str) -> (e: Error)
    ensures
        e matches Error::InvalidConfig(m) && m@ == message@,
{
    Error::InvalidConfig(String::from_str(message))
}

impl BenchmarkBuilder {
    /// Options with their defaults: 10 workers, no stop condition (run until
    /// interrupted), a 30 second timeout and 3 retries.
    pub fn new() -> (b: BenchmarkBuilder)
        ensures
            b.url is None,
            b.method is None,
            b.concurrency == 10,
            b.stop_condition == StopCondition::Infinite,
            b.headers@.len() == 0,
            b.body is None,
            b.timeout@ == 30_000_000_000,
            b.rate is None,
            !b.has_rate_fn,
            !b.has_request_fn,
            b.max_retries == 3,
            !b.show_progress,
            !b.insecure,
    {
        BenchmarkBuilder {
            url: None,
            method: None,
            concurrency: 10,
            stop_condition: StopCondition::Infinite,
            headers: HeaderList::new(),
            body: None,
            timeout: Duration::from_secs(30),
            rate: None,
            has_rate_fn: false,
            has_request_fn: false,
            max_retries: 3,
            show_progress: false,
            insecure: false,
        }
    }

    /// Sets the target URL.
    pub fn url(self, url: &str) -> (b: BenchmarkBuilder)
        ensures
            b.url matches Some(u) && u@ == url@,
            b == (BenchmarkBuilder { url: b.url, ..self }),
    {
        BenchmarkBuilder { url: Some(String::from_str(url)), ..self }
    }

    /// Sets the HTTP method.
    pub fn method(self, method: HttpMethod) -> (b: BenchmarkBuilder)
        ensures
            b == (BenchmarkBuilder { method: Some(method), ..self }),
    {
        BenchmarkBuilder { method: Some(method), ..self }
    }

    /// Sets the number of concurrent workers.
    pub fn concurrency(self, n: usize) -> (b: BenchmarkBuilder)
        ensures
            b == (BenchmarkBuilder { concurrency: n, ..self }),
    {
        BenchmarkBuilder { concurrency: n, ..self }
    }

    /// Stops the benchmark after `d`.
    pub fn duration(self, d: Duration) -> (b: BenchmarkBuilder)
        ensures
            b == (BenchmarkBuilder { stop_condition: StopCondition::Duration(d), ..self }),
    {
        BenchmarkBuilder { stop_condition: StopCondition::Duration(d), ..self }
    }

    /// Stops the benchmark after `n` requests.
    pub fn requests(self, n: usize) -> (b: BenchmarkBuilder)
        ensures
            b == (BenchmarkBuilder { stop_condition: StopCondition::Requests(n), ..self }),
    {
        BenchmarkBuilder { stop_condition: StopCondition::Requests(n), ..self }
    }

    /// Sets a fixed rate in requests per second.
    pub fn rate(self, rps: u64) -> (b: BenchmarkBuilder)
        ensures
            b == (BenchmarkBuilder { rate: Some(rps), ..self }),
    {
        BenchmarkBuilder { rate: Some(rps), ..self }
    }

    /// Records that a rate function was given.
    pub fn with_rate_fn(self) -> (b: BenchmarkBuilder)
        ensures
            b == (BenchmarkBuilder { has_rate_fn: true, ..self }),
    {
        BenchmarkBuilder { has_rate_fn: true, ..self }
    }

    /// Records that a request generator was given.
    pub fn with_request_fn(self) -> (b: BenchmarkBuilder)
        ensures
            b == (BenchmarkBuilder { has_request_fn: true, ..self }),
    {
        BenchmarkBuilder { has_request_fn: true, ..self }
    }

    /// Adds a header; a later header of the same name replaces the earlier one.
    pub fn header(self, key: &str, value: &str) -> (b: BenchmarkBuilder)
        ensures
            header_map(b.headers@) == header_map(self.headers@).insert(key@, value@),
            b == (BenchmarkBuilder { headers: b.headers, ..self }),
    {
        let headers = self.headers.set(String::from_str(key), String::from_str(value));
        BenchmarkBuilder { headers, ..self }
    }

    /// Sets the request body.
    pub fn body(self, body: &str) -> (b: BenchmarkBuilder)
        ensures
            b.body matches Some(t) && t@ == body@,
            b == (BenchmarkBuilder { body: b.body, ..self }),
    {
        BenchmarkBuilder { body: Some(String::from_str(body)), ..self }
    }

    /// Sets the request timeout.
    pub fn timeout(self, d: Duration) -> (b: BenchmarkBuilder)
        ensures
            b == (BenchmarkBuilder { timeout: d, ..self }),
    {
        BenchmarkBuilder { timeout: d, ..self }
    }

    /// Sets how often a request may be retried when a hook asks for it.
    pub fn max_retries(self, n: usize) -> (b: BenchmarkBuilder)
        ensures
            b == (BenchmarkBuilder { max_retries: n, ..self }),
    {
        BenchmarkBuilder { max_retries: n, ..self }
    }

    /// Shows or hides the progress display.
    pub fn show_progress(self, show: bool) -> (b: BenchmarkBuilder)
        ensures
            b == (BenchmarkBuilder { show_progress: show, ..self }),
    {
        BenchmarkBuilder { show_progress: show, ..self }
    }

    /// Skips or enforces TLS certificate verification.
    pub fn insecure(self, insecure: bool) -> (b: BenchmarkBuilder)
        ensures
            b == (BenchmarkBuilder { insecure, ..self }),
    {
        BenchmarkBuilder { insecure, ..self }
    }

    /// Validates the options into a benchmark.
    ///
    /// Fails with [`Error::InvalidConfig`] exactly when [`build_error`] names
    /// a conflict; otherwise exactly one of a URL and a request generator was
    /// given, and never both a fixed rate and a rate function.
    pub fn build(self) -> (r: Result<Benchmark, Error>)
        ensures
            self.url is Some && !self.has_request_fn && !(self.rate is Some && self.has_rate_fn)
                ==> r is Ok,
            match r {
                Err(e) => build_error(self) matches Some(m) && (e matches Error::InvalidConfig(s)
                    && s@ == m),
                Ok(bench) => {
                    &&& build_error(self) is None
                    &&& (self.url is Some) != self.has_request_fn
                    &&& !(self.rate is Some && self.has_rate_fn)
                    &&& match self.url {
                        Some(u) => bench.config.request_source matches RequestSource::Static(req)
                            && req.url == u && req.method == match self.method {
                            Some(m) => m,
                            None => HttpMethod::Get,
                        } && req.headers@ == self.headers@ && distinct_names(req.headers@) && body_from(
                            req.body,
                            self.body,
                        ),
                        None => bench.config.request_source is Dynamic,
                    }
                    &&& bench.config.concurrency == self.concurrency
                    &&& bench.config.stop_condition == self.stop_condition
                    &&& bench.config.timeout == self.timeout
                    &&& bench.config.rate == self.rate
                    &&& bench.config.max_retries == self.max_retries
                    &&& bench.config.insecure == self.insecure
                    &&& bench.show_progress == self.show_progress
                },
            },
    {
        proof {
            reveal_strlit("Cannot use both rate() and rate_fn()");
            reveal_strlit("Cannot use both url() and request_fn()");
            reveal_strlit("Must provide either url() or request_fn()");
            reveal_strlit("Cannot use method() with request_fn()");
            reveal_strlit("Cannot use header() with request_fn()");
            reveal_strlit("Cannot use body() with request_fn()");
        }
        if self.rate.is_some() && self.has_rate_fn {
            return Err(config_error("Cannot use both rate() and rate_fn()"));
        }
        let request_source = match self.url {
            Some(url) => {
                if self.has_request_fn {
                    return Err(config_error("Cannot use both url() and request_fn()"));
                }
                let method = match self.method {
                    Some(m) => m,
                    None => HttpMethod::Get,
                };
                let body = body_bytes(self.body);
                let headers = self.headers.into_vec();
                RequestSource::Static(RequestConfig { url, method, headers, body })
            },
            None => {
                if !self.has_request_fn {
                    return Err(config_error("Must provide either url() or request_fn()"));
                }
                if self.method.is_some() {
                    return Err(config_error("Cannot use method() with request_fn()"));
                }
                if self.headers.len() > 0 {
                    return Err(config_error("Cannot use header() with request_fn()"));
                }
                if self.body.is_some() {
                    return Err(config_error("Cannot use body() with request_fn()"));
                }
                RequestSource::Dynamic
            },
        };
        let config = BenchConfig {
            request_source,
            concurrency: self.concurrency,
            stop_condition: self.stop_condition,
            timeout: self.timeout,
            rate: self.rate,
            max_retries: self.max_retries,
            insecure: self.insecure,
        };
        Ok(Benchmark { config, show_progress: self.show_progress })
    }
}


impl Default for BenchmarkBuilder {
    /// Options with their defaults, as [`BenchmarkBuilder::new`] gives them.
    fn default() -> (b: BenchmarkBuilder)
        ensures
            b.url is None,
            b.method is None,
            b.concurrency == 10,
            b.stop_condition == StopCondition::Infinite,
            b.headers@.len() == 0,
            b.body is None,
            b.timeout@ == 30_000_000_000,
            b.rate is None,
            !b.has_rate_fn,
            !b.has_request_fn,
            b.max_retries == 3,
            !b.show_progress,
            !b.insecure,
    {
        BenchmarkBuilder::new()
    }
}

/// The only conflicts are the six that [`build_error`] lists: a fixed rate
/// with a rate function, a URL with a request generator, neither of the two,
/// and a method, a header or a body with a request generator. So a URL
/// without a request generator always builds, unless both a fixed rate and a
/// rate function were given, whatever the method, headers and body; and a
/// request generator alone, with no rate conflict, builds too.
pub proof fn lemma_build_conflicts(b: BenchmarkBuilder)
    ensures
        build_error(b) is Some <==> (b.rate is Some && b.has_rate_fn) || (b.url is Some
            && b.has_request_fn) || (b.url is None && !b.has_request_fn) || (b.has_request_fn && (
        b.method is Some || b.headers@.len() > 0 || b.body is Some)),
        b.url is Some && !b.has_request_fn && !(b.rate is Some && b.has_rate_fn) ==> build_error(
            b,
        ) is None,
{
}

} // verus!
