use httpress::config::{HttpMethod, RequestSource, StopCondition};
use httpress::time::Duration;
use httpress::{BenchmarkBuilder, Error};

fn config_error(b: BenchmarkBuilder) -> String {
    match b.build() {
        Err(Error::InvalidConfig(m)) => m,
        other => panic!("expected a configuration error, got {:?}", other.map(|_| ())),
    }
}

#[test]
fn builder_defaults() {
    let b = BenchmarkBuilder::new();
    assert_eq!(b.concurrency, 10);
    assert_eq!(b.stop_condition, StopCondition::Infinite);
    assert_eq!(b.timeout, Duration::from_secs(30));
    assert_eq!(b.max_retries, 3);
    assert!(b.url.is_none() && b.method.is_none() && b.body.is_none() && b.rate.is_none());
    assert!(b.headers.is_empty());
    assert!(!b.show_progress && !b.insecure && !b.has_rate_fn && !b.has_request_fn);
}

#[test]
fn build_static_request() {
    let bench = BenchmarkBuilder::new()
        .url("http://localhost:3000/api")
        .method(HttpMethod::Put)
        .header("Content-Type", "application/json")
        .header("X-A", "1")
        .header("Content-Type", "text/plain")
        .body("{\"name\": \"John\"}")
        .concurrency(4)
        .requests(100)
        .rate(250)
        .timeout(Duration::from_millis(1500))
        .max_retries(5)
        .show_progress(true)
        .insecure(true)
        .build()
        .unwrap();
    match &bench.config.request_source {
        RequestSource::Static(req) => {
            assert_eq!(req.url, "http://localhost:3000/api");
            assert_eq!(req.method, HttpMethod::Put);
            assert_eq!(
                req.headers,
                vec![
                    ("Content-Type".to_string(), "text/plain".to_string()),
                    ("X-A".to_string(), "1".to_string())
                ]
            );
            assert_eq!(req.body, Some(bytes::Bytes::from("{\"name\": \"John\"}")));
        }
        RequestSource::Dynamic => panic!("expected a fixed request"),
    }
    assert_eq!(bench.config.concurrency, 4);
    assert_eq!(bench.config.stop_condition, StopCondition::Requests(100));
    assert_eq!(bench.config.rate, Some(250));
    assert_eq!(bench.config.timeout, Duration::from_millis(1500));
    assert_eq!(bench.config.max_retries, 5);
    assert!(bench.config.insecure);
    assert!(bench.show_progress);
}

#[test]
fn build_defaults_to_get() {
    let bench = BenchmarkBuilder::new()
        .url("http://x")
        .duration(Duration::from_secs(10))
        .build()
        .unwrap();
    match &bench.config.request_source {
        RequestSource::Static(req) => {
            assert_eq!(req.method, HttpMethod::Get);
            assert!(req.body.is_none());
        }
        RequestSource::Dynamic => panic!("expected a fixed request"),
    }
    assert_eq!(
        bench.config.stop_condition,
        StopCondition::Duration(Duration::from_secs(10))
    );
}

#[test]
fn build_generated_requests() {
    let bench = BenchmarkBuilder::new()
        .with_request_fn()
        .with_rate_fn()
        .requests(10)
        .build()
        .unwrap();
    assert!(matches!(bench.config.request_source, RequestSource::Dynamic));
}

#[test]
fn build_rejects_conflicts_in_order() {
    assert_eq!(
        config_error(BenchmarkBuilder::new().url("http://x").rate(5).with_rate_fn().with_request_fn()),
        "Cannot use both rate() and rate_fn()"
    );
    assert_eq!(
        config_error(BenchmarkBuilder::new().url("http://x").with_request_fn()),
        "Cannot use both url() and request_fn()"
    );
    assert_eq!(
        config_error(BenchmarkBuilder::new()),
        "Must provide either url() or request_fn()"
    );
    assert_eq!(
        config_error(BenchmarkBuilder::new().with_request_fn().method(HttpMethod::Post).body("b")),
        "Cannot use method() with request_fn()"
    );
    assert_eq!(
        config_error(BenchmarkBuilder::new().with_request_fn().header("A", "1").body("b")),
        "Cannot use header() with request_fn()"
    );
    assert_eq!(
        config_error(BenchmarkBuilder::new().with_request_fn().body("b")),
        "Cannot use body() with request_fn()"
    );
}

#[test]
fn build_accepts_fixed_rate_alone_and_rate_fn_alone() {
    assert!(BenchmarkBuilder::new().url("http://x").rate(5).build().is_ok());
    assert!(BenchmarkBuilder::new().url("http://x").with_rate_fn().build().is_ok());
}
