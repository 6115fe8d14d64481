use httpress::config::{
    duration_minutes_overflow, parse_duration, parse_headers, Args, BenchConfig, HttpMethod,
    RequestSource, StopCondition,
};
use httpress::time::Duration;
use httpress::Error;

fn strings(v: &[&str]) -> Vec<String> {
    v.iter().map(|s| s.to_string()).collect()
}

#[test]
fn parse_duration_units() {
    assert_eq!(parse_duration("10s"), Ok(Duration::from_secs(10)));
    assert_eq!(parse_duration("1m"), Ok(Duration::from_secs(60)));
    assert_eq!(parse_duration("500ms"), Ok(Duration::from_millis(500)));
    assert_eq!(parse_duration("  5s\t"), Ok(Duration::from_secs(5)));
    assert_eq!(parse_duration("+3s"), Ok(Duration::from_secs(3)));
    assert_eq!(parse_duration("007ms"), Ok(Duration::from_millis(7)));
    assert_eq!(parse_duration("0s"), Ok(Duration::from_secs(0)));
    assert_eq!(parse_duration("30"), Ok(Duration::from_secs(30)));
    assert_eq!(parse_duration(" 0 "), Ok(Duration::from_secs(0)));
}

#[test]
fn parse_duration_rejections() {
    for bad in ["", "abc", "10x", "5 s", "-3s", "s", "ms", "m", "+", "1.5s", "18446744073709551616s"] {
        let trimmed = bad.trim().to_string();
        assert_eq!(parse_duration(bad), Err(Error::InvalidDuration(trimmed)), "input {:?}", bad);
    }
    assert_eq!(
        parse_duration("  abc  "),
        Err(Error::InvalidDuration("abc".to_string()))
    );
}

#[test]
fn parse_duration_largest_values() {
    assert_eq!(
        parse_duration("18446744073709551615s"),
        Ok(Duration::from_secs(u64::MAX))
    );
    assert_eq!(
        parse_duration("307445734561825860m"),
        Ok(Duration::from_secs(307445734561825860 * 60))
    );
    assert!(!duration_minutes_overflow("307445734561825860m"));
    assert!(duration_minutes_overflow("307445734561825861m"));
    assert!(!duration_minutes_overflow("307445734561825861s"));
}

#[test]
fn parse_duration_round_trips_decimal_text() {
    for n in [0u64, 1, 9, 10, 99, 12345, u64::MAX] {
        assert_eq!(parse_duration(&format!("{}ms", n)), Ok(Duration::from_millis(n)));
        assert_eq!(parse_duration(&format!("{}s", n)), Ok(Duration::from_secs(n)));
        assert_eq!(parse_duration(&format!("{}", n)), Ok(Duration::from_secs(n)));
    }
}

#[test]
fn parse_headers_splits_at_first_colon_and_trims() {
    let h = parse_headers(&strings(&[
        "Content-Type: application/json",
        "  Authorization :Bearer a:b:c  ",
        "X-Empty:",
    ]))
    .unwrap();
    assert_eq!(
        h,
        vec![
            ("Content-Type".to_string(), "application/json".to_string()),
            ("Authorization".to_string(), "Bearer a:b:c".to_string()),
            ("X-Empty".to_string(), "".to_string()),
        ]
    );
}

#[test]
fn parse_headers_later_value_wins() {
    let h = parse_headers(&strings(&["A: 1", "B: 2", "A: 3"])).unwrap();
    assert_eq!(
        h,
        vec![
            ("A".to_string(), "3".to_string()),
            ("B".to_string(), "2".to_string())
        ]
    );
}

#[test]
fn parse_headers_reports_first_line_without_colon() {
    assert_eq!(
        parse_headers(&strings(&["A: 1", "no colon here", "also bad"])),
        Err(Error::InvalidHeader("no colon here".to_string()))
    );
    assert_eq!(parse_headers(&Vec::new()), Ok(Vec::new()));
}

fn args() -> Args {
    Args {
        url: "http://localhost:3000".to_string(),
        method: HttpMethod::Post,
        concurrency: 7,
        requests: None,
        duration: None,
        headers: strings(&["Content-Type: text/plain"]),
        body: Some("hello".to_string()),
        timeout: 12,
        rate: Some(50),
        insecure: true,
    }
}

#[test]
fn from_args_builds_static_request() {
    let cfg = BenchConfig::from_args(args()).unwrap();
    match &cfg.request_source {
        RequestSource::Static(req) => {
            assert_eq!(req.url, "http://localhost:3000");
            assert_eq!(req.method, HttpMethod::Post);
            assert_eq!(
                req.headers,
                vec![("Content-Type".to_string(), "text/plain".to_string())]
            );
            assert_eq!(req.body, Some(bytes::Bytes::from("hello")));
        }
        RequestSource::Dynamic => panic!("expected a fixed request"),
    }
    assert_eq!(cfg.concurrency, 7);
    assert_eq!(cfg.stop_condition, StopCondition::Infinite);
    assert_eq!(cfg.timeout, Duration::from_secs(12));
    assert_eq!(cfg.rate, Some(50));
    assert_eq!(cfg.max_retries, 3);
    assert!(cfg.insecure);
}

#[test]
fn from_args_stop_conditions() {
    let mut a = args();
    a.requests = Some(100);
    assert_eq!(
        BenchConfig::from_args(a).unwrap().stop_condition,
        StopCondition::Requests(100)
    );
    let mut a = args();
    a.duration = Some("2m".to_string());
    assert_eq!(
        BenchConfig::from_args(a).unwrap().stop_condition,
        StopCondition::Duration(Duration::from_secs(120))
    );
}

#[test]
fn from_args_errors_duration_before_headers() {
    let mut a = args();
    a.duration = Some(" soon ".to_string());
    a.headers = strings(&["broken"]);
    assert_eq!(
        BenchConfig::from_args(a).unwrap_err(),
        Error::InvalidDuration("soon".to_string())
    );
    let mut a = args();
    a.headers = strings(&["broken"]);
    assert_eq!(
        BenchConfig::from_args(a).unwrap_err(),
        Error::InvalidHeader("broken".to_string())
    );
}

#[test]
fn from_args_without_body() {
    let mut a = args();
    a.body = None;
    match BenchConfig::from_args(a).unwrap().request_source {
        RequestSource::Static(req) => assert!(req.body.is_none()),
        RequestSource::Dynamic => panic!("expected a fixed request"),
    }
}

#[test]
fn error_messages() {
    assert_eq!(
        Error::InvalidDuration("x".to_string()).message(),
        "Invalid duration: 'x'. Use format like 10s, 1m, 500ms"
    );
    assert_eq!(
        Error::InvalidHeader("h".to_string()).message(),
        "Invalid header: 'h'. Use format 'Key: Value'"
    );
    assert_eq!(Error::InvalidUrl("u".to_string()).message(), "Invalid URL: u");
    assert_eq!(Error::MissingUrl.message(), "URL is required");
    assert_eq!(
        Error::InvalidConfig("c".to_string()).message(),
        "Invalid configuration: c"
    );
    assert_eq!(Error::Http("boom".to_string()).message(), "HTTP error: boom");
    assert_eq!(Error::Timeout.message(), "Request timeout");
    assert_eq!(Error::Io("disk".to_string()).message(), "IO error: disk");
}
