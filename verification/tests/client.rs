use httpress::client::{target_uri, url_result};
use httpress::config::HttpMethod;
use httpress::Error;

#[test]
fn target_uri_accepts_urls() {
    let uri = target_uri(&"http://localhost:3000/ok?x=1".to_string()).unwrap();
    assert_eq!(uri.host(), Some("localhost"));
    assert_eq!(uri.port_u16(), Some(3000));
    assert_eq!(uri.path(), "/ok");
}

#[test]
fn target_uri_reports_parser_message() {
    let text = "http://exa mple.com".to_string();
    let expected = text.parse::<hyper::Uri>().unwrap_err().to_string();
    assert_eq!(target_uri(&text).unwrap_err(), Error::InvalidUrl(expected));
    assert!(matches!(target_uri(&String::new()), Err(Error::InvalidUrl(_))));
}

#[test]
fn head_responses_are_not_read() {
    assert!(!HttpMethod::Head.reads_body());
    for m in [
        HttpMethod::Get,
        HttpMethod::Post,
        HttpMethod::Put,
        HttpMethod::Delete,
        HttpMethod::Patch,
        HttpMethod::Options,
    ] {
        assert!(m.reads_body());
    }
}

#[test]
fn url_result_maps_parse_outcomes() {
    let uri: hyper::Uri = "http://a/b".parse().unwrap();
    assert_eq!(url_result(Ok(uri.clone())).unwrap(), uri);
    assert_eq!(
        url_result(Err("invalid authority".to_string())).unwrap_err(),
        Error::InvalidUrl("invalid authority".to_string())
    );
}
