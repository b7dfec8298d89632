use http::httprequest::{HttpRequest, Method, ParseError, Resource, Version};

#[test]
fn test_method_into() {
    let m: Method = "GET".into();
    assert_eq!(m, Method::Get);
}

#[test]
fn test_version_into() {
    let v: Version = "HTTP/1.1".into();
    assert_eq!(v, Version::V1_1);
}

#[test]
fn method_from_known_and_unknown_tokens() {
    assert_eq!(Method::from("POST"), Method::Post);
    assert_eq!(Method::from("get"), Method::Uninitialized);
    assert_eq!(Method::from("DELETE"), Method::Uninitialized);
    assert_eq!(Method::from(""), Method::Uninitialized);
    assert_eq!(Method::from("GETX"), Method::Uninitialized);
}

#[test]
fn version_from_known_and_unknown_tokens() {
    assert_eq!(Version::from("HTTP/2.0"), Version::V2_0);
    assert_eq!(Version::from("HTTP/1.0"), Version::Uninitialized);
    assert_eq!(Version::from("HTTP/3"), Version::Uninitialized);
    assert_eq!(Version::from(""), Version::Uninitialized);
}

#[test]
fn parse_full_request() {
    let raw = "GET /greeting HTTP/1.1\r\nHost:localhost:3000\r\nUser-Agent: curl/7.64.1\r\nAccept: */*\r\n\r\n";
    let req = HttpRequest::parse(raw).unwrap();
    assert_eq!(req.method, Method::Get);
    assert_eq!(req.version, Version::V1_1);
    assert_eq!(req.resource, Resource::Path("/greeting".to_string()));
    assert_eq!(req.headers.len(), 3);
    assert_eq!(req.headers.get("Host").unwrap(), "localhost:3000");
    assert_eq!(req.headers.get("User-Agent").unwrap(), " curl/7.64.1");
    assert_eq!(req.headers.get("Accept").unwrap(), " */*");
    assert!(req.headers.get("Content-Type").is_none());
    assert_eq!(req.msg_body, "");
}

#[test]
fn parse_without_request_line_keeps_defaults() {
    let req = HttpRequest::parse("Host: example\n\nhello").unwrap();
    assert_eq!(req.method, Method::Uninitialized);
    assert_eq!(req.version, Version::V1_1);
    assert_eq!(req.resource, Resource::Path(String::new()));
    assert_eq!(req.headers.get("Host").unwrap(), " example");
    assert_eq!(req.msg_body, "hello");
}

#[test]
fn parse_empty_text() {
    let req = HttpRequest::parse("").unwrap();
    assert_eq!(req.method, Method::Uninitialized);
    assert_eq!(req.headers.len(), 0);
    assert_eq!(req.msg_body, "");
}

#[test]
fn parse_keeps_last_body_line_and_last_header_value() {
    let raw = "POST /api/x HTTP/2.0\nX-A: 1\nX-A: 2\n\nfirst\nsecond\n";
    let req = HttpRequest::parse(raw).unwrap();
    assert_eq!(req.method, Method::Post);
    assert_eq!(req.version, Version::V2_0);
    assert_eq!(req.resource, Resource::Path("/api/x".to_string()));
    assert_eq!(req.headers.len(), 1);
    assert_eq!(req.headers.get("X-A").unwrap(), " 2");
    assert_eq!(req.msg_body, "second");
}

#[test]
fn parse_request_line_with_colon_is_not_a_header() {
    let req = HttpRequest::parse("GET http://h:80/p HTTP/1.1 extra\r\n").unwrap();
    assert_eq!(req.method, Method::Get);
    assert_eq!(req.resource, Resource::Path("http://h:80/p".to_string()));
    assert_eq!(req.version, Version::V1_1);
    assert_eq!(req.headers.len(), 0);
}

#[test]
fn parse_splits_words_at_any_white_space() {
    let req = HttpRequest::parse("  GET\t/a\u{3000}HTTP/1.1  ").unwrap();
    assert_eq!(req.method, Method::Get);
    assert_eq!(req.resource, Resource::Path("/a".to_string()));
    assert_eq!(req.version, Version::V1_1);
}

#[test]
fn parse_header_splits_at_first_colon_only() {
    let req = HttpRequest::parse("A:b:c\r\n:x\r\n").unwrap();
    assert_eq!(req.headers.get("A").unwrap(), "b:c");
    assert_eq!(req.headers.get("").unwrap(), "x");
}

#[test]
fn parse_final_line_without_newline_keeps_carriage_return() {
    let req = HttpRequest::parse("body\r").unwrap();
    assert_eq!(req.msg_body, "body\r");
    let req = HttpRequest::parse("body\r\n").unwrap();
    assert_eq!(req.msg_body, "body");
}

#[test]
fn parse_rejects_short_request_line() {
    assert_eq!(
        HttpRequest::parse("GET HTTP/1.1\r\n\r\n").err(),
        Some(ParseError::MalformedRequestLine)
    );
    assert_eq!(
        HttpRequest::parse("Host: x\nHTTP\n").err(),
        Some(ParseError::MalformedRequestLine)
    );
}
