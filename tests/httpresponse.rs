use http::headers::Headers;
use http::httpresponse::HttpResponse;

#[test]
fn response_ok_with_default_headers() {
    let r = HttpResponse::new("200", None, Some(String::new()));
    assert_eq!(r.version(), "HTTP/1.1");
    assert_eq!(r.status_code(), "200");
    assert_eq!(r.status_text(), "OK");
    assert_eq!(r.headers(), "Content-Type: text/html\r\n");
    assert_eq!(r.body(), "");
    let wire = r.serialize();
    assert!(wire.contains("Content-Length: 0"));
    assert_eq!(
        wire,
        "HTTP/1.1 200 OK\r\nContent-Type: text/html\r\n\r\nContent-Length: 0\r\n\r\n"
    );
}

#[test]
fn response_status_texts() {
    let body = || Some("x".to_string());
    assert_eq!(HttpResponse::new("400", None, body()).status_text(), "Bad Request");
    assert_eq!(HttpResponse::new("404", None, body()).status_text(), "Not Found");
    assert_eq!(HttpResponse::new("500", None, body()).status_text(), "Internal Server Error");
    assert_eq!(HttpResponse::new("999", None, body()).status_text(), "Not Found");
    assert_eq!(HttpResponse::new("999", None, body()).status_code(), "999");
    assert_eq!(HttpResponse::new("", None, body()).status_text(), "Not Found");
}

#[test]
fn response_with_given_headers_and_body() {
    let mut h = Headers::new();
    h.insert("Content-Type".to_string(), "application/json".to_string());
    h.insert("X-Id".to_string(), "7".to_string());
    let r = HttpResponse::new("404", Some(h), Some("héllo, world".to_string()));
    let wire = r.serialize();
    let head = "HTTP/1.1 404 Not Found\r\n";
    let tail = "\r\nContent-Length: 13\r\n\r\nhéllo, world";
    assert!(wire.starts_with(head));
    assert!(wire.ends_with(tail));
    let lines = &wire[head.len()..wire.len() - tail.len()];
    let a = "Content-Type: application/json\r\nX-Id: 7\r\n";
    let b = "X-Id: 7\r\nContent-Type: application/json\r\n";
    assert!(lines == a || lines == b);
}

#[test]
fn response_with_no_header_fields() {
    let r = HttpResponse::new("500", Some(Headers::new()), Some("ab".to_string()));
    assert_eq!(
        r.serialize(),
        "HTTP/1.1 500 Internal Server Error\r\n\r\nContent-Length: 2\r\n\r\nab"
    );
}

#[test]
fn send_response_appends_wire_text() {
    let r = HttpResponse::new("200", None, Some("hi".to_string()));
    let mut sink = String::from("<");
    r.send_response(&mut sink);
    assert_eq!(
        sink,
        "<HTTP/1.1 200 OK\r\nContent-Type: text/html\r\n\r\nContent-Length: 2\r\n\r\nhi"
    );
}

#[test]
fn headers_insert_replaces_in_place() {
    let mut h = Headers::new();
    h.insert("A".to_string(), "1".to_string());
    h.insert("B".to_string(), "2".to_string());
    h.insert("A".to_string(), "3".to_string());
    assert_eq!(h.len(), 2);
    let (n, v) = h.field(0);
    assert_eq!((n.as_str(), v.as_str()), ("A", "3"));
    let (n, v) = h.field(1);
    assert_eq!((n.as_str(), v.as_str()), ("B", "2"));
    assert_eq!(h.get("A").unwrap(), "3");
    assert!(h.get("C").is_none());
}
