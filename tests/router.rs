use http::httprequest::HttpRequest;
use http::httpresponse::HttpResponse;
use http::router::{Handler, Router};

fn req(raw: &str) -> HttpRequest {
    HttpRequest::parse(raw).unwrap()
}

#[test]
fn route_non_get_to_not_found() {
    assert_eq!(Router::route(&req("POST /api/x HTTP/1.1\r\n\r\n")), Handler::PageNotFound);
    assert_eq!(Router::route(&req("PUT /about HTTP/1.1\r\n\r\n")), Handler::PageNotFound);
    assert_eq!(Router::route(&req("")), Handler::PageNotFound);
}

#[test]
fn route_get_by_first_segment() {
    assert_eq!(Router::route(&req("GET /api/users HTTP/1.1\r\n\r\n")), Handler::WebService);
    assert_eq!(Router::route(&req("GET /about HTTP/1.1\r\n\r\n")), Handler::StaticPage);
    assert_eq!(Router::route(&req("GET /api HTTP/1.1\r\n\r\n")), Handler::WebService);
    assert_eq!(Router::route(&req("GET /apix/y HTTP/1.1\r\n\r\n")), Handler::StaticPage);
    assert_eq!(Router::route(&req("GET / HTTP/1.1\r\n\r\n")), Handler::StaticPage);
    assert_eq!(Router::route(&req("GET api/x HTTP/1.1\r\n\r\n")), Handler::StaticPage);
    assert_eq!(Router::route(&req("GET x/api HTTP/1.1\r\n\r\n")), Handler::WebService);
    assert_eq!(Router::route(&req("GET index HTTP/1.1\r\n\r\n")), Handler::StaticPage);
}

#[test]
fn route_twice_gives_same_wire_text() {
    let r = req("GET /api/users HTTP/1.1\r\nHost: h\r\n\r\n");
    let handle = |h: Handler| match h {
        Handler::WebService => HttpResponse::new("200", None, Some("[]".to_string())),
        Handler::StaticPage => HttpResponse::new("200", None, Some("<p/>".to_string())),
        Handler::PageNotFound => HttpResponse::new("404", None, Some(String::new())),
    };
    let first = handle(Router::route(&r)).serialize();
    let second = handle(Router::route(&r)).serialize();
    assert_eq!(first, second);
    assert!(first.starts_with("HTTP/1.1 200 OK\r\n"));
}
