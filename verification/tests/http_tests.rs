use passiveradar::http::{config_response, mime_type, ok_header, route_request, HttpRoute};

fn file(buf: &[u8]) -> Option<String> {
    match route_request(buf) {
        HttpRoute::File(f) => Some(f),
        _ => None,
    }
}

#[test]
fn root_serves_index() {
    assert_eq!(file(b"GET / HTTP/1.1\r\nHost: x\r\n\r\n"), Some("index.html".to_string()));
    // A read buffer padded with zero bytes, as the server reads it.
    let mut buf = [0u8; 1024];
    buf[..14].copy_from_slice(b"GET / HTTP/1.1");
    assert_eq!(file(&buf), Some("index.html".to_string()));
}

#[test]
fn paths_lose_query_and_leading_slashes() {
    assert_eq!(file(b"GET //app.js?v=2 HTTP/1.1"), Some("app.js".to_string()));
    assert_eq!(file(b"GET /a?b?c HTTP/1.1"), Some("a".to_string()));
    assert_eq!(file(b"GET /?q HTTP/1.1"), Some(String::new()));
    assert_eq!(file(b"GET img/x.png"), Some("img/x.png".to_string()));
    assert_eq!(file(b"GET /\xff HTTP/1.1"), Some("\u{FFFD}".to_string()));
}

#[test]
fn config_requests() {
    assert!(matches!(route_request(b"GET /config HTTP/1.1"), HttpRoute::Config));
    assert!(matches!(route_request(b"GET /config.json?x=1 HTTP/1.1"), HttpRoute::Config));
    assert!(matches!(route_request(b"GET ///config"), HttpRoute::Config));
    assert_eq!(file(b"GET /configs HTTP/1.1"), Some("configs".to_string()));
}

#[test]
fn other_requests_are_ignored() {
    assert!(matches!(route_request(b"POST / HTTP/1.1"), HttpRoute::Ignore));
    assert!(matches!(route_request(b"GET"), HttpRoute::Ignore));
    assert!(matches!(route_request(b"get / HTTP/1.1"), HttpRoute::Ignore));
    assert!(matches!(route_request(b""), HttpRoute::Ignore));
    assert!(matches!(route_request(&[0u8; 1024]), HttpRoute::Ignore));
}

#[test]
fn response_texts() {
    let body = "{\"ws_host\": \"localhost\", \"ws_port\": 8081}";
    let expected = format!(
        "HTTP/1.1 200 OK\r\nContent-Type: application/json\r\nContent-Length: {}\r\nConnection: close\r\n\r\n{}",
        body.len(),
        body
    );
    assert_eq!(config_response("localhost", 8081), expected);
    // The length counts bytes, not characters.
    let r = config_response("é", 0);
    assert!(r.contains("Content-Length: 31\r\n"));
    assert_eq!(
        ok_header("image/png", 1234),
        "HTTP/1.1 200 OK\r\nContent-Type: image/png\r\nContent-Length: 1234\r\nConnection: close\r\n\r\n"
    );
}

#[test]
fn content_types() {
    assert_eq!(mime_type(Some("html")), "text/html");
    assert_eq!(mime_type(Some("css")), "text/css");
    assert_eq!(mime_type(Some("js")), "application/javascript");
    assert_eq!(mime_type(Some("png")), "image/png");
    assert_eq!(mime_type(Some("jpg")), "image/jpeg");
    assert_eq!(mime_type(Some("jpeg")), "image/jpeg");
    assert_eq!(mime_type(Some("JPG")), "application/octet-stream");
    assert_eq!(mime_type(Some("")), "application/octet-stream");
    assert_eq!(mime_type(None), "application/octet-stream");
}
