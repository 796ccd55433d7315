use game::web::request::{request_length_ok, Request, MAX_LEN};

#[test]
fn max_len() {
    assert_eq!(MAX_LEN, 2048);
}

#[test]
fn parse_get_request() {
    let data = b"GET /users HTTP/1.1\r\nHost: localhost\r\nCookie: token=bob\r\n\r\n";
    let r = Request::parse(data).unwrap();
    assert_eq!(r.method, b"GET");
    assert_eq!(r.path, b"/users");
    assert_eq!(r.version, b"HTTP/1.1");
    assert_eq!(r.headers.len(), 2);
    assert_eq!(r.header(b"Host"), Some(b"localhost".as_slice()));
    assert_eq!(r.header(b"Cookie"), Some(b"token=bob".as_slice()));
    assert_eq!(r.header(b"Accept"), None);
    assert_eq!(r.body, b"");
}

#[test]
fn parse_post_request_body() {
    let data = b"POST /login HTTP/1.1\r\nContent-Length: 5\r\n\r\nhello";
    let r = Request::parse(data).unwrap();
    assert_eq!(r.method, b"POST");
    assert_eq!(r.path, b"/login");
    assert_eq!(r.body, b"hello");
}

#[test]
fn parse_refuses_repeated_header() {
    let data = b"GET / HTTP/1.1\r\nA: 1\r\nA: 2\r\n\r\n";
    assert!(Request::parse(data).is_none());
}

#[test]
fn parse_refuses_line_without_colon() {
    let data = b"GET / HTTP/1.1\r\nbroken\r\n\r\n";
    assert!(Request::parse(data).is_none());
}

#[test]
fn parse_refuses_missing_parts() {
    assert!(Request::parse(b"GET").is_none());
    assert!(Request::parse(b"GET /").is_none());
    assert!(Request::parse(b"GET / HTTP/1.1").is_none());
    assert!(Request::parse(b"GET / HTTP/1.1\r\nHost: x\r\n").is_none());
    // the header block needs at least one line
    assert!(Request::parse(b"GET / HTTP/1.1\r\n\r\n").is_none());
}

#[test]
fn request_lengths() {
    assert!(!request_length_ok(0));
    assert!(request_length_ok(1));
    assert!(request_length_ok(2047));
    assert!(!request_length_ok(2048));
}
