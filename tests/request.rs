use bare_http::method::Method;
use bare_http::parser::RawIter;
use bare_http::request::{parse, parse_path, Error, MAX_PATH_BYTES, MAX_REQUEST_BYTES};

#[test]
fn parse_get_request_line() {
    let request = parse(b"GET /foo HTTP/1.1\r\nHost: example.com\r\n\r\n").unwrap();
    assert_eq!(Method::Get, request.method());
    assert_eq!("/foo", request.path().to_str());
    assert_eq!(b"/foo", request.path().bytes());
}

#[test]
fn parse_post_request_line() {
    let request = parse(b"POST /api/items?id=3 HTTP/1.1\r\n\r\n").unwrap();
    assert_eq!(Method::Post, request.method());
    assert_eq!("/api/items?id=3", request.path().to_str());
}

#[test]
fn path_is_trimmed() {
    let request = parse(b"GET \t /a b  \r HTTP/1.1").unwrap();
    assert_eq!("/a b", request.path().to_str());
}

#[test]
fn path_keeps_non_ascii_text() {
    let request = parse("GET /caf\u{e9} HTTP/1.1".as_bytes()).unwrap();
    assert_eq!("/caf\u{e9}", request.path().to_str());
    assert_eq!(6, request.path().bytes().len());
}

#[test]
fn path_trims_unicode_white_space() {
    let request = parse("GET \u{3000}/x\u{a0} HTTP/1.1".as_bytes()).unwrap();
    assert_eq!("/x", request.path().to_str());
}

#[test]
fn path_without_marker_is_empty() {
    let request = parse(b"GET /foo HTTP/1.0\r\n").unwrap();
    assert_eq!(Method::Get, request.method());
    assert_eq!("", request.path().to_str());
    assert_eq!(0, request.path().bytes().len());
}

#[test]
fn parse_path_advances_by_raw_span() {
    let mut cursor = RawIter::new(b"GET  /p  HTTP/1.1 rest");
    cursor.advance(3);
    let path = parse_path(&mut cursor).unwrap();
    assert_eq!("/p", path.to_str());
    assert_eq!(9, cursor.index());
    assert_eq!(b"HTTP/1.1 rest", cursor.data());
}

#[test]
fn parse_path_uses_first_marker() {
    let mut cursor = RawIter::new(b"/a HTTP/1.1 /b HTTP/1.1");
    let path = parse_path(&mut cursor).unwrap();
    assert_eq!("/a", path.to_str());
    assert_eq!(3, cursor.index());
}

#[test]
fn path_of_largest_size_is_accepted() {
    let mut raw = b"GET ".to_vec();
    raw.extend(std::iter::repeat(b'a').take(MAX_PATH_BYTES - 5));
    raw.extend(b" HTTP/1.1");
    let request = parse(&raw).unwrap();
    assert_eq!(MAX_PATH_BYTES - 5, request.path().bytes().len());
}

#[test]
fn path_too_long_is_refused() {
    let mut raw = b"GET ".to_vec();
    raw.extend(std::iter::repeat(b'a').take(MAX_PATH_BYTES - 1));
    raw.extend(b"HTTP/1.1");
    assert_eq!(
        Err(Error::PathSizeExceeded { max_bytes: MAX_PATH_BYTES, bytes: MAX_PATH_BYTES + 1 }),
        parse(&raw)
    );
}

#[test]
fn path_size_error_leaves_cursor() {
    let mut raw = Vec::new();
    raw.extend(std::iter::repeat(b'/').take(300));
    raw.extend(b"HTTP/1.1");
    let mut cursor = RawIter::new(&raw);
    assert_eq!(
        Err(Error::PathSizeExceeded { max_bytes: 256, bytes: 301 }),
        parse_path(&mut cursor)
    );
    assert_eq!(0, cursor.index());
}

#[test]
fn path_with_invalid_utf8_is_refused() {
    assert_eq!(Err(Error::PathParseError), parse(b"GET /\xff\xfe HTTP/1.1"));
}

#[test]
fn oversize_request_is_refused() {
    let raw = vec![b'x'; MAX_REQUEST_BYTES + 1];
    assert_eq!(
        Err(Error::RequestSizeExceeded { max_bytes: 8192, bytes: 8193 }),
        parse(&raw)
    );
}

#[test]
fn request_of_largest_size_is_parsed() {
    let mut raw = b"PUT /x HTTP/1.1".to_vec();
    raw.resize(MAX_REQUEST_BYTES, b' ');
    let request = parse(&raw).unwrap();
    assert_eq!(Method::Put, request.method());
    assert_eq!("/x", request.path().to_str());
}

#[test]
fn unknown_method_is_refused() {
    assert_eq!(Err(Error::HttpMethodParseFailed), parse(b"FETCH / HTTP/1.1"));
}
