use bare_http::method::{parse_method, Method};
use bare_http::parser::RawIter;
use bare_http::request::Error;

#[test]
fn parse_methodget_returns_ok() {
    let request = b"GET some stuff";
    let mut request = RawIter::new(request);
    let method = parse_method(&mut request);
    assert_eq!(true, method.is_ok());

    let expected = Method::Get;
    let actual = method.unwrap();
    assert_eq!(expected, actual);

    assert_eq!(b"GET".len(), request.index());
}

#[test]
fn parse_methodhead_returns_ok() {
    let request = b"HEAD some stuff";
    let mut request = RawIter::new(request);
    let method = parse_method(&mut request);
    assert_eq!(true, method.is_ok());

    let expected = Method::Head;
    let actual = method.unwrap();
    assert_eq!(expected, actual);

    assert_eq!(b"HEAD".len(), request.index());
}

#[test]
fn parse_methodpost_returns_ok() {
    let request = b"POST some stuff";
    let mut request = RawIter::new(request);
    let method = parse_method(&mut request);
    assert_eq!(true, method.is_ok());

    let expected = Method::Post;
    let actual = method.unwrap();
    assert_eq!(expected, actual);

    assert_eq!(b"POST".len(), request.index());
}

#[test]
fn parse_methodput_returns_ok() {
    let request = b"PUT some stuff";
    let mut request = RawIter::new(request);
    let method = parse_method(&mut request);
    assert_eq!(true, method.is_ok());

    let expected = Method::Put;
    let actual = method.unwrap();
    assert_eq!(expected, actual);

    assert_eq!(b"PUT".len(), request.index());
}

#[test]
fn parse_methoddelete_returns_ok() {
    let request = b"DELETE some stuff";
    let mut request = RawIter::new(request);
    let method = parse_method(&mut request);
    assert_eq!(true, method.is_ok());

    let expected = Method::Delete;
    let actual = method.unwrap();
    assert_eq!(expected, actual);

    assert_eq!(b"DELETE".len(), request.index());
}

#[test]
fn parse_methodconnect_returns_ok() {
    let request = b"CONNECT some stuff";
    let mut request = RawIter::new(request);
    let method = parse_method(&mut request);
    assert_eq!(true, method.is_ok());

    let expected = Method::Connect;
    let actual = method.unwrap();
    assert_eq!(expected, actual);

    assert_eq!(b"CONNECT".len(), request.index());
}

#[test]
fn parse_methodoptions_returns_ok() {
    let request = b"OPTIONS some stuff";
    let mut request = RawIter::new(request);
    let method = parse_method(&mut request);
    assert_eq!(true, method.is_ok());

    let expected = Method::Options;
    let actual = method.unwrap();
    assert_eq!(expected, actual);

    assert_eq!(b"OPTIONS".len(), request.index());
}

#[test]
fn parse_methodtrace_returns_ok() {
    let request = b"TRACE some stuff";
    let mut request = RawIter::new(request);
    let method = parse_method(&mut request);
    assert_eq!(true, method.is_ok());

    let expected = Method::Trace;
    let actual = method.unwrap();
    assert_eq!(expected, actual);

    assert_eq!(b"TRACE".len(), request.index());
}

#[test]
fn parse_methodpatch_returns_ok() {
    let request = b"PATCH some stuff";
    let mut request = RawIter::new(request);
    let method = parse_method(&mut request);
    assert_eq!(true, method.is_ok());

    let expected = Method::Patch;
    let actual = method.unwrap();
    assert_eq!(expected, actual);

    assert_eq!(b"PATCH".len(), request.index());
}

#[test]
fn parse_methodunable_to_parse_returns_err() {
    let request = b"some stuff";
    let mut request = RawIter::new(request);
    let method = parse_method(&mut request);
    assert_eq!(true, method.is_err());

    let expected = Error::HttpMethodParseFailed;
    let actual = method.unwrap_err();
    assert_eq!(expected, actual);

    assert_eq!(0, request.index());
}

#[test]
fn parse_method_leaves_rest_after_token() {
    let mut request = RawIter::new(b"PATCH /x");
    assert_eq!(Ok(Method::Patch), parse_method(&mut request));
    assert_eq!(b" /x", request.data());
}

#[test]
fn parse_method_needs_token_at_cursor() {
    let mut request = RawIter::new(b" GET /");
    assert_eq!(Err(Error::HttpMethodParseFailed), parse_method(&mut request));
    assert_eq!(b" GET /", request.data());
}

#[test]
fn parse_method_is_case_sensitive() {
    let mut request = RawIter::new(b"get /");
    assert_eq!(Err(Error::HttpMethodParseFailed), parse_method(&mut request));
    assert_eq!(0, request.index());
}

#[test]
fn parse_method_on_empty_input_fails() {
    let mut request = RawIter::new(b"");
    assert_eq!(Err(Error::HttpMethodParseFailed), parse_method(&mut request));
}

#[test]
fn cursor_advance_moves_position() {
    let mut request = RawIter::new(b"abcdef");
    request.advance(2);
    assert_eq!(2, request.index());
    assert_eq!(b"cdef", request.data());
    request.advance(4);
    assert_eq!(6, request.index());
    assert_eq!(b"", request.data());
}
