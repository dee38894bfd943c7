use bare_http::content_type::ContentType;
use bare_http::status::Status;

#[test]
fn json() {
    let content = ContentType::Json;
    assert_eq!("application/json", content.to_header_value());
}

#[test]
fn html() {
    let content = ContentType::Html;
    assert_eq!("text/html", content.to_header_value());
}

#[test]
#[allow(non_snake_case)]
fn to_status_Ok() {
    let status = Status::OK;
    assert_eq!("200 OK", status.to_status());
}

#[test]
#[allow(non_snake_case)]
fn to_status_NotFound() {
    let status = Status::NotFound;
    assert_eq!("404 NOT FOUND", status.to_status());
}
