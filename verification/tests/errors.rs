//! Error construction.

use rsoap::error::{decimal_string, http_status_message};
use rsoap::SoapError;

#[test]
fn http_error_from_status() {
    match SoapError::http(reqwest::StatusCode::INTERNAL_SERVER_ERROR) {
        SoapError::Http(m) => assert_eq!(m, "HTTP 500: Internal Server Error"),
        other => panic!("unexpected error: {other:?}"),
    }
    match SoapError::http(reqwest::StatusCode::NOT_FOUND) {
        SoapError::Http(m) => assert_eq!(m, "HTTP 404: Not Found"),
        other => panic!("unexpected error: {other:?}"),
    }
}

#[test]
fn http_error_unknown_reason() {
    let status = reqwest::StatusCode::from_u16(299).unwrap();
    match SoapError::http(status) {
        SoapError::Http(m) => assert_eq!(m, "HTTP 299: Unknown"),
        other => panic!("unexpected error: {other:?}"),
    }
}

#[test]
fn status_messages() {
    assert_eq!(http_status_message(200), "HTTP 200: OK");
    assert_eq!(http_status_message(999), "HTTP 999: Unknown");
    assert_eq!(http_status_message(7), "HTTP 7: Unknown");
    assert_eq!(http_status_message(418), "HTTP 418: I'm a teapot");
}

#[test]
fn decimal_digits() {
    assert_eq!(decimal_string(0), "0");
    assert_eq!(decimal_string(9), "9");
    assert_eq!(decimal_string(10), "10");
    assert_eq!(decimal_string(505), "505");
    assert_eq!(decimal_string(65535), "65535");
}

#[test]
fn serialize_request_wraps_error() {
    let err = quick_xml::se::SeError::Custom("bad".to_string());
    match SoapError::serialize_request(err) {
        SoapError::SerializeRequest(quick_xml::se::SeError::Custom(s)) => assert_eq!(s, "bad"),
        other => panic!("unexpected error: {other:?}"),
    }
}

#[test]
fn request_error_becomes_http() {
    let err = reqwest::Client::new().get("not a url").build().unwrap_err();
    let text = err.to_string();
    match SoapError::from(err) {
        SoapError::Http(m) => assert_eq!(m, text),
        other => panic!("unexpected error: {other:?}"),
    }
}
