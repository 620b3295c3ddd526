//! Error types for SOAP operations.

use vstd::prelude::*;
use vstd::string::StringExecFns;

use crate::text::push_char;

verus! {

/// The XML deserialization error of `quick_xml`.
#[verifier::external_type_specification]
#[verifier::external_body]
pub struct ExDeError(quick_xml::de::DeError);

/// The XML serialization error of `quick_xml`.
#[verifier::external_type_specification]
#[verifier::external_body]
pub struct ExSeError(quick_xml::se::SeError);

/// An HTTP status code of `reqwest`.
#[verifier::external_type_specification]
#[verifier::external_body]
pub struct ExStatusCode(reqwest::StatusCode);

/// The error of a failed `reqwest` request.
#[verifier::external_type_specification]
#[verifier::external_body]
pub struct ExReqwestError(reqwest::Error);

/// The primary error type for SOAP operations.
#[derive(Debug)]
pub enum SoapError {
    /// HTTP request failed.
    Http(String),
    /// Failed to serialize the request XML.
    SerializeRequest(quick_xml::se::SeError),
    /// Failed to deserialize the response XML.
    DeserializeResponse(Box<quick_xml::de::DeError>),
    /// The SOAP envelope contained a fault from the server.
    SoapFault {
        /// The fault code (e.g. "Client", "Server").
        code: String,
        /// Human-readable description of the fault.
        message: String,
    },
    /// The requested operation could not be found in the WSDL.
    OperationNotFound {
        /// The name of the operation that was not found.
        name: String,
    },
    /// Missing or invalid endpoint URL.
    NoEndpoint,
}

impl SoapError {
    /// Construct a `SoapError::SerializeRequest` from an XML serialization error.
    pub fn serialize_request(err: quick_xml::se::SeError) -> (r: Self)
        ensures
            r == SoapError::SerializeRequest(err),
    {
        SoapError::SerializeRequest(err)
    }
}


/// The decimal digits of `n`.
pub open spec fn decimal(n: nat) -> Seq<char>
    decreases n,
{
    if n < 10 {
        seq![digit_char(n)]
    } else {
        decimal(n / 10) + seq![digit_char(n % 10)]
    }
}

/// The character of a decimal digit.
pub open spec fn digit_char(d: nat) -> char {
    if d == 0 {
        '0'
    } else if d == 1 {
        '1'
    } else if d == 2 {
        '2'
    } else if d == 3 {
        '3'
    } else if d == 4 {
        '4'
    } else if d == 5 {
        '5'
    } else if d == 6 {
        '6'
    } else if d == 7 {
        '7'
    } else if d == 8 {
        '8'
    } else {
        '9'
    }
}

fn digit_char_exec(d: u16) -> (c: char)
    requires
        d < 10,
    ensures
        c == digit_char(d as nat),
{
    if d == 0 {
        '0'
    } else if d == 1 {
        '1'
    } else if d == 2 {
        '2'
    } else if d == 3 {
        '3'
    } else if d == 4 {
        '4'
    } else if d == 5 {
        '5'
    } else if d == 6 {
        '6'
    } else if d == 7 {
        '7'
    } else if d == 8 {
        '8'
    } else {
        '9'
    }
}

/// The decimal representation of `n`.
pub fn decimal_string(n: u16) -> (r: String)
    ensures
        r@ == decimal(n as nat),
    decreases n,
{
    if n < 10 {
        let mut r = String::new();
        push_char(&mut r, digit_char_exec(n));
        r
    } else {
        let mut r = decimal_string(n / 10);
        push_char(&mut r, digit_char_exec(n % 10));
        r
    }
}

/// The standard reason phrase that `http` gives for a status code, if it
/// knows one.
pub uninterp spec fn http_reason_phrase(code: u16) -> Option<Seq<char>>;

/// The number of a status code, as `StatusCode::as_u16` gives it.
pub uninterp spec fn status_code_number(status: reqwest::StatusCode) -> u16;

/// The numeric value of a status code.
///
/// Calls `StatusCode::as_u16`; its result is named by `status_code_number`,
/// and `http` only builds status codes from 100 to 999.
#[verifier::external_body]
fn status_number(status: &reqwest::StatusCode) -> (r: u16)
    ensures
        r == status_code_number(*status),
        100 <= r <= 999,
{
    status.as_u16()
}

/// The standard reason phrase for a status code.
///
/// Calls `StatusCode::canonical_reason` on the status code of that number
/// (`None` for numbers that `StatusCode::from_u16` rejects); the result is
/// named by `http_reason_phrase`.
#[verifier::external_body]
fn reason_phrase(code: u16) -> (r: Option<&'static str>)
    ensures
        match r {
            Some(p) => http_reason_phrase(code) == Some(p@),
            None => http_reason_phrase(code) is None,
        },
{
    match reqwest::StatusCode::from_u16(code) {
        Ok(status) => status.canonical_reason(),
        Err(_) => None,
    }
}

/// The message of an HTTP error for status `code`: `HTTP <code>: <reason>`,
/// with `Unknown` when no reason phrase is known.
pub open spec fn http_status_text(code: u16) -> Seq<char> {
    "HTTP "@ + decimal(code as nat) + ": "@ + match http_reason_phrase(code) {
        Some(p) => p,
        None => "Unknown"@,
    }
}

/// The message of an HTTP error for status `code`.
pub fn http_status_message(code: u16) -> (r: String)
    ensures
        r@ == http_status_text(code),
{
    let mut r = String::new();
    r.append("HTTP ");
    let digits = decimal_string(code);
    r.append(digits.as_str());
    r.append(": ");
    match reason_phrase(code) {
        Some(p) => r.append(p),
        None => r.append("Unknown"),
    }
    r
}

/// The text that `reqwest::Error`'s `Display` writes for an error.
pub uninterp spec fn request_error_string(err: reqwest::Error) -> Seq<char>;

/// The text of a `reqwest` error.
///
/// Calls `reqwest::Error`'s `Display`; its result is named by
/// `request_error_string`.
#[verifier::external_body]
fn request_error_text(err: &reqwest::Error) -> (r: String)
    ensures
        r@ == request_error_string(*err),
{
    err.to_string()
}

impl SoapError {
    /// Construct a `SoapError::Http` from an HTTP status code.
    pub fn http(status: reqwest::StatusCode) -> (r: Self)
        ensures
            r matches SoapError::Http(m) && m@ == http_status_text(status_code_number(status)),
    {
        let code = status_number(&status);
        SoapError::Http(http_status_message(code))
    }
}

impl From<reqwest::Error> for SoapError {
    fn from(err: reqwest::Error) -> (r: Self)
        ensures
            r matches SoapError::Http(m) && m@ == request_error_string(err),
    {
        SoapError::Http(request_error_text(&err))
    }
}

impl vstd::std_specs::convert::FromSpecImpl<reqwest::Error> for SoapError {
    open spec fn obeys_from_spec() -> bool {
        false
    }

    open spec fn from_spec(err: reqwest::Error) -> Self {
        vstd::pervasive::arbitrary()
    }
}
} // verus!
