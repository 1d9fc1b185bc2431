//! The healthcheck: one probe before the engine reports ready, and the
//! verdict on what the destination answers.

use crate::request::{header_value_ok, header_value_parses, uri_accepted, uri_parses};
use crate::request::{Header, HeaderModel, RequestModel, WireRequest};
use crate::text::{decimal, decimal_string};
use vstd::prelude::*;

verus! {

/// Why the destination is not healthy.
#[derive(Clone, Debug, PartialEq, Eq)]
pub enum HealthcheckError {
    /// The endpoint is no URI.
    InvalidUri,
    /// The API key cannot stand in a header.
    InvalidApiKey,
    /// The destination answered 401; the text is its reason.
    Unauthorized(String),
    /// The destination answered with another status; the text names the
    /// status and echoes the body.
    UnexpectedStatus(String),
}

/// Mathematical model of a [`HealthcheckError`].
pub enum HealthcheckErrorModel {
    InvalidUri,
    InvalidApiKey,
    Unauthorized(Seq<char>),
    UnexpectedStatus(Seq<char>),
}

impl View for HealthcheckError {
    type V = HealthcheckErrorModel;

    open spec fn view(&self) -> HealthcheckErrorModel {
        match self {
            HealthcheckError::InvalidUri => HealthcheckErrorModel::InvalidUri,
            HealthcheckError::InvalidApiKey => HealthcheckErrorModel::InvalidApiKey,
            HealthcheckError::Unauthorized(s) => HealthcheckErrorModel::Unauthorized(s@),
            HealthcheckError::UnexpectedStatus(s) => HealthcheckErrorModel::UnexpectedStatus(s@),
        }
    }
}

/// What `serde_json` finds in a JSON text under a member name: the
/// parser's message where the text is no JSON; else the string under
/// `name`, where the text is an object that holds a string there.
pub uninterp spec fn json_member_text(body: Seq<u8>, name: Seq<char>) -> Result<
    Option<Seq<char>>,
    Seq<char>,
>;

/// How the `http` crate writes a status code: the number and the usual
/// reason phrase. `None` for a number that is no status code.
pub uninterp spec fn status_display(status: u16) -> Option<Seq<char>>;

/// The text that `String::from_utf8_lossy` makes of bytes: the text that
/// they encode, with the replacement character in place of what is no
/// UTF-8.
pub uninterp spec fn lossy_text(bytes: Seq<u8>) -> Seq<char>;

/// `serde_json::from_slice` into a `serde_json::Value`, then `as_object`,
/// `get(name)` and `as_str` on it. An error of the parser is handed on as
/// its message; else the result is the string under `name`, if the body
/// is an object with a string there.
#[verifier::external_body]
fn read_member(body: &[u8], name: &str) -> (r: Result<Option<String>, String>)
    ensures
        match r {
            Ok(Some(text)) => json_member_text(body@, name@) == Ok::<
                Option<Seq<char>>,
                Seq<char>,
            >(Some(text@)),
            Ok(None) => json_member_text(body@, name@) == Ok::<Option<Seq<char>>, Seq<char>>(
                None,
            ),
            Err(message) => json_member_text(body@, name@) == Err::<
                Option<Seq<char>>,
                Seq<char>,
            >(message@),
        },
{
    match serde_json::from_slice::<serde_json::Value>(body) {
        Ok(value) => Ok(
            value.as_object().and_then(|o| o.get(name)).and_then(|s| s.as_str()).map(
                |s| s.to_string(),
            ),
        ),
        Err(e) => Err(e.to_string()),
    }
}

/// `http::StatusCode::from_u16`, then the code's `Display`. A number
/// below 100 or above 999 is no status code.
#[verifier::external_body]
fn status_text(status: u16) -> (r: Option<String>)
    ensures
        r is Some <==> 100 <= status < 1000,
        match r {
            Some(text) => status_display(status) == Some(text@),
            None => status_display(status) is None,
        },
{
    match http::StatusCode::from_u16(status) {
        Ok(code) => Some(code.to_string()),
        Err(_) => None,
    }
}

/// `String::from_utf8_lossy` on the bytes of a body.
#[verifier::external_body]
fn lossy(bytes: &[u8]) -> (text: String)
    ensures
        text@ == lossy_text(bytes@),
{
    String::from_utf8_lossy(bytes).into_owned()
}

/// The headers of the probe.
pub open spec fn probe_headers(api_key: Seq<char>) -> Seq<HeaderModel> {
    seq![
        HeaderModel { name: "content-type"@, value: "application/json"@ },
        HeaderModel { name: "DD-API-KEY"@, value: api_key },
    ]
}

/// The probe: an empty request to the endpoint, with the API key. It is
/// refused where the endpoint is no URI, else where the API key cannot
/// stand in a header.
pub fn probe_request(uri: &str, api_key: &str) -> (r: Result<WireRequest, HealthcheckError>)
    ensures
        match r {
            Ok(req) => uri_accepted(uri@) && header_value_ok(api_key@) && req@ == (RequestModel {
                uri: uri@,
                headers: probe_headers(api_key@),
                body: Seq::empty(),
            }),
            Err(e) => if !uri_accepted(uri@) {
                e@ == HealthcheckErrorModel::InvalidUri
            } else {
                !header_value_ok(api_key@) && e@ == HealthcheckErrorModel::InvalidApiKey
            },
        },
{
    if !uri_parses(uri) {
        Err(HealthcheckError::InvalidUri)
    } else if !header_value_parses(api_key) {
        Err(HealthcheckError::InvalidApiKey)
    } else {
        let mut headers: Vec<Header> = Vec::new();
        headers.push(
            Header { name: "content-type".to_owned(), value: "application/json".to_owned() },
        );
        headers.push(Header { name: "DD-API-KEY".to_owned(), value: api_key.to_owned() });
        let req = WireRequest { uri: uri.to_owned(), headers, body: Vec::new() };
        assert(req@.headers =~= probe_headers(api_key@));
        Ok(req)
    }
}

/// The reason given for a 401: the string that the body holds under
/// `error`; else, also where the body is no JSON at all, a standard text.
pub open spec fn unauthorized_error(parsed: Result<Option<Seq<char>>, Seq<char>>)
    -> HealthcheckErrorModel {
    match parsed {
        Ok(Some(reason)) => HealthcheckErrorModel::Unauthorized(reason),
        _ => HealthcheckErrorModel::Unauthorized("Token is not valid, 401 returned."@),
    }
}

/// The message for a status that is neither 200 nor 401.
pub open spec fn unexpected_message(status: Seq<char>, body: Seq<char>) -> Seq<char> {
    "Server returned unexpected error status: "@ + status + " body: "@ + body
}

/// How a status is written in a message: as the `http` crate writes it,
/// or as a bare number where it is no status code.
pub open spec fn status_label(status: u16) -> Seq<char> {
    match status_display(status) {
        Some(text) => text,
        None => decimal(status as nat),
    }
}

/// The verdict on a response, as a function of its status and body.
pub open spec fn verdict(status: u16, body: Seq<u8>) -> Result<(), HealthcheckErrorModel> {
    if status == 200 {
        Ok(())
    } else if status == 401 {
        Err(unauthorized_error(json_member_text(body, "error"@)))
    } else {
        Err(
            HealthcheckErrorModel::UnexpectedStatus(
                unexpected_message(status_label(status), lossy_text(body)),
            ),
        )
    }
}

/// The error for a 401, from what was read out of its body.
pub fn unauthorized(parsed: Result<Option<String>, String>) -> (e: HealthcheckError)
    ensures
        e@ == unauthorized_error(
            match parsed {
                Ok(Some(text)) => Ok(Some(text@)),
                Ok(None) => Ok(None),
                Err(message) => Err(message@),
            },
        ),
{
    match parsed {
        Ok(Some(reason)) => HealthcheckError::Unauthorized(reason),
        _ => HealthcheckError::Unauthorized("Token is not valid, 401 returned.".to_owned()),
    }
}

/// The error for a status that is neither 200 nor 401, from the status
/// and the body as text.
pub fn unexpected_status(status: &str, body: &str) -> (e: HealthcheckError)
    ensures
        e@ == HealthcheckErrorModel::UnexpectedStatus(unexpected_message(status@, body@)),
{
    let mut message = String::new();
    message.push_str("Server returned unexpected error status: ");
    message.push_str(status);
    message.push_str(" body: ");
    message.push_str(body);
    assert(message@ =~= unexpected_message(status@, body@));
    HealthcheckError::UnexpectedStatus(message)
}

/// Judges the answer to the probe: 200 is healthy; 401 is unhealthy with
/// the reason that the body gives under `error`, or a standard text; any
/// other status is unhealthy with the status and the body echoed.
pub fn check_response(status: u16, body: &[u8]) -> (r: Result<(), HealthcheckError>)
    ensures
        match r {
            Ok(()) => verdict(status, body@) is Ok,
            Err(e) => verdict(status, body@) == Err::<(), HealthcheckErrorModel>(e@),
        },
{
    if status == 200 {
        Ok(())
    } else if status == 401 {
        Err(unauthorized(read_member(body, "error")))
    } else {
        let label = match status_text(status) {
            Some(text) => text,
            None => decimal_string(status as u64),
        };
        let text = lossy(body);
        Err(unexpected_status(label.as_str(), text.as_str()))
    }
}

/// The message of an error, for the operator.
pub fn describe(error: &HealthcheckError) -> (message: String)
    ensures
        message@ == match error@ {
            HealthcheckErrorModel::InvalidUri => "The endpoint is not a valid URI."@,
            HealthcheckErrorModel::InvalidApiKey => "The API key is not a valid header value."@,
            HealthcheckErrorModel::Unauthorized(reason) => reason,
            HealthcheckErrorModel::UnexpectedStatus(message) => message,
        },
{
    match error {
        HealthcheckError::InvalidUri => "The endpoint is not a valid URI.".to_owned(),
        HealthcheckError::InvalidApiKey => "The API key is not a valid header value.".to_owned(),
        HealthcheckError::Unauthorized(reason) => reason.clone(),
        HealthcheckError::UnexpectedStatus(message) => message.clone(),
    }
}

} // verus!
