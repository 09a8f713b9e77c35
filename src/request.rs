//! Building the request for an agency's alarms and decoding the page that
//! answers it, with a tagged error for every step that can fail.

use crate::document::{find_json, json_text};
use vstd::prelude::*;
use vstd::string::*;
use vstd::utf8::*;

verus! {

/// Address of the script that embeds an agency's recent alarms.
///
/// The agency key follows it as a bare query, in the form `?key`.
pub const BASE_URL: &'static str = "https://access.active911.com/interface/js.php";

/// Reason that retrieving an agency's recent alarms failed.
#[derive(Clone, Copy, Debug, PartialEq, Eq, Structural)]
pub enum AlarmErrorType {
    /// Response body is not valid UTF-8.
    BodyNotUtf8,
    /// Response body could not be read in full, likely due to a network issue.
    Chunking,
    /// Embedded JSON could not be deserialized into the expected shape.
    Deserializing,
    /// The marker that precedes the JSON is missing from the document.
    JsonMissing,
    /// The agency key does not form a valid URI.
    KeyInvalid,
    /// Request could not be sent, likely due to a network issue.
    SendingRequest,
}

/// Description of a lower-level failure, with the failure that caused it.
#[derive(Debug)]
pub struct ErrorSource {
    /// Human-readable text of the failure.
    pub description: String,
    /// The failure underneath this one, if any.
    pub source: Option<Box<ErrorSource>>,
}

/// Retrieving an agency's recent alarms failed.
#[derive(Debug)]
pub struct AlarmError {
    /// The type of failure.
    pub kind: AlarmErrorType,
    /// The lower-level failure underneath, if any.
    pub source: Option<ErrorSource>,
}

impl AlarmError {
    /// An error of the given type, wrapping the given cause.
    pub fn new(kind: AlarmErrorType, source: Option<ErrorSource>) -> (r: AlarmError)
        ensures
            r.kind == kind,
            r.source == source,
    {
        AlarmError { kind, source }
    }

    /// The type of error that occurred.
    pub fn kind(&self) -> (r: &AlarmErrorType)
        ensures
            *r == self.kind,
    {
        &self.kind
    }

    /// The cause of the error, if there is one.
    pub fn source(&self) -> (r: Option<&ErrorSource>)
        ensures
            r is None <==> self.source is None,
            r matches Some(s) ==> self.source == Some(*s),
    {
        match &self.source {
            Some(s) => Some(s),
            None => None,
        }
    }

    /// Consumes the error, returning its cause if there is one.
    pub fn into_source(self) -> (r: Option<ErrorSource>)
        ensures
            r == self.source,
    {
        self.source
    }

    /// Consumes the error, returning its type and its cause.
    pub fn into_parts(self) -> (r: (AlarmErrorType, Option<ErrorSource>))
        ensures
            r.0 == self.kind,
            r.1 == self.source,
    {
        (self.kind, self.source)
    }
}

/// The URL of the page for agency key `key`: the base URL, `?`, and the key
/// as it stands.
pub open spec fn request_url_text(key: Seq<char>) -> Seq<char> {
    BASE_URL@ + seq!['?'] + key
}

/// Builds the URL of the page for an agency key, appending the key without
/// any escaping.
pub fn request_url(key: &str) -> (r: String)
    ensures
        r@ == request_url_text(key@),
{
    let mut url = BASE_URL.to_owned();
    url.append("?");
    url.append(key);
    proof {
        reveal_strlit("?");
    }
    url
}

/// Whether `s` parses as a URI under the `http` crate's grammar.
pub uninterp spec fn is_valid_uri(s: Seq<char>) -> bool;

/// hyper's `Uri` (from the `http` crate), carried through as an opaque value.
#[verifier::external_type_specification]
#[verifier::external_body]
pub struct ExUri(hyper::Uri);

/// The error that `Uri` parsing returns, carried through as an opaque value.
#[verifier::external_type_specification]
#[verifier::external_body]
pub struct ExInvalidUri(hyper::http::uri::InvalidUri);

/// Relies on `FromStr for hyper::Uri` (the `http` crate's parser): whether a
/// text is accepted depends on the text alone.
#[verifier::external_body]
fn parse_uri(s: &str) -> (r: Result<hyper::Uri, hyper::http::uri::InvalidUri>)
    ensures
        r is Ok <==> is_valid_uri(s@),
{
    <hyper::Uri as std::str::FromStr>::from_str(s)
}

/// Builds the URL of the page for an agency key and checks that it parses
/// as a URI, returning the checked URL.
///
/// Fails with `KeyInvalid`, and no cause, when the URL does not parse as a
/// URI.
pub fn request_uri(key: &str) -> (r: Result<String, AlarmError>)
    ensures
        r is Ok <==> is_valid_uri(request_url_text(key@)),
        r matches Ok(u) ==> u@ == request_url_text(key@),
        r matches Err(e) ==> e.kind == AlarmErrorType::KeyInvalid && e.source is None,
{
    let url = request_url(key);
    match parse_uri(url.as_str()) {
        Ok(_) => Ok(url),
        Err(_) => Err(AlarmError::new(AlarmErrorType::KeyInvalid, None)),
    }
}

/// The error of `std::str::from_utf8`, carried through as an opaque value.
#[verifier::external_type_specification]
#[verifier::external_body]
pub struct ExUtf8Error(std::str::Utf8Error);

/// Relies on `std::str::from_utf8`: it accepts exactly the valid UTF-8 byte
/// sequences and returns the text that they encode.
#[verifier::external_body]
fn utf8_text(b: &[u8]) -> (r: Result<&str, std::str::Utf8Error>)
    ensures
        match r {
            Ok(s) => valid_utf8(b@) && s.spec_bytes() == b@,
            Err(_) => !valid_utf8(b@),
        },
{
    std::str::from_utf8(b)
}

/// Reads a response body as text and returns the JSON payload that the text
/// embeds after its first marker.
///
/// Fails with `BodyNotUtf8`, wrapping the decoding failure, when the body is
/// not valid UTF-8, and with `JsonMissing`, with no cause, when the text
/// holds no marker.
pub fn json_from_body(body: &[u8]) -> (r: Result<&str, AlarmError>)
    ensures
        r is Ok <==> valid_utf8(body@) && json_text(body@) is Some,
        r matches Ok(json) ==> json_text(body@) == Some(json.spec_bytes()),
        r matches Err(e) ==> {
            &&& (e.kind == AlarmErrorType::BodyNotUtf8 <==> !valid_utf8(body@))
            &&& (e.kind == AlarmErrorType::JsonMissing <==> valid_utf8(body@))
            &&& (e.source is Some <==> e.kind == AlarmErrorType::BodyNotUtf8)
        },
{
    let document = match utf8_text(body) {
        Ok(document) => document,
        Err(cause) => {
            let source = ErrorSource { description: cause.to_string(), source: None };
            return Err(AlarmError::new(AlarmErrorType::BodyNotUtf8, Some(source)));
        },
    };
    match find_json(document) {
        Some(json) => Ok(json),
        None => Err(AlarmError::new(AlarmErrorType::JsonMissing, None)),
    }
}

} // verus!
