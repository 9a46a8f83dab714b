//! The relay's per-request decisions: turning the inbound path segment into a
//! target URL or a rejection, and classifying the upstream fetch outcome.

use vstd::prelude::*;

use crate::STATUS_BAD_REQUEST;
use crate::STATUS_INTERNAL_SERVER_ERROR;
use crate::base64url::is_base64url_byte;
use crate::base64url::lemma_decode_encode;
use crate::base64url::lemma_foreign_byte_fails;
use crate::base64url::spec_decode;
use crate::base64url::spec_encode;
use vstd::utf8::decode_utf8;
use vstd::utf8::valid_utf8;

verus! {

/// The ways a relayed request can fail. The first two reject the inbound
/// request as malformed; the last two report a failed upstream fetch.
#[derive(Clone, Copy, PartialEq, Eq, Structural, Debug)]
pub enum RelayRejection {
    /// The path segment is not URL-safe base64.
    BadBase64,
    /// The decoded bytes are not UTF-8.
    BadUtf8,
    /// The upstream fetch got no response at all.
    FetchFailed,
    /// The upstream answered with a non-success status.
    UpstreamNotSuccess,
}

impl RelayRejection {
    /// The HTTP status the relay answers with: 400 for a malformed inbound
    /// request, 500 for a failed upstream fetch.
    pub fn status(&self) -> (r: u16)
        ensures
            (*self == RelayRejection::BadBase64 || *self == RelayRejection::BadUtf8) ==> r
                == STATUS_BAD_REQUEST,
            (*self == RelayRejection::FetchFailed || *self == RelayRejection::UpstreamNotSuccess)
                ==> r == STATUS_INTERNAL_SERVER_ERROR,
    {
        match self {
            RelayRejection::BadBase64 => STATUS_BAD_REQUEST,
            RelayRejection::BadUtf8 => STATUS_BAD_REQUEST,
            RelayRejection::FetchFailed => STATUS_INTERNAL_SERVER_ERROR,
            RelayRejection::UpstreamNotSuccess => STATUS_INTERNAL_SERVER_ERROR,
        }
    }
    /// The fixed one-line diagnostic the relay answers with.
    pub fn message(&self) -> (r: &'static str)
        ensures
            r@ == spec_message(*self),
    {
        match self {
            RelayRejection::BadBase64 => "Failed to decode base64 url param",
            RelayRejection::BadUtf8 => "Failed to convert bytes to utf8 string",
            RelayRejection::FetchFailed => "Request url failed",
            RelayRejection::UpstreamNotSuccess => "Request url status code is not success",
        }
    }
}

/// The diagnostic text for each way a relayed request fails.
pub open spec fn spec_message(e: RelayRejection) -> Seq<char> {
    match e {
        RelayRejection::BadBase64 => "Failed to decode base64 url param"@,
        RelayRejection::BadUtf8 => "Failed to convert bytes to utf8 string"@,
        RelayRejection::FetchFailed => "Request url failed"@,
        RelayRejection::UpstreamNotSuccess => "Request url status code is not success"@,
    }
}

/// Relies on `String::from_utf8`: it returns `Ok` exactly when the bytes are
/// valid UTF-8, and the string then holds those bytes decoded.
#[verifier::external_body]
fn string_from_utf8(bytes: Vec<u8>) -> (r: Option<String>)
    ensures
        r is Some <==> valid_utf8(bytes@),
        (r matches Some(s) ==> s@ == decode_utf8(bytes@)),
{
    String::from_utf8(bytes).ok()
}

/// What the relay makes of an inbound path segment: the target URL it
/// encodes, or the rejection it earns.
pub open spec fn spec_decode_target(path: Seq<u8>) -> Result<Seq<char>, RelayRejection> {
    match spec_decode(path) {
        None => Err(RelayRejection::BadBase64),
        Some(bytes) => if valid_utf8(bytes) {
            Ok(decode_utf8(bytes))
        } else {
            Err(RelayRejection::BadUtf8)
        },
    }
}

/// Turns the inbound path segment into the target URL: URL-safe base64
/// decoding first, UTF-8 decoding second, each failure with its own
/// rejection.
pub fn decode_target(path: &[u8]) -> (r: Result<String, RelayRejection>)
    ensures
        (r matches Ok(url) ==> spec_decode_target(path@) == Ok::<Seq<char>, RelayRejection>(url@)),
        (r matches Err(e) ==> spec_decode_target(path@) == Err::<Seq<char>, RelayRejection>(e)),
{
    match crate::base64url::decode(path) {
        None => Err(RelayRejection::BadBase64),
        Some(bytes) => match string_from_utf8(bytes) {
            None => Err(RelayRejection::BadUtf8),
            Some(url) => Ok(url),
        },
    }
}

/// How the upstream fetch of the target URL went, as the surrounding program
/// reports it: no response at all, or a response with its status and its
/// `Content-Type` header bytes, if that header was present.
pub enum UpstreamOutcome {
    Unreachable,
    Response { status: u16, content_type: Option<Vec<u8>> },
}

/// The relay's answer once the upstream outcome is known: stream the upstream
/// body onward, mirroring its `Content-Type` header when there was one, or
/// reject the request.
pub enum RelayReply {
    Stream { content_type: Option<Vec<u8>> },
    Reject(RelayRejection),
}

/// Whether an upstream status is in the success range.
pub open spec fn is_success_status(status: u16) -> bool {
    200 <= status <= 299
}

/// Classifies the upstream outcome: no response is a failed fetch, a
/// non-success status is discarded and reported as an upstream failure, and a
/// success has its body streamed onward with the `Content-Type` header passed
/// through unchanged.
pub fn plan_reply(outcome: UpstreamOutcome) -> (r: RelayReply)
    ensures
        (outcome is Unreachable ==> r == RelayReply::Reject(RelayRejection::FetchFailed)),
        (outcome matches UpstreamOutcome::Response { status, content_type } ==> {
            &&& is_success_status(status) ==> (r matches RelayReply::Stream { content_type: ct }
                && ct == content_type)
            &&& !is_success_status(status) ==> r == RelayReply::Reject(
                RelayRejection::UpstreamNotSuccess,
            )
        }),
{
    match outcome {
        UpstreamOutcome::Unreachable => RelayReply::Reject(RelayRejection::FetchFailed),
        UpstreamOutcome::Response { status, content_type } => {
            if 200 <= status && status <= 299 {
                RelayReply::Stream { content_type }
            } else {
                RelayReply::Reject(RelayRejection::UpstreamNotSuccess)
            }
        },
    }
}

/// For every byte sequence, requesting its URL-safe base64 encoding either
/// yields the decoded string as the URL to fetch, or, exactly when the bytes
/// are not UTF-8, the rejection that answers 400.
pub proof fn lemma_encoded_path_outcome(b: Seq<u8>)
    ensures
        valid_utf8(b) ==> spec_decode_target(spec_encode(b)) == Ok::<
            Seq<char>,
            RelayRejection,
        >(decode_utf8(b)),
        !valid_utf8(b) ==> spec_decode_target(spec_encode(b)) == Err::<
            Seq<char>,
            RelayRejection,
        >(RelayRejection::BadUtf8),
{
    lemma_decode_encode(b);
}

/// A path segment with any byte outside the URL-safe alphabet is always
/// rejected as malformed base64.
pub proof fn lemma_foreign_byte_rejected(path: Seq<u8>, i: int)
    requires
        0 <= i < path.len(),
        !is_base64url_byte(path[i]),
    ensures
        spec_decode_target(path) == Err::<Seq<char>, RelayRejection>(RelayRejection::BadBase64),
{
    lemma_foreign_byte_fails(path, i);
}

} // verus!
