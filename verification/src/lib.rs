//! A minimal HTTP relay core: the inbound path segment is a base64url-encoded
//! target URL; the library decodes it, decides how each request is answered,
//! and classifies the upstream outcome. All I/O stays outside the library.

use vstd::prelude::*;

pub mod base64url;
pub mod relay;

verus! {

/// HTTP status code for a request the relay rejects as malformed.
pub const STATUS_BAD_REQUEST: u16 = 400;

/// HTTP status code for an upstream fetch the relay could not complete.
pub const STATUS_INTERNAL_SERVER_ERROR: u16 = 500;

} // verus!
