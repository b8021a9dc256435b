//! Standard close codes (RFC 6455 §7.4.1). Codes 1005/1006 are reserved for
//! local use and never appear on the wire, so they are absent here.

use vstd::prelude::*;

verus! {

/// Normal closure; the purpose was fulfilled.
pub const NORMAL: u16 = 1000;

/// An endpoint is going away (server shutdown, page navigation).
pub const GOING_AWAY: u16 = 1001;

/// A protocol error was detected.
pub const PROTOCOL_ERROR: u16 = 1002;

/// A data type the endpoint cannot accept was received.
pub const UNSUPPORTED: u16 = 1003;

/// A message was not consistent with its type (e.g. invalid UTF-8 in text).
pub const INVALID_PAYLOAD: u16 = 1007;

/// A message violated policy.
pub const POLICY: u16 = 1008;

/// A message was too big to process.
pub const TOO_BIG: u16 = 1009;

/// An unexpected condition prevented fulfilling the request.
pub const INTERNAL_ERROR: u16 = 1011;

} // verus!
