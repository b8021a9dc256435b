//! The application-level view of a WebSocket: whole messages and close frames.

use vstd::prelude::*;
use crate::text::owned;

pub use super::close;

verus! {

/// A complete WebSocket message handed to (or sent by) the application. Data
/// fragmentation is reassembled before a `Text`/`Binary` is produced, so callers
/// never see continuation frames.
#[derive(Debug, Clone, PartialEq, Eq)]
pub enum Message {
    /// A UTF-8 text message (validity is enforced on receipt).
    Text(String),
    /// A binary message.
    Binary(Vec<u8>),
    /// A ping.
    Ping(Vec<u8>),
    /// A pong (an answer to a ping we sent, or unsolicited).
    Pong(Vec<u8>),
    /// The peer is closing, optionally with a code and reason.
    Close(Option<CloseFrame>),
}

/// The body of a close frame: a status code and a UTF-8 reason.
#[derive(Debug, Clone, PartialEq, Eq)]
pub struct CloseFrame {
    pub code: u16,
    pub reason: String,
}

impl CloseFrame {
    pub fn new(code: u16, reason: &str) -> (c: CloseFrame)
        ensures
            c.code == code,
            c.reason@ == reason@,
    {
        CloseFrame { code, reason: owned(reason) }
    }
}

} // verus!
