//! A server-side RFC 6455 WebSocket core: the opening-handshake token, base
//! framing with client-frame masking, close payloads, and the receive-side
//! state machine that reassembles fragments and answers control frames.

pub mod base64;
pub mod close;
pub mod conn;
pub mod frame;
pub mod handshake;
pub mod message;

pub use conn::Reassembly;
pub use frame::Opcode;

pub use message::{CloseFrame, Message};
