//! The embedding client's protocol side: endpoint parsing, the plain
//! HTTP/1.1 request for an OpenAI-compatible `POST /v1/embeddings`, response
//! splitting, and the error values the round trip can end in. The socket
//! round trip and the float vectors live with the caller.

pub mod client;
pub mod error;
pub mod http;


pub use error::EmbedError;

