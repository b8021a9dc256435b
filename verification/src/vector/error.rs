//! Errors for the embedding client. Every failure mode of the plain-HTTP round
//! trip maps to a distinct variant, so callers can react precisely (and fall
//! back to substring search instead of failing).

use vstd::prelude::*;
use crate::text::{append_chars, append_str, nat_digits, string_of, u64_digits};

verus! {

/// A failure while fetching embeddings from an OpenAI-compatible endpoint.
#[derive(Debug, Clone, PartialEq, Eq)]
pub enum EmbedError {
    /// The endpoint string couldn't be parsed into `host[:port]`.
    InvalidEndpoint(String),
    /// An `https://` URL was supplied; TLS terminates at the edge, so point the
    /// client at the plain-HTTP origin.
    TlsUnsupported(String),
    /// TCP connect failed (connection refused, DNS failure, host down).
    Connect(String),
    /// The socket read timed out before a full response arrived.
    Timeout,
    /// A lower-level I/O error during send/receive.
    Io(String),
    /// The server replied with a non-2xx status: the code and a short snippet
    /// of the body.
    HttpStatus { code: u16, snippet: String },
    /// The response was missing, truncated, or had no header/body separator.
    ShortResponse,
    /// The body was not valid JSON.
    MalformedJson(String),
    /// The JSON parsed but didn't match `{"data":[{"embedding":[...]}, ...]}`.
    UnexpectedShape(String),
    /// A batch asked for `expected` embeddings but the server returned `got`.
    CountMismatch { expected: usize, got: usize },
}

/// An error by its contents.
pub enum EmbedErrorView {
    InvalidEndpoint(Seq<char>),
    TlsUnsupported(Seq<char>),
    Connect(Seq<char>),
    Timeout,
    Io(Seq<char>),
    HttpStatus(u16, Seq<char>),
    ShortResponse,
    MalformedJson(Seq<char>),
    UnexpectedShape(Seq<char>),
    CountMismatch(usize, usize),
}

impl View for EmbedError {
    type V = EmbedErrorView;

    open spec fn view(&self) -> EmbedErrorView {
        match self {
            EmbedError::InvalidEndpoint(s) => EmbedErrorView::InvalidEndpoint(s@),
            EmbedError::TlsUnsupported(s) => EmbedErrorView::TlsUnsupported(s@),
            EmbedError::Connect(s) => EmbedErrorView::Connect(s@),
            EmbedError::Timeout => EmbedErrorView::Timeout,
            EmbedError::Io(s) => EmbedErrorView::Io(s@),
            EmbedError::HttpStatus { code, snippet } => EmbedErrorView::HttpStatus(*code, snippet@),
            EmbedError::ShortResponse => EmbedErrorView::ShortResponse,
            EmbedError::MalformedJson(s) => EmbedErrorView::MalformedJson(s@),
            EmbedError::UnexpectedShape(s) => EmbedErrorView::UnexpectedShape(s@),
            EmbedError::CountMismatch { expected, got } => EmbedErrorView::CountMismatch(*expected, *got),
        }
    }
}

/// The human-readable description of an error.
pub open spec fn error_text(e: EmbedErrorView) -> Seq<char> {
    match e {
        EmbedErrorView::InvalidEndpoint(s) => "invalid endpoint: "@ + s,
        EmbedErrorView::TlsUnsupported(s) => "TLS is not supported (std has no TLS); use a plain http:// origin, not "@ + s,
        EmbedErrorView::Connect(s) => "could not connect: "@ + s,
        EmbedErrorView::Timeout => "read timed out"@,
        EmbedErrorView::Io(s) => "I/O error: "@ + s,
        EmbedErrorView::HttpStatus(code, snippet) => "embedding endpoint returned HTTP "@ + nat_digits(
            code as nat,
        ) + ": "@ + snippet,
        EmbedErrorView::ShortResponse => "empty or truncated HTTP response"@,
        EmbedErrorView::MalformedJson(s) => "malformed JSON response: "@ + s,
        EmbedErrorView::UnexpectedShape(s) => "unexpected response shape: "@ + s,
        EmbedErrorView::CountMismatch(expected, got) => "expected "@ + nat_digits(expected as nat)
            + " embeddings, got "@ + nat_digits(got as nat),
    }
}

fn text_then(prefix: &str, s: &String) -> (r: String)
    ensures
        r@ == prefix@ + s@,
{
    let mut v: Vec<char> = Vec::new();
    append_str(&mut v, prefix);
    append_str(&mut v, s.as_str());
    string_of(&v)
}

impl EmbedError {
    /// The description shown to users (what `Display` prints for this error).
    pub fn message(&self) -> (r: String)
        ensures
            r@ == error_text(self@),
    {
        match self {
            EmbedError::InvalidEndpoint(s) => text_then("invalid endpoint: ", s),
            EmbedError::TlsUnsupported(s) => text_then(
                "TLS is not supported (std has no TLS); use a plain http:// origin, not ",
                s,
            ),
            EmbedError::Connect(s) => text_then("could not connect: ", s),
            EmbedError::Timeout => crate::text::owned("read timed out"),
            EmbedError::Io(s) => text_then("I/O error: ", s),
            EmbedError::HttpStatus { code, snippet } => {
                let mut v: Vec<char> = Vec::new();
                append_str(&mut v, "embedding endpoint returned HTTP ");
                let d = u64_digits(*code as u64);
                append_chars(&mut v, &d);
                append_str(&mut v, ": ");
                append_str(&mut v, snippet.as_str());
                string_of(&v)
            },
            EmbedError::ShortResponse => crate::text::owned("empty or truncated HTTP response"),
            EmbedError::MalformedJson(s) => text_then("malformed JSON response: ", s),
            EmbedError::UnexpectedShape(s) => text_then("unexpected response shape: ", s),
            EmbedError::CountMismatch { expected, got } => {
                let mut v: Vec<char> = Vec::new();
                append_str(&mut v, "expected ");
                let d = u64_digits(*expected as u64);
                append_chars(&mut v, &d);
                append_str(&mut v, " embeddings, got ");
                let g = u64_digits(*got as u64);
                append_chars(&mut v, &g);
                string_of(&v)
            },
        }
    }
}

} // verus!
