//! The embeddings request body and the checks applied to what comes back.

use vstd::prelude::*;
use crate::json::{json_string, json_string_array, push_json_string, push_json_string_array};
use crate::text::{append_str, string_of};
use crate::vector::error::{EmbedError, EmbedErrorView};

verus! {

/// The `input` field of an embeddings request: one string or a batch.
#[derive(Debug, Clone, PartialEq, Eq)]
pub enum EmbedInput {
    Single(String),
    Many(Vec<String>),
}

/// The JSON of the `input` field.
pub open spec fn input_json(input: EmbedInput) -> Seq<char> {
    match input {
        EmbedInput::Single(t) => json_string(t@),
        EmbedInput::Many(ts) => json_string_array(Seq::new(ts@.len(), |k: int| ts@[k]@)),
    }
}

/// The request body `{"model":<model>,"input":<text|[texts]>}`, keys in
/// that order, no spaces.
pub open spec fn request_body(model: Seq<char>, input: EmbedInput) -> Seq<char> {
    "{\"model\":"@ + json_string(model) + ",\"input\":"@ + input_json(input) + "}"@
}

/// How many embeddings an input asks for.
pub open spec fn expected_count(input: EmbedInput) -> nat {
    match input {
        EmbedInput::Single(_) => 1,
        EmbedInput::Many(ts) => ts@.len(),
    }
}

impl EmbedInput {
    /// Serialize the full request body `{"model": ..., "input": ...}`, strings
    /// escaped, keys in the order `model` then `input`.
    pub fn to_json_body(&self, model: &str) -> (r: String)
        ensures
            r@ == request_body(model@, *self),
    {
        let mut v: Vec<char> = Vec::new();
        append_str(&mut v, "{\"model\":");
        push_json_string(&mut v, model);
        append_str(&mut v, ",\"input\":");
        match self {
            EmbedInput::Single(t) => push_json_string(&mut v, t.as_str()),
            EmbedInput::Many(ts) => push_json_string_array(&mut v, ts),
        }
        append_str(&mut v, "}");
        string_of(&v)
    }

    /// How many embeddings this input should produce.
    pub fn expected_len(&self) -> (n: usize)
        ensures
            n == expected_count(*self),
    {
        match self {
            EmbedInput::Single(_) => 1,
            EmbedInput::Many(ts) => ts.len(),
        }
    }
}

/// The count check applied to a parsed response: as many embeddings as the
/// input asked for, or `CountMismatch`.
pub fn check_embedding_count(input: &EmbedInput, got: usize) -> (r: Result<(), EmbedError>)
    ensures
        match r {
            Ok(()) => got == expected_count(*input),
            Err(e) => got != expected_count(*input) && e@ == EmbedErrorView::CountMismatch(
                expected_count(*input) as usize,
                got,
            ),
        },
{
    let expected = input.expected_len();
    if got != expected {
        return Err(EmbedError::CountMismatch { expected, got });
    }
    Ok(())
}

} // verus!
