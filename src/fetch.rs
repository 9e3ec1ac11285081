//! What a poll of one metrics endpoint can come back with.

use vstd::prelude::*;
use crate::formatters::extend_chars;
use crate::text::{chars_of, string_from_chars};

verus! {

/// Why fetching an endpoint's metrics failed, with the underlying error's text.
#[derive(Debug)]
pub enum FetchFailure {
    /// The request could not be sent or got no response in time.
    Network(String),
    /// The endpoint answered with a status outside 2xx.
    HttpStatus(String),
    /// The response body could not be read as text.
    BodyRead(String),
}

/// The message shown for a failure: its kind, then the error's text.
pub open spec fn failure_text(f: FetchFailure) -> Seq<char> {
    match f {
        FetchFailure::Network(d) => "Network error: "@ + d@,
        FetchFailure::HttpStatus(d) => "HTTP error: "@ + d@,
        FetchFailure::BodyRead(d) => "Read body error: "@ + d@,
    }
}

impl FetchFailure {
    /// The message shown for this failure.
    pub fn message(&self) -> (r: String)
        ensures
            r@ == failure_text(*self),
    {
        let (prefix, detail) = match self {
            FetchFailure::Network(d) => ("Network error: ", d),
            FetchFailure::HttpStatus(d) => ("HTTP error: ", d),
            FetchFailure::BodyRead(d) => ("Read body error: ", d),
        };
        let mut v = chars_of(prefix);
        let w = chars_of(detail.as_str());
        extend_chars(&mut v, &w);
        string_from_chars(&v)
    }
}

/// A poll outcome as the engine takes it: the body text, or the failure's message.
pub fn poll_result(outcome: Result<String, FetchFailure>) -> (r: Result<String, String>)
    ensures
        match outcome {
            Ok(body) => r == Ok::<String, String>(body),
            Err(f) => r matches Err(m) && m@ == failure_text(f),
        },
{
    match outcome {
        Ok(body) => Ok(body),
        Err(f) => Err(f.message()),
    }
}

} // verus!
