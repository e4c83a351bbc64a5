//! Newline-delimited JSON-RPC framing: what the server does with one line
//! read from its input. A line that is blank once trimmed is skipped; any
//! other line is parsed as JSON and dispatched, or answered with the
//! JSON-RPC parse-error code when it is not JSON.

use vstd::prelude::*;
use crate::text::{trim, trimmed};

verus! {

/// The JSON-RPC 2.0 error code for input that is not valid JSON.
pub const PARSE_ERROR_CODE: i64 = -32700;

/// `serde_json::Value`, carried opaquely.
#[verifier::external_type_specification]
#[verifier::external_body]
pub struct ExSerdeJsonValue(serde_json::Value);

/// Whether `serde_json::from_str` reads a JSON value from a text.
pub uninterp spec fn parses_as_json(text: Seq<char>) -> bool;

/// The JSON value `serde_json::from_str` reads from a text that is JSON.
pub uninterp spec fn json_value_of(text: Seq<char>) -> serde_json::Value;

/// `serde_json::from_str` into a `serde_json::Value`: it succeeds exactly
/// when the text is JSON (`parses_as_json`), and then yields the value
/// named `json_value_of` the text, a function of the text alone; what that
/// value holds is not described.
#[verifier::external_body]
fn parse_json(text: &str) -> (r: Result<serde_json::Value, serde_json::Error>)
    ensures
        r is Ok <==> parses_as_json(text@),
        r matches Ok(v) ==> v == json_value_of(text@),
{
    serde_json::from_str(text)
}

/// What to do with one input line.
pub enum LineStep {
    /// The line is blank: nothing to answer.
    Skip,
    /// The line holds this JSON message: dispatch it.
    Dispatch(serde_json::Value),
    /// The line is not JSON: answer with `code` and the parse error.
    ParseError { code: i64, error: serde_json::Error },
}

/// Decides what to do with one input line: its trimmed text is skipped when
/// empty, and otherwise parsed as JSON and the value read dispatched; a
/// parse failure is answered with [`PARSE_ERROR_CODE`].
pub fn step_for_line(line: &str) -> (step: LineStep)
    ensures
        step is Skip <==> trimmed(line@).len() == 0,
        trimmed(line@).len() > 0 ==> (step is Dispatch <==> parses_as_json(trimmed(line@))),
        step matches LineStep::Dispatch(message) ==> message == json_value_of(trimmed(line@)),
        step matches LineStep::ParseError { code, .. } ==> code == PARSE_ERROR_CODE,
{
    let text = trim(line);
    if text.unicode_len() == 0 {
        LineStep::Skip
    } else {
        match parse_json(text) {
            Ok(message) => LineStep::Dispatch(message),
            Err(error) => LineStep::ParseError { code: PARSE_ERROR_CODE, error },
        }
    }
}

} // verus!
