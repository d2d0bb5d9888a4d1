//! Lines as a terminal shows them: ANSI escape sequences are taken out of a
//! line before the grammar is tried on it.

use crate::grammar::spec_parse_cf_app_log;
use crate::parser::parse_cf_app_log;
use vstd::prelude::*;
use vstd::utf8::*;

verus! {

/// `std::io::Error`, the error of `strip_ansi_escapes::strip`. Nothing is
/// said of what it holds.
#[verifier::external_type_specification]
#[verifier::external_body]
pub struct ExIoError(std::io::Error);

/// `std::string::FromUtf8Error`, the error of `String::from_utf8`. Nothing
/// is said of what it holds.
#[verifier::external_type_specification]
#[verifier::external_body]
pub struct ExFromUtf8Error(std::string::FromUtf8Error);

/// Why a line could not be tried on the grammar.
#[derive(Debug, Clone, Copy, PartialEq, Eq, Structural)]
pub enum LineError {
    /// The escape sequences could not be taken out.
    Escapes,
    /// What was left without them is not UTF-8.
    Encoding,
}

/// The bytes that `strip_ansi_escapes` leaves of `data`, or `None` where it
/// reports an error.
pub uninterp spec fn ansi_stripped(data: Seq<u8>) -> Option<Seq<u8>>;

/// Calls `strip_ansi_escapes::strip`.
///
/// The contract only names the outcome: the bytes that come back are
/// `ansi_stripped` of the argument, and an error comes back where that is
/// `None`.
#[verifier::external_body]
pub(crate) fn strip_ansi(data: &[u8]) -> (stripped: Result<Vec<u8>, std::io::Error>)
    ensures
        match stripped {
            Ok(bytes) => ansi_stripped(data@) == Some(bytes@),
            Err(_) => ansi_stripped(data@) is None,
        },
{
    strip_ansi_escapes::strip(data)
}

/// Calls `String::from_utf8`.
///
/// The contract states what std documents: the call succeeds if and only if
/// the bytes are valid UTF-8, and the string then holds exactly those bytes.
#[verifier::external_body]
pub(crate) fn string_from_utf8(bytes: Vec<u8>) -> (text: Result<
    String,
    std::string::FromUtf8Error,
>)
    ensures
        match text {
            Ok(text) => valid_utf8(bytes@) && encode_utf8(text@) == bytes@,
            Err(_) => !valid_utf8(bytes@),
        },
{
    String::from_utf8(bytes)
}

/// The text that a run of bytes encodes.
pub open spec fn spec_decode_line(bytes: Seq<u8>) -> Result<Seq<char>, LineError> {
    if valid_utf8(bytes) {
        Ok(decode_utf8(bytes))
    } else {
        Err(LineError::Encoding)
    }
}

/// What the grammar says of a line that is given as bytes, without escape
/// sequences: whether it is a log line, or why it could not be tried.
pub open spec fn spec_parse_stripped(bytes: Seq<u8>) -> Result<bool, LineError> {
    match spec_decode_line(bytes) {
        Ok(text) => Ok(spec_parse_cf_app_log(text) is Some),
        Err(error) => Err(error),
    }
}

/// What the grammar says of a line once its escape sequences are taken out.
pub open spec fn spec_parse_line(line: Seq<char>) -> Result<bool, LineError> {
    match ansi_stripped(encode_utf8(line)) {
        Some(bytes) => spec_parse_stripped(bytes),
        None => Err(LineError::Escapes),
    }
}

/// Whether a line counts as a log line: its escape sequences can be taken
/// out, and what is left is text that the grammar accepts.
pub open spec fn line_matches(line: Seq<char>) -> bool {
    spec_parse_line(line) == Ok::<bool, LineError>(true)
}

/// Reads bytes as text.
pub fn decode_line(bytes: Vec<u8>) -> (text: Result<String, LineError>)
    ensures
        match text {
            Ok(text) => spec_decode_line(bytes@) == Ok::<Seq<char>, LineError>(text@),
            Err(error) => spec_decode_line(bytes@) == Err::<Seq<char>, LineError>(error),
        },
{
    match string_from_utf8(bytes) {
        Ok(text) => {
            proof {
                encode_utf8_decode_utf8(text@);
            }
            Ok(text)
        },
        Err(_) => Err(LineError::Encoding),
    }
}

/// Tries the grammar on a line that is given as bytes, without escape
/// sequences.
pub fn parse_stripped(bytes: Vec<u8>) -> (outcome: Result<bool, LineError>)
    ensures
        outcome == spec_parse_stripped(bytes@),
{
    match decode_line(bytes) {
        Ok(text) => Ok(parse_cf_app_log(text.as_str()).is_ok()),
        Err(error) => Err(error),
    }
}

/// Takes the escape sequences out of a line and tries the grammar on what is
/// left.
pub fn parse_line(line: &str) -> (outcome: Result<bool, LineError>)
    ensures
        outcome == spec_parse_line(line@),
{
    match strip_ansi(line.as_bytes()) {
        Ok(bytes) => parse_stripped(bytes),
        Err(_) => Err(LineError::Escapes),
    }
}

} // verus!
