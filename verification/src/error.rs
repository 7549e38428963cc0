//! The error taxonomy of the transcript decoder.
//!
//! Two top-level kinds are always distinguishable by the caller: `Io` (the
//! input source could not be acquired at all) and `Json` (the acquired text
//! failed syntactic or structural decode).  A `Json` failure is further
//! classified as premature end of input, a syntax violation, or a data
//! violation (a missing required field, or a field of the wrong type).

use vstd::prelude::*;

verus! {

/// How a piece of transcript JSON failed to decode.
#[derive(Clone, Copy, Debug, PartialEq, Eq, Structural)]
pub enum JsonErrorKind {
    /// The input ended before a complete JSON value was read.
    Eof,
    /// The input holds a token or structure that is not valid JSON.
    Syntax,
    /// The input is valid JSON, but a required field is missing, a field is
    /// duplicated, or a value has the wrong type for the transcript model.
    Data,
}

/// A decode failure, with its classification and, for syntactic failures,
/// the character position at which the failure was noticed.
#[derive(Clone, Copy, Debug, PartialEq, Eq, Structural)]
pub struct JsonError {
    pub kind: JsonErrorKind,
    /// Character offset into the input for `Eof` and `Syntax` errors;
    /// `0` for `Data` errors, which concern the decoded tree as a whole.
    pub pos: usize,
}

impl JsonError {
    /// True when the input ended prematurely.
    pub fn is_eof(&self) -> (r: bool)
        ensures
            r == (self.kind is Eof),
    {
        match self.kind {
            JsonErrorKind::Eof => true,
            _ => false,
        }
    }

    /// True when the input violated JSON syntax.
    pub fn is_syntax(&self) -> (r: bool)
        ensures
            r == (self.kind is Syntax),
    {
        match self.kind {
            JsonErrorKind::Syntax => true,
            _ => false,
        }
    }

    /// True when the input was well-formed JSON of the wrong shape for the
    /// transcript model.
    pub fn is_data(&self) -> (r: bool)
        ensures
            r == (self.kind is Data),
    {
        match self.kind {
            JsonErrorKind::Data => true,
            _ => false,
        }
    }

    /// A short human-readable description of the failure class.
    pub fn describe(&self) -> (r: &'static str)
        ensures
            self.kind is Eof ==> r@ == "premature end of JSON input"@,
            self.kind is Syntax ==> r@ == "JSON syntax violation"@,
            self.kind is Data ==> r@ == "JSON data does not fit the transcript model"@,
    {
        match self.kind {
            JsonErrorKind::Eof => "premature end of JSON input",
            JsonErrorKind::Syntax => "JSON syntax violation",
            JsonErrorKind::Data => "JSON data does not fit the transcript model",
        }
    }
}

/// A failure of either transcript entry point: the source could not be read
/// at all, or the text it held could not be decoded.
#[derive(Debug)]
pub enum ParseError {
    /// The input source could not be opened or read.  Carries the attempted
    /// location and a description of the underlying cause.
    Io { path: String, cause: String },
    /// The input text failed syntactic or structural decode.
    Json(JsonError),
}

impl ParseError {
    /// True when the failure was in acquiring the source.
    pub fn is_io(&self) -> (r: bool)
        ensures
            r == (self is Io),
    {
        match self {
            ParseError::Io { .. } => true,
            _ => false,
        }
    }

    /// True when the failure was in decoding the text.
    pub fn is_json(&self) -> (r: bool)
        ensures
            r == (self is Json),
    {
        match self {
            ParseError::Json(_) => true,
            _ => false,
        }
    }
}

} // verus!
