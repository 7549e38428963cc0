//! Decoder, encoder and validator for a JSON-based timed-text caption
//! transcript wire format.
//!
//! The wire format is a single JSON object carrying a format tag
//! (`wireMagic`), rendering metadata records (`pens`, `wsWinStyles`,
//! `wpWinPositions`) and a timeline of caption events (`events`).  The
//! decoder is strict and fail-fast: it classifies every failure as premature
//! end of input, a syntax violation, or a data violation (a missing required
//! field or a wrong type), and never returns a partial transcript.  Unknown
//! keys are ignored at every nesting level, for forward compatibility.
//!
//! Reading a file is the caller's business: this library decodes in-memory
//! text, and a file-based entry point is a thin read-then-decode wrapper
//! around [`parse_transcript_from_str`], reporting a failed read as
//! [`ParseError::Io`].

use vstd::prelude::*;

pub mod chars;
pub mod decode;
pub mod encode;
pub mod error;
pub mod fields;
pub mod json;
pub mod laws;
pub mod model;
pub mod parse;
pub mod print;
pub mod tasks;

pub use error::{JsonError, JsonErrorKind, ParseError};
pub use model::{Event, Pen, Seg, Transcript, WpWinPosition, WsWinStyle};

verus! {

/// Decodes a transcript from in-memory JSON text.
///
/// The input must be one JSON object of the transcript shape (see
/// [`decode::spec_transcript_from_json`]); whitespace around it is allowed.
/// Every failure is classified: an input of nothing but whitespace (an
/// empty one included) ends as a premature-end-of-input error, an invalid
/// token or unclosed structure as an end-of-input or syntax error, and
/// well-formed JSON of the wrong shape as a data error.  An `Io` error is
/// never produced here: the text is already in memory.
///
/// The last clause of the contract is the round trip: the serialization of
/// any transcript (see [`print::transcript_to_json_string`], whose output is
/// `json_text` of the encoding) decodes back to exactly that transcript.
pub fn parse_transcript_from_str(text: &str) -> (r: Result<Transcript, ParseError>)
    ensures
        r matches Err(e) ==> e is Json,
        (forall|j: int| 0 <= j < text@.len() ==> parse::is_ws(text@[j])) ==> (r matches Err(e)
            && e matches ParseError::Json(je) && je.kind is Eof),
        forall|t: model::TranscriptRep|
            model::transcript_rep_wf(t) && text@ == print::json_text(
                #[trigger] encode::spec_transcript_to_json(t),
            ) ==> r is Ok && r->Ok_0@ == t,
{
    proof {
        assert forall|t: model::TranscriptRep|
            model::transcript_rep_wf(t) && text@ == print::json_text(
                #[trigger] encode::spec_transcript_to_json(t),
            ) implies json::num_free(encode::spec_transcript_to_json(t)) && json::ints_in_range(
            encode::spec_transcript_to_json(t),
        ) && json::jdepth(encode::spec_transcript_to_json(t)) <= parse::MAX_DEPTH
            && decode::spec_transcript_from_json(encode::spec_transcript_to_json(t)) == Some(
            t,
        ) by {
            encode::lemma_transcript_to_json_canonical(t);
            laws::lemma_transcript_round_trip(t);
        }
    }
    match parse::parse_json_text(text) {
        Ok(v) => match decode::transcript_from_json(&v) {
            Ok(t) => Ok(t),
            Err(je) => Err(ParseError::Json(je)),
        },
        Err(je) => Err(ParseError::Json(je)),
    }
}


} // verus!
