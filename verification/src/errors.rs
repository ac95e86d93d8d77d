//! The error type that `parse` surfaces.
//!
//! The streaming layer classifies its failures by kind: an expected token
//! that was absent (benign for optional grammar pieces), the end of the
//! input, or a hard failure with a message.  The position is the byte
//! offset in the overall stream where the failure was noticed; it serves
//! diagnostics only, and no contract of this crate pins it down.

use vstd::prelude::*;

use crate::grammar::JErr;
use crate::numbers::dec_str;

verus! {

/// An error from parsing a Json value.
#[derive(Debug)]
pub enum JsonError {
    /// A specific expected token was absent at the cursor position.
    /// Carries the diagnostic message and the byte offset.
    ExpectedToken(String, u64),
    /// The input ended before the production was complete.  Carries the
    /// byte offset.
    EndOfInput(u64),
    /// A hard grammar failure: a malformed literal, a duplicate object
    /// key, an invalid escape, invalid text encoding, or an internal
    /// invariant break.  Carries the message and the byte offset.
    Failed(String, u64),
    /// A failure of the streaming layer itself rather than of the
    /// grammar, such as I/O trouble or exhausted stream buffers.
    Stream(String),
}

impl JsonError {
    /// True exactly for the expected-token classification, the benign
    /// signal that drives optional grammar pieces.
    pub fn is_expected_token(&self) -> (r: bool)
        ensures
            r == (self is ExpectedToken),
    {
        matches!(self, JsonError::ExpectedToken(_, _))
    }

    /// True exactly for the end-of-input classification.
    pub fn is_eof(&self) -> (r: bool)
        ensures
            r == (self is EndOfInput),
    {
        matches!(self, JsonError::EndOfInput(_))
    }
}

/// Message of the hard failure for a boolean production gone wrong.
pub open spec fn msg_bad_bool() -> Seq<char> {
    "boolean value expected"@
}

/// Message of the hard failure for string bytes that are not valid text.
pub open spec fn msg_unicode() -> Seq<char> {
    "unicode error"@
}

/// Message of the hard failure for a broken internal invariant.
pub open spec fn msg_internal() -> Seq<char> {
    "internal error"@
}

/// Message of the hard failure for a repeated object key, naming the key.
pub open spec fn msg_dup_key(k: Seq<char>) -> Seq<char> {
    "duplicated key '"@ + k + "' in object"@
}

/// Message of the hard failure for an unknown escape byte, showing the
/// byte in decimal.
pub open spec fn msg_bad_escape(c: u8) -> Seq<char> {
    "unknown escape sequence "@ + dec_str(c as nat)
}

/// Message of the hard failure for a byte that is no hexadecimal digit,
/// showing the byte (after lower-casing) in decimal.
pub open spec fn msg_bad_hex(c: u8) -> Seq<char> {
    "hexadecimal expected, have: "@ + dec_str(c as nat)
}

/// How a surfaced [`JsonError`] corresponds to the grammar's error
/// classification: the kind always matches, and where this crate builds
/// the message itself the message is pinned down too.  Positions and the
/// messages that the streaming layer phrases are diagnostic only.
pub open spec fn err_matches(e: JsonError, k: JErr) -> bool {
    match k {
        JErr::Eof => e is EndOfInput,
        JErr::Expected => e is ExpectedToken,
        JErr::StreamSide => e is Failed,
        JErr::BadBool => e matches JsonError::Failed(m, _) && m@ == msg_bad_bool(),
        JErr::BadEscape(c) => e matches JsonError::Failed(m, _) && m@ == msg_bad_escape(c),
        JErr::BadHex(c) => e matches JsonError::Failed(m, _) && m@ == msg_bad_hex(c),
        JErr::StrUtf8 => e matches JsonError::Failed(m, _) && m@ == msg_unicode(),
        JErr::DupKey(key) => e matches JsonError::Failed(m, _) && m@ == msg_dup_key(key),
        JErr::Internal => e matches JsonError::Failed(m, _) && m@ == msg_internal(),
    }
}

} // verus!
