//! The byte-stream that the parser consumes, built on the `pacosso`
//! streaming framework over an in-memory cursor.
//!
//! Everything in this module that carries `#[verifier::external_body]` is
//! trusted: its contract states what the corresponding `pacosso` (or std)
//! operation does, as that crate's source shows it, and the verifier
//! believes it without proof.  The two uninterpreted functions
//! [`cursor_rest`] and [`stream_rest`] name the bytes such a value has
//! not yet handed out; every contract below is phrased over them.
//!
//! A [`JsonStream`] can only be built by [`JsonStream::new`], which fixes
//! the stream options to `pacosso`'s defaults (buffers of 8192 bytes,
//! five of them).  The contracts below rely on that: they hold for
//! operations that touch at most a few bytes at a time on a stream with
//! valid options, which is every stream this module can produce.

use vstd::prelude::*;

use crate::errors::JsonError;
use crate::grammar::{digit_run, is_digit, ws_run};
use vstd::string::StringSliceAdditionalSpecFns;
use vstd::utf8::valid_utf8;

verus! {

/// Declares std's in-memory cursor so that it can stand in signatures.
#[verifier::external_type_specification]
#[verifier::external_body]
#[verifier::reject_recursive_types(T)]
pub struct ExIoCursor<T>(std::io::Cursor<T>);

/// Declares `pacosso`'s error type so that the conversion below can take
/// it.
#[verifier::external_type_specification]
#[verifier::external_body]
pub struct ExParseError(pacosso::ParseError);

/// A `pacosso` byte stream over an in-memory cursor.  The stream type
/// itself cannot be declared to the verifier (its generics carry a trait
/// the verifier does not know), so it is held opaquely here.  The field
/// is private: every value of this type was made by [`JsonStream::new`]
/// and so carries the default stream options, which the contracts of
/// this module assume.
#[verifier::external_body]
pub struct JsonStream<'a> {
    inner: pacosso::Stream<'a, std::io::Cursor<Vec<u8>>>,
}

/// The bytes that remain to be read from a cursor, from its position to
/// its end.
pub uninterp spec fn cursor_rest(c: std::io::Cursor<Vec<u8>>) -> Seq<u8>;

/// The bytes that a stream has not yet consumed.
pub uninterp spec fn stream_rest(s: JsonStream) -> Seq<u8>;

/// Relies on `std::io::Cursor::new`: a fresh cursor stands at position
/// zero, so all of `v` remains to be read.
#[verifier::external_body]
pub fn cursor_new(v: Vec<u8>) -> (c: std::io::Cursor<Vec<u8>>)
    ensures
        cursor_rest(c) == v@,
{
    std::io::Cursor::new(v)
}

/// Relies on `pacosso`'s error classification: `is_eof` and
/// `is_expected_token` sort a `Failed` error by its message, and every
/// other variant lies outside the grammar.
#[verifier::external_body]
fn from_parse_error(e: pacosso::ParseError) -> JsonError {
    let (eof, exp) = (e.is_eof(), e.is_expected_token());
    match e {
        pacosso::ParseError::Failed(m, c) if eof => JsonError::EndOfInput(c.stream),
        pacosso::ParseError::Failed(m, c) if exp => JsonError::ExpectedToken(m, c.stream),
        pacosso::ParseError::Failed(m, c) => JsonError::Failed(m, c.stream),
        other => JsonError::Stream(format!("{:?}", other)),
    }
}

impl<'a> JsonStream<'a> {
    /// Relies on `pacosso::Stream::new` with the default options: the
    /// stream yields exactly the bytes the cursor had left.
    #[verifier::external_body]
    pub fn new(input: &'a mut std::io::Cursor<Vec<u8>>) -> (s: JsonStream<'a>)
        ensures
            stream_rest(s) == cursor_rest(*old(input)),
    {
        JsonStream { inner: pacosso::Stream::new(pacosso::Opts::default(), input) }
    }

    /// Relies on `pacosso::Stream::skip_whitespace`: it consumes the
    /// maximal whitespace prefix and always succeeds.
    #[verifier::external_body]
    pub(crate) fn skip_whitespace(&mut self)
        ensures
            stream_rest(*final(self)) == stream_rest(*old(self)).skip(ws_run(stream_rest(*old(self))) as int),
    {
        let _ = self.inner.skip_whitespace();
    }

    /// Relies on `pacosso::Stream::peek_byte`: it returns the next byte
    /// without consuming it, and fails only at the end of the input.
    #[verifier::external_body]
    pub(crate) fn peek_byte(&mut self) -> (r: Result<u8, JsonError>)
        ensures
            stream_rest(*final(self)) == stream_rest(*old(self)),
            match r {
                Ok(b) => stream_rest(*old(self)).len() > 0 && b == stream_rest(*old(self))[0],
                Err(e) => stream_rest(*old(self)).len() == 0 && e is EndOfInput,
            },
    {
        match self.inner.peek_byte() {
            Ok(b) => Ok(b),
            Err(e) => Err(from_parse_error(e)),
        }
    }

    /// Relies on `pacosso::Stream::any_byte`: it consumes and returns the
    /// next byte, and fails only at the end of the input.
    #[verifier::external_body]
    pub(crate) fn any_byte(&mut self) -> (r: Result<u8, JsonError>)
        ensures
            match r {
                Ok(b) => {
                    &&& stream_rest(*old(self)).len() > 0
                    &&& b == stream_rest(*old(self))[0]
                    &&& stream_rest(*final(self)) == stream_rest(*old(self)).skip(1)
                },
                Err(e) => {
                    &&& stream_rest(*old(self)).len() == 0
                    &&& stream_rest(*final(self)) == stream_rest(*old(self))
                    &&& e is EndOfInput
                },
            },
    {
        match self.inner.any_byte() {
            Ok(b) => Ok(b),
            Err(e) => Err(from_parse_error(e)),
        }
    }

    /// Relies on `pacosso::Stream::byte`: it consumes the next byte if it
    /// equals `ch`; on any failure it consumes nothing, reporting
    /// end-of-input on an empty stream and expected-token on a mismatch.
    #[verifier::external_body]
    pub(crate) fn byte(&mut self, ch: u8) -> (r: Result<(), JsonError>)
        ensures
            match r {
                Ok(()) => {
                    &&& stream_rest(*old(self)).len() > 0
                    &&& stream_rest(*old(self))[0] == ch
                    &&& stream_rest(*final(self)) == stream_rest(*old(self)).skip(1)
                },
                Err(e) => {
                    &&& stream_rest(*final(self)) == stream_rest(*old(self))
                    &&& (stream_rest(*old(self)).len() == 0 ==> e is EndOfInput)
                    &&& (stream_rest(*old(self)).len() > 0 ==> stream_rest(*old(self))[0] != ch
                        && e is ExpectedToken)
                },
            },
    {
        match self.inner.byte(ch) {
            Ok(()) => Ok(()),
            Err(e) => Err(from_parse_error(e)),
        }
    }

    /// Relies on `pacosso::Stream::one_of_bytes`: it consumes the next
    /// byte if it is in the set; on failure it consumes nothing,
    /// reporting end-of-input on an empty stream and expected-token when
    /// the next byte is outside the set.
    #[verifier::external_body]
    pub(crate) fn one_of_bytes(&mut self, bs: &[u8]) -> (r: Result<(), JsonError>)
        ensures
            match r {
                Ok(()) => {
                    &&& stream_rest(*old(self)).len() > 0
                    &&& bs@.contains(stream_rest(*old(self))[0])
                    &&& stream_rest(*final(self)) == stream_rest(*old(self)).skip(1)
                },
                Err(e) => {
                    &&& stream_rest(*final(self)) == stream_rest(*old(self))
                    &&& (stream_rest(*old(self)).len() == 0 ==> e is EndOfInput)
                    &&& (stream_rest(*old(self)).len() > 0 ==> !bs@.contains(
                        stream_rest(*old(self))[0],
                    ) && e is ExpectedToken)
                },
            },
    {
        match self.inner.one_of_bytes(bs) {
            Ok(()) => Ok(()),
            Err(e) => Err(from_parse_error(e)),
        }
    }

    /// Relies on `pacosso::Stream::digits`: it consumes the maximal run
    /// of ASCII digit bytes and returns them, failing without consuming
    /// anything when there is none — with end-of-input on an empty
    /// stream, and expected-token when the next byte is not a digit.
    #[verifier::external_body]
    pub(crate) fn digits(&mut self) -> (r: Result<Vec<u8>, JsonError>)
        ensures
            match r {
                Ok(v) => {
                    &&& digit_run(stream_rest(*old(self))) >= 1
                    &&& v@ == stream_rest(*old(self)).take(digit_run(stream_rest(*old(self))) as int)
                    &&& stream_rest(*final(self)) == stream_rest(*old(self)).skip(
                        digit_run(stream_rest(*old(self))) as int,
                    )
                },
                Err(e) => {
                    &&& stream_rest(*final(self)) == stream_rest(*old(self))
                    &&& digit_run(stream_rest(*old(self))) == 0
                    &&& (stream_rest(*old(self)).len() == 0 ==> e is EndOfInput)
                    &&& (stream_rest(*old(self)).len() > 0 ==> !is_digit(
                        stream_rest(*old(self))[0],
                    ) && e is ExpectedToken)
                },
            },
    {
        match self.inner.digits() {
            Ok(v) => Ok(v),
            Err(e) => Err(from_parse_error(e)),
        }
    }

    /// Relies on `pacosso::Stream::get_bytes`: it consumes and returns
    /// exactly `n` bytes, or fails with end-of-input, consuming nothing,
    /// when fewer remain.  Requests stay far below the stream's buffer
    /// space.
    #[verifier::external_body]
    pub(crate) fn get_bytes(&mut self, n: usize) -> (r: Result<Vec<u8>, JsonError>)
        requires
            n <= 4096,
        ensures
            match r {
                Ok(v) => {
                    &&& stream_rest(*old(self)).len() >= n
                    &&& v@ == stream_rest(*old(self)).take(n as int)
                    &&& stream_rest(*final(self)) == stream_rest(*old(self)).skip(n as int)
                },
                Err(e) => {
                    &&& stream_rest(*final(self)) == stream_rest(*old(self))
                    &&& stream_rest(*old(self)).len() < n
                    &&& e is EndOfInput
                },
            },
    {
        match self.inner.get_bytes(n) {
            Ok(v) => Ok(v),
            Err(e) => Err(from_parse_error(e)),
        }
    }

    /// Relies on `pacosso::Stream::bytes`: an atomic multi-byte literal
    /// match that consumes the pattern exactly when the stream starts
    /// with it; on failure it consumes nothing, reporting end-of-input
    /// when fewer bytes remain than the pattern holds and expected-token
    /// on a mismatch.
    #[verifier::external_body]
    pub(crate) fn bytes(&mut self, pattern: &[u8]) -> (r: Result<(), JsonError>)
        requires
            pattern@.len() <= 4096,
        ensures
            match r {
                Ok(()) => {
                    &&& stream_rest(*old(self)).len() >= pattern@.len()
                    &&& stream_rest(*old(self)).take(pattern@.len() as int) == pattern@
                    &&& stream_rest(*final(self)) == stream_rest(*old(self)).skip(pattern@.len() as int)
                },
                Err(e) => {
                    &&& stream_rest(*final(self)) == stream_rest(*old(self))
                    &&& (stream_rest(*old(self)).len() < pattern@.len() ==> e is EndOfInput)
                    &&& (stream_rest(*old(self)).len() >= pattern@.len() ==> stream_rest(
                        *old(self),
                    ).take(pattern@.len() as int) != pattern@ && e is ExpectedToken)
                },
            },
    {
        match self.inner.bytes(pattern) {
            Ok(()) => Ok(()),
            Err(e) => Err(from_parse_error(e)),
        }
    }

    /// Relies on `pacosso::Stream::string`: it reads as many bytes as the
    /// literal holds and compares; on failure it consumes nothing,
    /// reporting end-of-input when too few bytes remain, a hard failure
    /// when the bytes read are not valid text, and expected-token on a
    /// plain mismatch.
    #[verifier::external_body]
    pub(crate) fn string(&mut self, pattern: &str) -> (r: Result<(), JsonError>)
        requires
            pattern@.len() <= 4096,
        ensures
            match r {
                Ok(()) => {
                    &&& stream_rest(*old(self)).len() >= pattern.spec_bytes().len()
                    &&& stream_rest(*old(self)).take(pattern.spec_bytes().len() as int)
                        == pattern.spec_bytes()
                    &&& stream_rest(*final(self)) == stream_rest(*old(self)).skip(
                        pattern.spec_bytes().len() as int,
                    )
                },
                Err(e) => {
                    let lit = pattern.spec_bytes();
                    let front = stream_rest(*old(self)).take(lit.len() as int);
                    &&& stream_rest(*final(self)) == stream_rest(*old(self))
                    &&& (stream_rest(*old(self)).len() < lit.len() ==> e is EndOfInput)
                    &&& (stream_rest(*old(self)).len() >= lit.len() ==> front != lit && (
                    if valid_utf8(front) {
                        e is ExpectedToken
                    } else {
                        e is Failed
                    }))
                },
            },
    {
        match self.inner.string(pattern) {
            Ok(()) => Ok(()),
            Err(e) => Err(from_parse_error(e)),
        }
    }

    /// Relies on `pacosso::Stream::position`: the byte offset of the
    /// cursor in the overall stream, for diagnostics.
    #[verifier::external_body]
    pub(crate) fn position(&self) -> u64 {
        self.inner.position().stream
    }
}

} // verus!
