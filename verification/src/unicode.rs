//! Text encoding helpers: turning accumulated bytes into a `String`,
//! encoding a Unicode scalar value into UTF-8 bytes, and the relation
//! between ASCII bytes and the characters they decode to.

use vstd::prelude::*;

use vstd::utf8::{decode_utf8, encode_scalar, encode_utf8, is_scalar, valid_utf8};

use crate::numbers::ascii_chars;
use vstd::string::StringSliceAdditionalSpecFns;

verus! {

/// The bytes with the same codes as a sequence of ASCII characters.
pub open spec fn ascii_bytes(t: Seq<char>) -> Seq<u8> {
    Seq::new(
        t.len(),
        |i: int|
            if (t[i] as u32) < 128 {
                (t[i] as u32) as u8
            } else {
                0
            },
    )
}

/// A sequence of ASCII characters encodes to the bytes with the same
/// codes.
pub proof fn lemma_ascii_encode(t: Seq<char>)
    requires
        forall|i: int| 0 <= i < t.len() ==> (t[i] as u32) < 128,
    ensures
        encode_utf8(t) == ascii_bytes(t),
    decreases t.len(),
{
    if t.len() > 0 {
        let c = t[0] as u32;
        assert(c & 0x7F == c) by (bit_vector)
            requires
                c < 128,
        ;
        assert(encode_scalar(c) =~= seq![(t[0] as u32) as u8]);
        lemma_ascii_encode(t.drop_first());
        assert(encode_utf8(t) =~= ascii_bytes(t));
    } else {
        assert(encode_utf8(t) =~= ascii_bytes(t));
    }
}

/// Relies on `String::from_utf8`: it succeeds exactly on valid UTF-8 and
/// returns the decoded text.
#[verifier::external_body]
pub(crate) fn string_from_utf8(v: Vec<u8>) -> (r: Option<String>)
    ensures
        match r {
            Some(s) => valid_utf8(v@) && s@ == decode_utf8(v@),
            None => !valid_utf8(v@),
        },
{
    String::from_utf8(v).ok()
}

/// A sequence of ASCII bytes is valid UTF-8 and decodes to the characters
/// with the same codes.
pub proof fn lemma_ascii_decode(b: Seq<u8>)
    requires
        forall|i: int| 0 <= i < b.len() ==> b[i] < 128,
    ensures
        valid_utf8(b),
        decode_utf8(b) == ascii_chars(b),
    decreases b.len(),
{
    if b.len() > 0 {
        let b0 = b[0];
        assert(b0 & 0x7F == b0) by (bit_vector)
            requires
                b0 < 128,
        ;
        assert(vstd::utf8::pop_first_scalar(b) =~= b.skip(1));
        lemma_ascii_decode(b.skip(1));
        assert(decode_utf8(b) =~= ascii_chars(b));
    } else {
        assert(decode_utf8(b) =~= ascii_chars(b));
    }
}

/// Appends the UTF-8 encoding of the scalar value `u` to `v`.
pub(crate) fn push_scalar_utf8(v: &mut Vec<u8>, u: u32)
    requires
        is_scalar(u),
    ensures
        final(v)@ == old(v)@ + encode_scalar(u),
{
    if u <= 0x7F {
        v.push((u & 0x7F) as u8);
    } else if u <= 0x7FF {
        v.push(0xC0 | (((u >> 6) & 0x1F) as u8));
        v.push(0x80 | ((u & 0x3F) as u8));
    } else if u <= 0xFFFF {
        v.push(0xE0 | (((u >> 12) & 0x0F) as u8));
        v.push(0x80 | (((u >> 6) & 0x3F) as u8));
        v.push(0x80 | ((u & 0x3F) as u8));
    } else {
        v.push(0xF0 | (((u >> 18) & 0x7) as u8));
        v.push(0x80 | (((u >> 12) & 0x3F) as u8));
        v.push(0x80 | (((u >> 6) & 0x3F) as u8));
        v.push(0x80 | ((u & 0x3F) as u8));
    }
    proof {
        assert(v@ =~= old(v)@ + encode_scalar(u));
    }
}

/// Appends the replacement character U+FFFD, encoded in UTF-8, to `v`.
/// It stands in for Unicode escape data that does not decode to a scalar
/// value.
pub fn push_replacement(v: &mut Vec<u8>)
    ensures
        final(v)@ == old(v)@ + encode_scalar(0xFFFD),
{
    push_scalar_utf8(v, 0xFFFD);
}

/// Text equality, decided on the UTF-8 bytes: two pieces of text are
/// equal exactly when their encodings are.
pub fn str_eq(a: &str, b: &str) -> (r: bool)
    ensures
        r == (a@ == b@),
{
    proof {
        vstd::utf8::encode_utf8_decode_utf8(a@);
        vstd::utf8::encode_utf8_decode_utf8(b@);
    }
    let ab = a.as_bytes();
    let bb = b.as_bytes();
    if ab.len() != bb.len() {
        return false;
    }
    let n = ab.len();
    let mut i: usize = 0;
    while i < n
        invariant
            n == ab@.len() == bb@.len(),
            0 <= i <= n,
            forall|j: int| 0 <= j < i ==> ab@[j] == bb@[j],
            ab@ == a.spec_bytes(),
            bb@ == b.spec_bytes(),
        decreases n - i,
    {
        if ab[i] != bb[i] {
            return false;
        }
        i += 1;
    }
    proof {
        assert(ab@ =~= bb@);
    }
    true
}

} // verus!
