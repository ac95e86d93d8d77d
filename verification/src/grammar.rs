//! The Json grammar as a mathematical function on byte sequences.
//!
//! Every parsing production of this crate has a specification here: a
//! function from the unconsumed bytes to either a value model and the
//! bytes left over, or an error classification.  The executable parser's
//! contracts say that it returns exactly what these functions compute.

use vstd::prelude::*;

use crate::{has_key, JsonModel};
use vstd::utf8::{decode_utf8, encode_scalar, valid_utf8};

verus! {

/// The outcome of a grammar production on a byte sequence: a result and
/// the bytes that remain, or an error classification.
pub enum PRes<T> {
    Done(T, Seq<u8>),
    Fail(JErr),
}

/// The classification of a parse failure, as the grammar defines it.
/// `Eof` and `Expected` are the two benign kinds that optional grammar
/// pieces probe for; everything else is a hard failure.  The kinds that
/// this crate's own code raises carry what their diagnostic message is
/// built from; `StreamSide` stands for a hard failure that the streaming
/// layer built itself, whose message this crate does not pin down.
pub enum JErr {
    /// The input ended inside a production.
    Eof,
    /// A specific token was absent at the cursor.
    Expected,
    /// A hard failure raised by the streaming layer (bytes that are not
    /// valid text where a literal was matched).
    StreamSide,
    /// A boolean production saw neither `t` nor `f`.
    BadBool,
    /// An unknown byte followed a backslash in a string.
    BadEscape(u8),
    /// A byte that is not a hexadecimal digit stood in a Unicode escape;
    /// carries the byte after lower-casing.
    BadHex(u8),
    /// The bytes of a string did not form valid text.
    StrUtf8,
    /// An object held the same key twice.
    DupKey(Seq<char>),
    /// An internal invariant broke (unreachable for a correct grammar).
    Internal,
}

/// The whitespace bytes of the streaming layer: space, linefeed,
/// carriage return and tab.
pub open spec fn is_ws(b: u8) -> bool {
    b == 32 || b == 10 || b == 13 || b == 9
}

/// An ASCII digit byte.
pub open spec fn is_digit(b: u8) -> bool {
    48 <= b <= 57
}

/// Length of the maximal whitespace prefix of `s`.
pub open spec fn ws_run(s: Seq<u8>) -> nat
    decreases s.len(),
{
    if s.len() > 0 && is_ws(s[0]) {
        1 + ws_run(s.skip(1))
    } else {
        0
    }
}

/// Length of the maximal digit prefix of `s`.
pub open spec fn digit_run(s: Seq<u8>) -> nat
    decreases s.len(),
{
    if s.len() > 0 && is_digit(s[0]) {
        1 + digit_run(s.skip(1))
    } else {
        0
    }
}

/// The bytes after the maximal whitespace prefix.  The branch keeps the
/// bound on the result's length visible to the termination checker; the
/// run never actually exceeds the sequence (see [`lemma_ws_run`]).
pub open spec fn skip_ws(s: Seq<u8>) -> Seq<u8> {
    if ws_run(s) <= s.len() {
        s.skip(ws_run(s) as int)
    } else {
        s
    }
}

/// Matching a fixed literal: consume exactly the literal's bytes.  When
/// too few bytes remain the input ended; otherwise, bytes that are not
/// valid text make the streaming layer fail hard, and a plain mismatch is
/// the benign expected-token failure.
pub open spec fn spec_literal(s: Seq<u8>, lit: Seq<u8>) -> PRes<()> {
    if s.len() < lit.len() {
        PRes::Fail(JErr::Eof)
    } else if s.take(lit.len() as int) == lit {
        PRes::Done((), s.skip(lit.len() as int))
    } else if valid_utf8(s.take(lit.len() as int)) {
        PRes::Fail(JErr::Expected)
    } else {
        PRes::Fail(JErr::StreamSide)
    }
}

/// The `null` production: expect the literal `null`.
pub open spec fn spec_jnil(s: Seq<u8>) -> PRes<JsonModel> {
    match spec_literal(s, seq![110, 117, 108, 108]) {
        PRes::Done(_, r) => PRes::Done(JsonModel::Null, r),
        PRes::Fail(k) => PRes::Fail(k),
    }
}

/// The boolean production: consume one byte; `f` must be followed by
/// `alse`, `t` by `rue`; any other first byte is a hard failure.
pub open spec fn spec_jboolean(s: Seq<u8>) -> PRes<JsonModel> {
    if s.len() == 0 {
        PRes::Fail(JErr::Eof)
    } else if s[0] == 102 {
        match spec_literal(s.skip(1), seq![97, 108, 115, 101]) {
            PRes::Done(_, r) => PRes::Done(JsonModel::Boolean(false), r),
            PRes::Fail(k) => PRes::Fail(k),
        }
    } else if s[0] == 116 {
        match spec_literal(s.skip(1), seq![114, 117, 101]) {
            PRes::Done(_, r) => PRes::Done(JsonModel::Boolean(true), r),
            PRes::Fail(k) => PRes::Fail(k),
        }
    } else {
        PRes::Fail(JErr::BadBool)
    }
}

/// Lower-casing of an ASCII byte, as `u8::to_ascii_lowercase` does it.
pub open spec fn lower_byte(b: u8) -> u8 {
    if 65 <= b <= 90 {
        (b + 32) as u8
    } else {
        b
    }
}

/// A lower-case hexadecimal digit byte.
pub open spec fn is_hex(b: u8) -> bool {
    is_digit(b) || (97 <= b <= 102)
}

/// The value of a lower-case hexadecimal digit byte.
pub open spec fn hex_val(b: u8) -> u16
    recommends
        is_hex(b),
{
    if is_digit(b) {
        (b - 48) as u16
    } else {
        (b + 10 - 97) as u16
    }
}

/// Four hexadecimal digits (case-insensitive) decoded into a 16-bit code
/// unit.  Reading past the end of the input is fatal; so is a byte that
/// is not a hexadecimal digit, reported with the byte after lower-casing.
pub open spec fn spec_utf16(s: Seq<u8>) -> PRes<u16> {
    if s.len() < 4 {
        PRes::Fail(JErr::Eof)
    } else if !is_hex(lower_byte(s[0])) {
        PRes::Fail(JErr::BadHex(lower_byte(s[0])))
    } else if !is_hex(lower_byte(s[1])) {
        PRes::Fail(JErr::BadHex(lower_byte(s[1])))
    } else if !is_hex(lower_byte(s[2])) {
        PRes::Fail(JErr::BadHex(lower_byte(s[2])))
    } else if !is_hex(lower_byte(s[3])) {
        PRes::Fail(JErr::BadHex(lower_byte(s[3])))
    } else {
        PRes::Done(
            (hex_val(lower_byte(s[0])) * 4096 + hex_val(lower_byte(s[1])) * 256 + hex_val(
                lower_byte(s[2]),
            ) * 16 + hex_val(lower_byte(s[3]))) as u16,
            s.skip(4),
        )
    }
}

/// A 16-bit code unit in the surrogate range.
pub open spec fn is_surrogate(u: u16) -> bool {
    0xD800 <= u < 0xE000
}

/// A high (leading) surrogate.
pub open spec fn is_high_surrogate(u: u16) -> bool {
    0xD800 <= u < 0xDC00
}

/// A low (trailing) surrogate.
pub open spec fn is_low_surrogate(u: u16) -> bool {
    0xDC00 <= u < 0xE000
}

/// The scalar value that a surrogate pair encodes.
pub open spec fn combine_surrogates(hi: u16, lo: u16) -> u32
    recommends
        is_high_surrogate(hi),
        is_low_surrogate(lo),
{
    (0x10000 + (hi - 0xD800) * 0x400 + (lo - 0xDC00)) as u32
}

/// The Unicode escape production, after `\u` was consumed: four
/// hexadecimal digits give a code unit.  A unit outside the surrogate
/// range is appended (UTF-8 encoded) to the accumulated string bytes.
/// A surrogate probes for a following `\u` escape: if one follows and
/// the two units form a valid pair, the combined scalar is appended; any
/// other outcome of the combination, and a surrogate with no following
/// `\u` escape, appends one replacement character instead — malformed
/// surrogate data degrades the text but never aborts the parse.
pub open spec fn spec_codepoint(s: Seq<u8>, acc: Seq<u8>) -> PRes<Seq<u8>> {
    match spec_utf16(s) {
        PRes::Fail(k) => PRes::Fail(k),
        PRes::Done(u1, r) => {
            if !is_surrogate(u1) {
                PRes::Done(acc + encode_scalar(u1 as u32), r)
            } else if r.len() >= 2 && r[0] == 92 && r[1] == 117 {
                match spec_utf16(r.skip(2)) {
                    PRes::Fail(k) => PRes::Fail(k),
                    PRes::Done(u2, r2) => {
                        if is_high_surrogate(u1) && is_low_surrogate(u2) {
                            PRes::Done(acc + encode_scalar(combine_surrogates(u1, u2)), r2)
                        } else {
                            PRes::Done(acc + encode_scalar(0xFFFD), r2)
                        }
                    },
                }
            } else {
                PRes::Done(acc + encode_scalar(0xFFFD), r)
            }
        },
    }
}

/// The escape production, after the backslash was consumed: one byte
/// selects the escaped byte, `u` starts a Unicode escape, and anything
/// else is a hard failure naming the byte.
pub open spec fn spec_escape(s: Seq<u8>, acc: Seq<u8>) -> PRes<Seq<u8>> {
    if s.len() == 0 {
        PRes::Fail(JErr::Eof)
    } else if s[0] == 92 {
        PRes::Done(acc.push(92), s.skip(1))
    } else if s[0] == 34 {
        PRes::Done(acc.push(34), s.skip(1))
    } else if s[0] == 47 {
        PRes::Done(acc.push(47), s.skip(1))
    } else if s[0] == 98 {
        PRes::Done(acc.push(8), s.skip(1))
    } else if s[0] == 102 {
        PRes::Done(acc.push(12), s.skip(1))
    } else if s[0] == 110 {
        PRes::Done(acc.push(10), s.skip(1))
    } else if s[0] == 114 {
        PRes::Done(acc.push(13), s.skip(1))
    } else if s[0] == 116 {
        PRes::Done(acc.push(9), s.skip(1))
    } else if s[0] == 117 {
        spec_codepoint(s.skip(1), acc)
    } else {
        PRes::Fail(JErr::BadEscape(s[0]))
    }
}

/// The body of the string production, after the opening quote: bytes are
/// accumulated verbatim, a backslash defers to the escape production, and
/// the closing quote ends the scan, at which point the accumulated bytes
/// must form valid text.
pub open spec fn spec_string_body(s: Seq<u8>, acc: Seq<u8>) -> PRes<Seq<char>>
    decreases s.len(),
{
    if s.len() == 0 {
        PRes::Fail(JErr::Eof)
    } else if s[0] == 92 {
        match spec_escape(s.skip(1), acc) {
            PRes::Fail(k) => PRes::Fail(k),
            PRes::Done(acc2, r) => {
                if r.len() < s.len() {
                    spec_string_body(r, acc2)
                } else {
                    PRes::Fail(JErr::Internal)
                }
            },
        }
    } else if s[0] == 34 {
        if valid_utf8(acc) {
            PRes::Done(decode_utf8(acc), s.skip(1))
        } else {
            PRes::Fail(JErr::StrUtf8)
        }
    } else {
        spec_string_body(s.skip(1), acc.push(s[0]))
    }
}

/// The quoted-string production: an opening quote, the scanned body, a
/// closing quote.
pub open spec fn spec_plain_string(s: Seq<u8>) -> PRes<Seq<char>> {
    if s.len() == 0 {
        PRes::Fail(JErr::Eof)
    } else if s[0] != 34 {
        PRes::Fail(JErr::Expected)
    } else {
        spec_string_body(s.skip(1), Seq::empty())
    }
}

/// The string production as a value.
pub open spec fn spec_jstring(s: Seq<u8>) -> PRes<JsonModel> {
    match spec_plain_string(s) {
        PRes::Done(t, r) => PRes::Done(JsonModel::String(t), r),
        PRes::Fail(k) => PRes::Fail(k),
    }
}

/// The fraction piece, after the dot was consumed: one or more digits,
/// appended to the number's text after a dot.
pub open spec fn spec_jfrac(s: Seq<u8>, v: Seq<u8>) -> PRes<Seq<u8>> {
    let k = digit_run(s);
    if k == 0 {
        if s.len() == 0 {
            PRes::Fail(JErr::Eof)
        } else {
            PRes::Fail(JErr::Expected)
        }
    } else {
        PRes::Done(v.push(46) + s.take(k as int), s.skip(k as int))
    }
}

/// The exponent piece, after `e` or `E` was consumed: an optional sign —
/// a minus is kept, a plus is dropped — then one or more digits, appended
/// to the number's text after a lower-case `e`.
pub open spec fn spec_jexp(s: Seq<u8>, v: Seq<u8>) -> PRes<Seq<u8>> {
    if s.len() == 0 {
        PRes::Fail(JErr::Eof)
    } else {
        let (v1, s1) = if s[0] == 45 {
            (v.push(101).push(45), s.skip(1))
        } else if s[0] == 43 {
            (v.push(101), s.skip(1))
        } else {
            (v.push(101), s)
        };
        let k = digit_run(s1);
        if k == 0 {
            if s1.len() == 0 {
                PRes::Fail(JErr::Eof)
            } else {
                PRes::Fail(JErr::Expected)
            }
        } else {
            PRes::Done(v1 + s1.take(k as int), s1.skip(k as int))
        }
    }
}

/// Closing step of the number production: the accumulated literal text
/// becomes the value.  The text is ASCII by construction, so the failure
/// branch is unreachable, but it mirrors the code's final conversion.
pub open spec fn spec_number_finish(v: Seq<u8>, s: Seq<u8>) -> PRes<JsonModel> {
    if valid_utf8(v) {
        PRes::Done(JsonModel::Number(decode_utf8(v)), s)
    } else {
        PRes::Fail(JErr::Internal)
    }
}

/// The optional fraction and exponent pieces of the number production.
/// Each is probed by its first byte; the probe's absence is benign, and
/// failures inside a piece propagate.
pub open spec fn spec_number_tail(v: Seq<u8>, s: Seq<u8>) -> PRes<JsonModel> {
    let frac = if s.len() > 0 && s[0] == 46 {
        spec_jfrac(s.skip(1), v)
    } else {
        PRes::Done(v, s)
    };
    match frac {
        PRes::Fail(k) => PRes::Fail(k),
        PRes::Done(v2, s2) => {
            if s2.len() > 0 && (s2[0] == 101 || s2[0] == 69) {
                match spec_jexp(s2.skip(1), v2) {
                    PRes::Fail(k) => PRes::Fail(k),
                    PRes::Done(v3, s3) => spec_number_finish(v3, s3),
                }
            } else {
                spec_number_finish(v2, s2)
            }
        },
    }
}

/// The number production: an optional minus, then either a single zero or
/// a run of digits with no leading zero, then the optional fraction and
/// exponent pieces.  The minus and zero probes treat only an absent token
/// as benign, so a number cut short by the end of the input is fatal.
pub open spec fn spec_jnumber(s: Seq<u8>) -> PRes<JsonModel> {
    if s.len() == 0 {
        PRes::Fail(JErr::Eof)
    } else {
        let (v1, s1) = if s[0] == 45 {
            (seq![45u8], s.skip(1))
        } else {
            (Seq::<u8>::empty(), s)
        };
        if s1.len() == 0 {
            PRes::Fail(JErr::Eof)
        } else if s1[0] == 48 {
            spec_number_tail(v1.push(48), s1.skip(1))
        } else {
            let k = digit_run(s1);
            if k == 0 {
                PRes::Fail(JErr::Expected)
            } else {
                spec_number_tail(v1 + s1.take(k as int), s1.skip(k as int))
            }
        }
    }
}

/// The value production: the next unconsumed byte deterministically
/// selects a production, with no backtracking across alternatives; an
/// empty input is the end-of-input failure.
pub open spec fn spec_jvalue(s: Seq<u8>) -> PRes<JsonModel>
    decreases s.len(), 1int,
{
    if s.len() == 0 {
        PRes::Fail(JErr::Eof)
    } else if s[0] == 34 {
        spec_jstring(s)
    } else if s[0] == 123 {
        spec_jobject(s)
    } else if s[0] == 91 {
        spec_jarray(s)
    } else if s[0] == 110 {
        spec_jnil(s)
    } else if s[0] == 116 || s[0] == 102 {
        spec_jboolean(s)
    } else {
        spec_jnumber(s)
    }
}

/// The array production: `[`, whitespace, then either an immediate `]`
/// for the empty array or the element list followed by `]`.  The probe
/// for the immediate `]` treats only an absent token as benign.
pub open spec fn spec_jarray(s: Seq<u8>) -> PRes<JsonModel>
    decreases s.len(), 0int,
{
    if s.len() == 0 {
        PRes::Fail(JErr::Eof)
    } else if s[0] != 91 {
        PRes::Fail(JErr::Expected)
    } else {
        let s1 = skip_ws(s.skip(1));
        if s1.len() == 0 {
            PRes::Fail(JErr::Eof)
        } else if s1[0] == 93 {
            PRes::Done(JsonModel::Array(Seq::empty()), s1.skip(1))
        } else {
            match spec_items(s1) {
                PRes::Fail(k) => PRes::Fail(k),
                PRes::Done(vs, r) => {
                    if r.len() == 0 {
                        PRes::Fail(JErr::Eof)
                    } else if r[0] != 93 {
                        PRes::Fail(JErr::Expected)
                    } else {
                        PRes::Done(JsonModel::Array(vs), r.skip(1))
                    }
                },
            }
        }
    }
}

/// The element list of an array: whitespace, one value, whitespace, and
/// a comma continues the list; any failure of the comma probe ends it.
pub open spec fn spec_items(s: Seq<u8>) -> PRes<Seq<JsonModel>>
    decreases s.len(), 2int,
{
    let s1 = skip_ws(s);
    match spec_jvalue(s1) {
        PRes::Fail(k) => PRes::Fail(k),
        PRes::Done(v, r) => {
            let r1 = skip_ws(r);
            if r1.len() > 0 && r1[0] == 44 {
                if r1.len() < s.len() {
                    match spec_items(r1.skip(1)) {
                        PRes::Fail(k) => PRes::Fail(k),
                        PRes::Done(vs, r2) => PRes::Done(seq![v] + vs, r2),
                    }
                } else {
                    PRes::Fail(JErr::Internal)
                }
            } else {
                PRes::Done(seq![v], r1)
            }
        },
    }
}

/// The object production: `{`, the member list, `}`.
pub open spec fn spec_jobject(s: Seq<u8>) -> PRes<JsonModel>
    decreases s.len(), 0int,
{
    if s.len() == 0 {
        PRes::Fail(JErr::Eof)
    } else if s[0] != 123 {
        PRes::Fail(JErr::Expected)
    } else {
        match spec_keyvalues(s.skip(1)) {
            PRes::Fail(k) => PRes::Fail(k),
            PRes::Done(es, r) => {
                if r.len() == 0 {
                    PRes::Fail(JErr::Eof)
                } else if r[0] != 125 {
                    PRes::Fail(JErr::Expected)
                } else {
                    PRes::Done(JsonModel::Object(es), r.skip(1))
                }
            },
        }
    }
}

/// The member list of an object: after whitespace, an immediate `}`
/// leaves the list empty (and unconsumed, for the object production to
/// check); otherwise members follow.  Peeking at the end of the input is
/// fatal.
pub open spec fn spec_keyvalues(s: Seq<u8>) -> PRes<Seq<(Seq<char>, JsonModel)>>
    decreases s.len(), 3int,
{
    let s1 = skip_ws(s);
    if s1.len() == 0 {
        PRes::Fail(JErr::Eof)
    } else if s1[0] == 125 {
        PRes::Done(Seq::empty(), s1)
    } else {
        spec_kv_loop(s1, Seq::empty())
    }
}

/// The member loop of an object: one `key : value` member is parsed and
/// appended — a key already present is a hard failure naming it — then
/// whitespace, and a comma continues the loop.  An absent comma ends the
/// list; reaching the end of the input at the comma probe is fatal.
pub open spec fn spec_kv_loop(s: Seq<u8>, acc: Seq<(Seq<char>, JsonModel)>) -> PRes<
    Seq<(Seq<char>, JsonModel)>,
>
    decreases s.len(), 2int,
{
    match spec_keyvalue(s) {
        PRes::Fail(k) => PRes::Fail(k),
        PRes::Done((key, v), r) => {
            if has_key(acc, key) {
                PRes::Fail(JErr::DupKey(key))
            } else {
                let acc1 = acc.push((key, v));
                let r1 = skip_ws(r);
                if r1.len() == 0 {
                    PRes::Fail(JErr::Eof)
                } else if r1[0] == 44 {
                    if r1.len() < s.len() {
                        spec_kv_loop(r1.skip(1), acc1)
                    } else {
                        PRes::Fail(JErr::Internal)
                    }
                } else {
                    PRes::Done(acc1, r1)
                }
            }
        },
    }
}

/// One object member: whitespace, a quoted key, whitespace, a colon,
/// whitespace, a value.
pub open spec fn spec_keyvalue(s: Seq<u8>) -> PRes<(Seq<char>, JsonModel)>
    decreases s.len(), 1int,
{
    let s1 = skip_ws(s);
    match spec_plain_string(s1) {
        PRes::Fail(k) => PRes::Fail(k),
        PRes::Done(key, r) => {
            let r1 = skip_ws(r);
            if r1.len() == 0 {
                PRes::Fail(JErr::Eof)
            } else if r1[0] != 58 {
                PRes::Fail(JErr::Expected)
            } else {
                let r2 = skip_ws(r1.skip(1));
                if r2.len() < s.len() {
                    match spec_jvalue(r2) {
                        PRes::Fail(k) => PRes::Fail(k),
                        PRes::Done(v, r3) => PRes::Done((key, v), r3),
                    }
                } else {
                    PRes::Fail(JErr::Internal)
                }
            }
        },
    }
}

/// The whole parser: skip leading whitespace, then parse exactly one
/// value; whatever follows it is left unconsumed.
pub open spec fn spec_parse(s: Seq<u8>) -> PRes<JsonModel> {
    spec_jvalue(skip_ws(s))
}

/// Skipping whitespace never grows the input.
pub proof fn lemma_skip_ws(s: Seq<u8>)
    ensures
        skip_ws(s).len() <= s.len(),
        skip_ws(s) == s.skip(ws_run(s) as int),
{
    lemma_ws_run(s);
}

/// A Unicode escape consumes its four hexadecimal digits.
pub proof fn lemma_progress_utf16(s: Seq<u8>)
    ensures
        spec_utf16(s) matches PRes::Done(_, r) ==> r.len() + 4 == s.len(),
{
}

/// The escape production consumes at least one byte.
pub proof fn lemma_progress_escape(s: Seq<u8>, acc: Seq<u8>)
    ensures
        spec_escape(s, acc) matches PRes::Done(_, r) ==> r.len() < s.len(),
{
    if s.len() > 0 && s[0] == 117 {
        lemma_progress_utf16(s.skip(1));
        match spec_utf16(s.skip(1)) {
            PRes::Done(u1, r0) => {
                if r0.len() >= 2 && r0[0] == 92 && r0[1] == 117 {
                    lemma_progress_utf16(r0.skip(2));
                }
            },
            PRes::Fail(_) => {},
        }
    }
}

/// The string body consumes at least its closing quote.
pub proof fn lemma_progress_string_body(s: Seq<u8>, acc: Seq<u8>)
    ensures
        spec_string_body(s, acc) matches PRes::Done(_, r) ==> r.len() < s.len(),
    decreases s.len(),
{
    if s.len() > 0 {
        if s[0] == 92 {
            lemma_progress_escape(s.skip(1), acc);
            match spec_escape(s.skip(1), acc) {
                PRes::Done(acc2, r0) => {
                    if r0.len() < s.len() {
                        lemma_progress_string_body(r0, acc2);
                    }
                },
                PRes::Fail(_) => {},
            }
        } else if s[0] != 34 {
            lemma_progress_string_body(s.skip(1), acc.push(s[0]));
        }
    }
}

/// A quoted string consumes at least its two quotes.
pub proof fn lemma_progress_plain_string(s: Seq<u8>)
    ensures
        spec_plain_string(s) matches PRes::Done(_, r) ==> r.len() < s.len(),
{
    if s.len() > 0 && s[0] == 34 {
        lemma_progress_string_body(s.skip(1), Seq::empty());
    }
}

/// A number consumes at least one byte; its pieces never grow the input.
pub proof fn lemma_progress_jnumber(s: Seq<u8>)
    ensures
        spec_jnumber(s) matches PRes::Done(_, r) ==> r.len() < s.len(),
{
    if s.len() > 0 {
        let (v1, s1) = if s[0] == 45 {
            (seq![45u8], s.skip(1))
        } else {
            (Seq::<u8>::empty(), s)
        };
        if s1.len() > 0 {
            if s1[0] == 48 {
                lemma_progress_number_tail(v1.push(48), s1.skip(1));
            } else {
                let k = digit_run(s1);
                if k != 0 {
                    lemma_digit_run(s1);
                    lemma_progress_number_tail(v1 + s1.take(k as int), s1.skip(k as int));
                }
            }
        }
    }
}

/// The fraction and exponent pieces never grow the input.
pub proof fn lemma_progress_number_tail(v: Seq<u8>, s: Seq<u8>)
    ensures
        spec_number_tail(v, s) matches PRes::Done(_, r) ==> r.len() <= s.len(),
{
    if s.len() > 0 && s[0] == 46 {
        lemma_digit_run(s.skip(1));
    }
    let frac = if s.len() > 0 && s[0] == 46 {
        spec_jfrac(s.skip(1), v)
    } else {
        PRes::Done(v, s)
    };
    match frac {
        PRes::Done(v2, s2) => {
            if s2.len() > 0 && (s2[0] == 101 || s2[0] == 69) {
                let e = s2.skip(1);
                if e.len() > 0 {
                    if e[0] == 45 || e[0] == 43 {
                        lemma_digit_run(e.skip(1));
                    } else {
                        lemma_digit_run(e);
                    }
                }
            }
        },
        PRes::Fail(_) => {},
    }
}

/// Every production that yields a value consumes at least one byte, and
/// an object's member list never grows the input.  This also shows that
/// the guarded recursion steps in the grammar never take their dead
/// branches.
pub proof fn lemma_progress_jvalue(s: Seq<u8>)
    ensures
        spec_jvalue(s) matches PRes::Done(_, r) ==> r.len() < s.len(),
    decreases s.len(), 1int,
{
    if s.len() == 0 {
    } else if s[0] == 34 {
        lemma_progress_plain_string(s);
    } else if s[0] == 123 {
        lemma_progress_jobject(s);
    } else if s[0] == 91 {
        lemma_progress_jarray(s);
    } else if s[0] == 110 {
    } else if s[0] == 116 || s[0] == 102 {
    } else {
        lemma_progress_jnumber(s);
    }
}

/// See [`lemma_progress_jvalue`].
pub proof fn lemma_progress_jarray(s: Seq<u8>)
    ensures
        spec_jarray(s) matches PRes::Done(_, r) ==> r.len() < s.len(),
    decreases s.len(), 0int,
{
    if s.len() > 0 && s[0] == 91 {
        let s1 = skip_ws(s.skip(1));
        lemma_skip_ws(s.skip(1));
        if s1.len() > 0 && s1[0] != 93 {
            lemma_progress_items(s1);
        }
    }
}

/// See [`lemma_progress_jvalue`].
pub proof fn lemma_progress_items(s: Seq<u8>)
    ensures
        spec_items(s) matches PRes::Done(_, r) ==> r.len() < s.len(),
    decreases s.len(), 2int,
{
    let s1 = skip_ws(s);
    lemma_skip_ws(s);
    lemma_progress_jvalue(s1);
    match spec_jvalue(s1) {
        PRes::Done(v, r) => {
            let r1 = skip_ws(r);
            lemma_skip_ws(r);
            if r1.len() > 0 && r1[0] == 44 && r1.len() < s.len() {
                lemma_progress_items(r1.skip(1));
            }
        },
        PRes::Fail(_) => {},
    }
}

/// See [`lemma_progress_jvalue`].
pub proof fn lemma_progress_jobject(s: Seq<u8>)
    ensures
        spec_jobject(s) matches PRes::Done(_, r) ==> r.len() < s.len(),
    decreases s.len(), 0int,
{
    if s.len() > 0 && s[0] == 123 {
        lemma_progress_keyvalues(s.skip(1));
    }
}

/// See [`lemma_progress_jvalue`].
pub proof fn lemma_progress_keyvalues(s: Seq<u8>)
    ensures
        spec_keyvalues(s) matches PRes::Done(_, r) ==> r.len() <= s.len(),
    decreases s.len(), 3int,
{
    let s1 = skip_ws(s);
    lemma_skip_ws(s);
    if s1.len() > 0 && s1[0] != 125 {
        lemma_progress_kv_loop(s1, Seq::empty());
    }
}

/// See [`lemma_progress_jvalue`].
pub proof fn lemma_progress_kv_loop(s: Seq<u8>, acc: Seq<(Seq<char>, JsonModel)>)
    ensures
        spec_kv_loop(s, acc) matches PRes::Done(_, r) ==> r.len() < s.len(),
    decreases s.len(), 2int,
{
    lemma_progress_keyvalue(s);
    match spec_keyvalue(s) {
        PRes::Done(kv, r) => {
            if !has_key(acc, kv.0) {
                let r1 = skip_ws(r);
                lemma_skip_ws(r);
                if r1.len() > 0 && r1[0] == 44 && r1.len() < s.len() {
                    lemma_progress_kv_loop(r1.skip(1), acc.push(kv));
                }
            }
        },
        PRes::Fail(_) => {},
    }
}

/// See [`lemma_progress_jvalue`].
pub proof fn lemma_progress_keyvalue(s: Seq<u8>)
    ensures
        spec_keyvalue(s) matches PRes::Done(_, r) ==> r.len() < s.len(),
    decreases s.len(), 1int,
{
    let s1 = skip_ws(s);
    lemma_skip_ws(s);
    lemma_progress_plain_string(s1);
    match spec_plain_string(s1) {
        PRes::Done(key, r) => {
            let r1 = skip_ws(r);
            lemma_skip_ws(r);
            if r1.len() > 0 && r1[0] == 58 {
                let r2 = skip_ws(r1.skip(1));
                lemma_skip_ws(r1.skip(1));
                if r2.len() < s.len() {
                    lemma_progress_jvalue(r2);
                }
            }
        },
        PRes::Fail(_) => {},
    }
}

/// A maximal whitespace prefix is no longer than the sequence, and what
/// follows it does not start with whitespace.
pub proof fn lemma_ws_run(s: Seq<u8>)
    ensures
        ws_run(s) <= s.len(),
        forall|i: int| 0 <= i < ws_run(s) ==> is_ws(s[i]),
        ws_run(s) < s.len() ==> !is_ws(s[ws_run(s) as int]),
    decreases s.len(),
{
    if s.len() > 0 && is_ws(s[0]) {
        lemma_ws_run(s.skip(1));
        assert forall|i: int| 0 <= i < ws_run(s) implies is_ws(s[i]) by {
            if i >= 1 {
                assert(s.skip(1)[i - 1] == s[i]);
            }
        }
        if ws_run(s) < s.len() {
            assert(s.skip(1)[ws_run(s) - 1] == s[ws_run(s) as int]);
        }
    }
}

/// A maximal digit prefix is no longer than the sequence, and what
/// follows it does not start with a digit.
pub proof fn lemma_digit_run(s: Seq<u8>)
    ensures
        digit_run(s) <= s.len(),
        forall|i: int| 0 <= i < digit_run(s) ==> is_digit(s[i]),
        digit_run(s) < s.len() ==> !is_digit(s[digit_run(s) as int]),
    decreases s.len(),
{
    if s.len() > 0 && is_digit(s[0]) {
        lemma_digit_run(s.skip(1));
        assert forall|i: int| 0 <= i < digit_run(s) implies is_digit(s[i]) by {
            if i >= 1 {
                assert(s.skip(1)[i - 1] == s[i]);
            }
        }
        if digit_run(s) < s.len() {
            assert(s.skip(1)[digit_run(s) - 1] == s[digit_run(s) as int]);
        }
    }
}

} // verus!
