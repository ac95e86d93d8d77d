//! The recursive-descent Json parser over a [`JsonStream`].
//!
//! Every function returns exactly what the corresponding production of
//! [`crate::grammar`] computes on the stream's unconsumed bytes: the same
//! value and leftover on success, an error of the same classification on
//! failure.  On success the stream stands on the leftover bytes; after a
//! failure the stream's position carries no promise.

use vstd::prelude::*;

use crate::errors::{err_matches, JsonError};
use crate::grammar::{
    digit_run, is_hex, lower_byte, skip_ws, spec_codepoint, spec_escape, spec_jarray,
    spec_jboolean, spec_jexp, spec_jfrac, spec_jnil, spec_jnumber, spec_jobject, spec_jstring,
    spec_jvalue, spec_items, spec_keyvalue, spec_keyvalues, spec_kv_loop, spec_parse,
    spec_plain_string, spec_string_body, spec_utf16, JErr, PRes,
};
use crate::stream::{stream_rest, JsonStream};
use crate::unicode::{lemma_ascii_encode, push_replacement, push_scalar_utf8, string_from_utf8};
use crate::{seq_view, Json, JsonMap, JsonModel};
use vstd::string::StringExecFns;
use vstd::utf8::encode_utf8;

verus! {

/// An error at the current position, with the given message.
fn fail(s: &JsonStream, msg: String) -> (e: JsonError)
    ensures
        e matches JsonError::Failed(m, _) && m == msg,
{
    let p = s.position();
    JsonError::Failed(msg, p)
}

/// The bytes of the literal `null`.
proof fn lemma_lit_null()
    ensures
        "null"@.len() == 4,
        encode_utf8("null"@) == seq![110u8, 117, 108, 108],
{
    reveal_strlit("null");
    lemma_ascii_encode("null"@);
    assert(encode_utf8("null"@) =~= seq![110u8, 117, 108, 108]);
}

/// The bytes of the literal `alse`.
proof fn lemma_lit_alse()
    ensures
        "alse"@.len() == 4,
        encode_utf8("alse"@) == seq![97u8, 108, 115, 101],
{
    reveal_strlit("alse");
    lemma_ascii_encode("alse"@);
    assert(encode_utf8("alse"@) =~= seq![97u8, 108, 115, 101]);
}

/// The bytes of the literal `rue`.
proof fn lemma_lit_rue()
    ensures
        "rue"@.len() == 3,
        encode_utf8("rue"@) == seq![114u8, 117, 101],
{
    reveal_strlit("rue");
    lemma_ascii_encode("rue"@);
    assert(encode_utf8("rue"@) =~= seq![114u8, 117, 101]);
}

/// The `null` production.
fn jnil(s: &mut JsonStream) -> (r: Result<Json, JsonError>)
    ensures
        match r {
            Ok(j) => spec_jnil(stream_rest(*old(s))) matches PRes::Done(v, rest) && j@ == v
                && stream_rest(*final(s)) == rest,
            Err(e) => spec_jnil(stream_rest(*old(s))) matches PRes::Fail(k) && err_matches(e, k),
        },
{
    proof {
        lemma_lit_null();
    }
    match s.string("null") {
        Ok(()) => Ok(Json::Null),
        Err(e) => Err(e),
    }
}

/// The boolean production.
fn jboolean(s: &mut JsonStream) -> (r: Result<Json, JsonError>)
    ensures
        match r {
            Ok(j) => spec_jboolean(stream_rest(*old(s))) matches PRes::Done(v, rest) && j@ == v
                && stream_rest(*final(s)) == rest,
            Err(e) => spec_jboolean(stream_rest(*old(s))) matches PRes::Fail(k) && err_matches(
                e,
                k,
            ),
        },
{
    let c = match s.any_byte() {
        Ok(c) => c,
        Err(e) => {
            return Err(e);
        },
    };
    if c == 102 {
        proof {
            lemma_lit_alse();
        }
        match s.string("alse") {
            Ok(()) => Ok(Json::Boolean(false)),
            Err(e) => Err(e),
        }
    } else if c == 116 {
        proof {
            lemma_lit_rue();
        }
        match s.string("rue") {
            Ok(()) => Ok(Json::Boolean(true)),
            Err(e) => Err(e),
        }
    } else {
        Err(fail(s, String::from_str("boolean value expected")))
    }
}

/// ASCII lower-casing of one byte.
fn to_lower(b: u8) -> (r: u8)
    ensures
        r == lower_byte(b),
{
    if 65 <= b && b <= 90 {
        b + 32
    } else {
        b
    }
}

/// The value of one hexadecimal digit byte (already lower-cased); any
/// other byte is a hard failure naming the byte.
pub fn convert_ascii(s: &JsonStream, n: u8) -> (r: Result<u16, JsonError>)
    ensures
        match r {
            Ok(u) => is_hex(n) && u == crate::grammar::hex_val(n),
            Err(e) => !is_hex(n) && err_matches(e, JErr::BadHex(n)),
        },
{
    if 48 <= n && n <= 57 {
        Ok((n - 48) as u16)
    } else if 97 <= n && n <= 102 {
        Ok((n - 87) as u16)
    } else {
        let mut msg = String::from_str("hexadecimal expected, have: ");
        let d = crate::numbers::u64_to_string(n as u64);
        msg.append(d.as_str());
        Err(fail(s, msg))
    }
}

/// Four hexadecimal digits, case-insensitive, as one 16-bit code unit.
pub fn utf16bytes(s: &mut JsonStream) -> (r: Result<u16, JsonError>)
    ensures
        match r {
            Ok(u) => spec_utf16(stream_rest(*old(s))) matches PRes::Done(u0, rest) && u == u0
                && stream_rest(*final(s)) == rest,
            Err(e) => spec_utf16(stream_rest(*old(s))) matches PRes::Fail(k) && err_matches(e, k),
        },
{
    let bs = match s.get_bytes(4) {
        Ok(b) => b,
        Err(e) => {
            return Err(e);
        },
    };
    let c0 = to_lower(bs[0]);
    let c1 = to_lower(bs[1]);
    let c2 = to_lower(bs[2]);
    let c3 = to_lower(bs[3]);
    let i0 = match convert_ascii(s, c0) {
        Ok(i) => i,
        Err(e) => {
            return Err(e);
        },
    };
    let i1 = match convert_ascii(s, c1) {
        Ok(i) => i,
        Err(e) => {
            return Err(e);
        },
    };
    let i2 = match convert_ascii(s, c2) {
        Ok(i) => i,
        Err(e) => {
            return Err(e);
        },
    };
    let i3 = match convert_ascii(s, c3) {
        Ok(i) => i,
        Err(e) => {
            return Err(e);
        },
    };
    Ok(i0 * 4096 + i1 * 256 + i2 * 16 + i3)
}

/// The Unicode escape production, after `\u`: appends the escaped
/// character's UTF-8 bytes — or a replacement character for malformed
/// surrogate data — to the string buffer `v`.
pub fn codepoint(s: &mut JsonStream, v: &mut Vec<u8>) -> (r: Result<(), JsonError>)
    ensures
        match r {
            Ok(()) => spec_codepoint(stream_rest(*old(s)), old(v)@) matches PRes::Done(acc, rest)
                && final(v)@ == acc && stream_rest(*final(s)) == rest,
            Err(e) => spec_codepoint(stream_rest(*old(s)), old(v)@) matches PRes::Fail(k)
                && err_matches(e, k),
        },
{
    let u1 = match utf16bytes(s) {
        Ok(u) => u,
        Err(e) => {
            return Err(e);
        },
    };
    if !(0xD800 <= u1 && u1 < 0xE000) {
        push_scalar_utf8(v, u1 as u32);
        return Ok(());
    }
    let ghost rest1 = stream_rest(*s);
    let pat: Vec<u8> = vec![92, 117];
    proof {
        assert(pat@ =~= seq![92u8, 117u8]);
        if rest1.len() >= 2 {
            assert(rest1.take(2) =~= seq![rest1[0], rest1[1]]);
        }
    }
    let probe = s.bytes(pat.as_slice());
    match probe {
        Ok(()) => {
            let u2 = match utf16bytes(s) {
                Ok(u) => u,
                Err(e) => {
                    return Err(e);
                },
            };
            if u1 < 0xDC00 && 0xDC00 <= u2 && u2 < 0xE000 {
                let scalar: u32 = 0x10000 + ((u1 - 0xD800) as u32) * 0x400 + ((u2 - 0xDC00)
                    as u32);
                push_scalar_utf8(v, scalar);
            } else {
                push_replacement(v);
            }
            Ok(())
        },
        Err(e) => {
            if e.is_expected_token() || e.is_eof() {
                push_replacement(v);
                Ok(())
            } else {
                Err(e)
            }
        },
    }
}

/// The escape production, after the backslash: one byte selects the
/// escaped byte, `u` starts a Unicode escape, anything else is a hard
/// failure naming the byte.
pub fn escape(s: &mut JsonStream, v: &mut Vec<u8>) -> (r: Result<(), JsonError>)
    ensures
        match r {
            Ok(()) => spec_escape(stream_rest(*old(s)), old(v)@) matches PRes::Done(acc, rest)
                && final(v)@ == acc && stream_rest(*final(s)) == rest,
            Err(e) => spec_escape(stream_rest(*old(s)), old(v)@) matches PRes::Fail(k)
                && err_matches(e, k),
        },
{
    let c = match s.any_byte() {
        Ok(c) => c,
        Err(e) => {
            return Err(e);
        },
    };
    if c == 92 {
        v.push(92);
    } else if c == 34 {
        v.push(34);
    } else if c == 47 {
        v.push(47);
    } else if c == 98 {
        v.push(8);
    } else if c == 102 {
        v.push(12);
    } else if c == 110 {
        v.push(10);
    } else if c == 114 {
        v.push(13);
    } else if c == 116 {
        v.push(9);
    } else if c == 117 {
        return codepoint(s, v);
    } else {
        let mut msg = String::from_str("unknown escape sequence ");
        let d = crate::numbers::u64_to_string(c as u64);
        msg.append(d.as_str());
        return Err(fail(s, msg));
    }
    Ok(())
}

/// The quoted-string production: a quote, bytes with escape handling up
/// to the closing quote, decoded as text.
pub fn plain_string(s: &mut JsonStream) -> (r: Result<String, JsonError>)
    ensures
        match r {
            Ok(x) => spec_plain_string(stream_rest(*old(s))) matches PRes::Done(t, rest) && x@ == t
                && stream_rest(*final(s)) == rest,
            Err(e) => spec_plain_string(stream_rest(*old(s))) matches PRes::Fail(k) && err_matches(
                e,
                k,
            ),
        },
{
    match s.byte(34) {
        Ok(()) => (),
        Err(e) => {
            return Err(e);
        },
    }
    let mut v: Vec<u8> = Vec::new();
    let ghost body0 = stream_rest(*s);
    loop
        invariant_except_break
            spec_string_body(stream_rest(*s), v@) == spec_string_body(body0, Seq::<u8>::empty()),
            spec_plain_string(stream_rest(*old(s))) == spec_string_body(body0, Seq::<u8>::empty()),
        ensures
            spec_plain_string(stream_rest(*old(s))) == spec_string_body(body0, Seq::<u8>::empty()),
            spec_string_body(body0, Seq::<u8>::empty()) == (if vstd::utf8::valid_utf8(v@) {
                PRes::Done(vstd::utf8::decode_utf8(v@), stream_rest(*s))
            } else {
                PRes::<Seq<char>>::Fail(JErr::StrUtf8)
            }),
        decreases stream_rest(*s).len(),
    {
        let ghost rest_at = stream_rest(*s);
        let ghost v_at = v@;
        let c = match s.any_byte() {
            Ok(c) => c,
            Err(e) => {
                return Err(e);
            },
        };
        if c == 92 {
            match escape(s, &mut v) {
                Ok(()) => (),
                Err(e) => {
                    return Err(e);
                },
            }
            proof {
                crate::grammar::lemma_progress_escape(rest_at.skip(1), v_at);
            }
        } else if c == 34 {
            break;
        } else {
            v.push(c);
        }
    }
    match string_from_utf8(v) {
        Some(x) => Ok(x),
        None => Err(fail(s, String::from_str("unicode error"))),
    }
}

/// The fraction piece of a number, after the dot was consumed: a dot and
/// one or more digits join the number's text.
pub fn jfrac(s: &mut JsonStream, v: &mut Vec<u8>) -> (r: Result<(), JsonError>)
    ensures
        match r {
            Ok(()) => spec_jfrac(stream_rest(*old(s)), old(v)@) matches PRes::Done(v2, rest)
                && final(v)@ == v2 && stream_rest(*final(s)) == rest,
            Err(e) => spec_jfrac(stream_rest(*old(s)), old(v)@) matches PRes::Fail(k)
                && err_matches(e, k),
        },
{
    v.push(46);
    match s.digits() {
        Ok(mut ds) => {
            v.append(&mut ds);
            proof {
                assert(v@ =~= old(v)@.push(46) + stream_rest(*old(s)).take(
                    digit_run(stream_rest(*old(s))) as int,
                ));
            }
            Ok(())
        },
        Err(e) => Err(e),
    }
}

/// The exponent piece of a number, after `e` or `E` was consumed: a
/// lower-case `e`, an optional sign (a plus is dropped), and one or more
/// digits join the number's text.
pub fn jexp(s: &mut JsonStream, v: &mut Vec<u8>) -> (r: Result<(), JsonError>)
    ensures
        match r {
            Ok(()) => spec_jexp(stream_rest(*old(s)), old(v)@) matches PRes::Done(v2, rest)
                && final(v)@ == v2 && stream_rest(*final(s)) == rest,
            Err(e) => spec_jexp(stream_rest(*old(s)), old(v)@) matches PRes::Fail(k)
                && err_matches(e, k),
        },
{
    v.push(101);
    let c = match s.peek_byte() {
        Ok(c) => c,
        Err(e) => {
            return Err(e);
        },
    };
    if c == 45 {
        match s.byte(45) {
            Ok(()) => v.push(45),
            Err(e) => {
                return Err(e);
            },
        }
    } else if c == 43 {
        match s.byte(43) {
            Ok(()) => (),
            Err(e) => {
                return Err(e);
            },
        }
    }
    let ghost v1 = v@;
    let ghost s1 = stream_rest(*s);
    match s.digits() {
        Ok(mut ds) => {
            v.append(&mut ds);
            proof {
                assert(v@ =~= v1 + s1.take(digit_run(s1) as int));
            }
            Ok(())
        },
        Err(e) => Err(e),
    }
}

/// The number production: the raw literal bytes are collected piece by
/// piece — optional minus, integer part with no leading zero, optional
/// fraction and exponent — and become the value's text.
fn jnumber(s: &mut JsonStream) -> (r: Result<Json, JsonError>)
    ensures
        match r {
            Ok(j) => spec_jnumber(stream_rest(*old(s))) matches PRes::Done(v, rest) && j@ == v
                && stream_rest(*final(s)) == rest,
            Err(e) => spec_jnumber(stream_rest(*old(s))) matches PRes::Fail(k) && err_matches(
                e,
                k,
            ),
        },
{
    let ghost s0 = stream_rest(*s);
    let mut v: Vec<u8> = Vec::new();
    let mut zero = false;

    match s.byte(45) {
        Ok(()) => {
            v.push(45);
            proof {
                assert(v@ =~= seq![45u8]);
            }
        },
        Err(e) => {
            if !e.is_expected_token() {
                return Err(e);
            }
        },
    }
    let ghost v1 = v@;
    let ghost s1 = stream_rest(*s);

    match s.byte(48) {
        Ok(()) => {
            zero = true;
            v.push(48);
        },
        Err(e) => {
            if !e.is_expected_token() {
                return Err(e);
            }
        },
    }
    if !zero {
        match s.digits() {
            Ok(mut ds) => {
                v.append(&mut ds);
                proof {
                    assert(v@ =~= v1 + s1.take(digit_run(s1) as int));
                }
            },
            Err(e) => {
                return Err(e);
            },
        }
    }
    let ghost v2 = v@;
    let ghost s2 = stream_rest(*s);

    match s.byte(46) {
        Ok(()) => {
            match jfrac(s, &mut v) {
                Ok(()) => (),
                Err(e) => {
                    return Err(e);
                },
            }
        },
        Err(e) => {
            if !e.is_expected_token() && !e.is_eof() {
                return Err(e);
            }
        },
    }
    let ghost v3 = v@;
    let ghost s3 = stream_rest(*s);

    let es: Vec<u8> = vec![101, 69];
    proof {
        assert(es@ =~= seq![101u8, 69u8]);
        if s3.len() > 0 {
            if s3[0] == 101 {
                assert(es@.contains(s3[0])) by {
                    assert(es@[0] == s3[0]);
                }
            }
            if s3[0] == 69 {
                assert(es@.contains(s3[0])) by {
                    assert(es@[1] == s3[0]);
                }
            }
            if es@.contains(s3[0]) {
                assert(s3[0] == 101 || s3[0] == 69) by {
                    let i = choose|i: int| 0 <= i < es@.len() && es@[i] == s3[0];
                }
            }
        }
    }
    let mut has_exp = false;
    match s.one_of_bytes(es.as_slice()) {
        Ok(()) => {
            has_exp = true;
        },
        Err(e) => {
            if !e.is_expected_token() && !e.is_eof() {
                return Err(e);
            }
        },
    }
    if has_exp {
        match jexp(s, &mut v) {
            Ok(()) => (),
            Err(e) => {
                return Err(e);
            },
        }
    }
    match string_from_utf8(v) {
        Some(x) => Ok(Json::Number(x)),
        None => Err(fail(s, String::from_str("internal error"))),
    }
}

/// The string production as a value.
fn jstring(s: &mut JsonStream) -> (r: Result<Json, JsonError>)
    ensures
        match r {
            Ok(j) => spec_jstring(stream_rest(*old(s))) matches PRes::Done(v, rest) && j@ == v
                && stream_rest(*final(s)) == rest,
            Err(e) => spec_jstring(stream_rest(*old(s))) matches PRes::Fail(k) && err_matches(
                e,
                k,
            ),
        },
{
    match plain_string(s) {
        Ok(x) => Ok(Json::String(x)),
        Err(e) => Err(e),
    }
}

/// The value production: the next unconsumed byte selects a production.
fn jvalue(s: &mut JsonStream) -> (r: Result<Json, JsonError>)
    ensures
        match r {
            Ok(j) => spec_jvalue(stream_rest(*old(s))) matches PRes::Done(v, rest) && j@ == v
                && stream_rest(*final(s)) == rest,
            Err(e) => spec_jvalue(stream_rest(*old(s))) matches PRes::Fail(k) && err_matches(
                e,
                k,
            ),
        },
    decreases stream_rest(*old(s)).len(), 1int,
{
    let ch = match s.peek_byte() {
        Ok(c) => c,
        Err(e) => {
            return Err(e);
        },
    };
    if ch == 34 {
        jstring(s)
    } else if ch == 123 {
        jobject(s)
    } else if ch == 91 {
        jarray(s)
    } else if ch == 110 {
        jnil(s)
    } else if ch == 116 || ch == 102 {
        jboolean(s)
    } else {
        jnumber(s)
    }
}

/// The array production: `[`, whitespace, either an immediate `]` or the
/// element list, then `]`.
fn jarray(s: &mut JsonStream) -> (r: Result<Json, JsonError>)
    ensures
        match r {
            Ok(j) => spec_jarray(stream_rest(*old(s))) matches PRes::Done(v, rest) && j@ == v
                && stream_rest(*final(s)) == rest,
            Err(e) => spec_jarray(stream_rest(*old(s))) matches PRes::Fail(k) && err_matches(
                e,
                k,
            ),
        },
    decreases stream_rest(*old(s)).len(), 0int,
{
    match s.byte(91) {
        Ok(()) => (),
        Err(e) => {
            return Err(e);
        },
    }
    let ghost after_bracket = stream_rest(*s);
    s.skip_whitespace();
    proof {
        crate::grammar::lemma_skip_ws(after_bracket);
    }

    match s.byte(93) {
        Ok(()) => {
            let items: Vec<Json> = Vec::new();
            proof {
                assert(seq_view(items@) =~= Seq::<JsonModel>::empty());
            }
            return Ok(Json::Array(items));
        },
        Err(e) => {
            if !e.is_expected_token() {
                return Err(e);
            }
        },
    }

    let mut items: Vec<Json> = Vec::new();
    match jarray_items(s, &mut items) {
        Ok(()) => (),
        Err(e) => {
            return Err(e);
        },
    }
    proof {
        assert(seq_view(Seq::<Json>::empty()) =~= Seq::<JsonModel>::empty());
    }
    match s.byte(93) {
        Ok(()) => Ok(Json::Array(items)),
        Err(e) => Err(e),
    }
}

/// The element list of an array: one value per round, rounds joined by
/// commas; any failure of the comma probe ends the list.
fn jarray_items(s: &mut JsonStream, out: &mut Vec<Json>) -> (r: Result<(), JsonError>)
    ensures
        match r {
            Ok(()) => spec_items(stream_rest(*old(s))) matches PRes::Done(vs, rest) && seq_view(
                final(out)@,
            ) == seq_view(old(out)@) + vs && stream_rest(*final(s)) == rest,
            Err(e) => spec_items(stream_rest(*old(s))) matches PRes::Fail(k) && err_matches(e, k),
        },
    decreases stream_rest(*old(s)).len(), 2int,
{
    let ghost s0 = stream_rest(*s);
    s.skip_whitespace();
    proof {
        crate::grammar::lemma_skip_ws(s0);
    }
    let e0 = match jvalue(s) {
        Ok(j) => j,
        Err(e) => {
            return Err(e);
        },
    };
    proof {
        crate::grammar::lemma_progress_jvalue(skip_ws(s0));
    }
    out.push(e0);
    proof {
        assert(seq_view(out@) =~= seq_view(old(out)@) + seq![e0@]);
    }
    let ghost mid = out@;
    let ghost r0 = stream_rest(*s);
    s.skip_whitespace();
    proof {
        crate::grammar::lemma_skip_ws(r0);
    }
    match s.byte(44) {
        Ok(()) => {
            let ghost tail_in = stream_rest(*s);
            match jarray_items(s, out) {
                Ok(()) => {
                    proof {
                        match spec_items(tail_in) {
                            PRes::Done(vs2, _) => {
                                assert((seq_view(old(out)@) + seq![e0@]) + vs2 =~= seq_view(
                                    old(out)@,
                                ) + (seq![e0@] + vs2));
                            },
                            PRes::Fail(_) => {},
                        }
                    }
                    Ok(())
                },
                Err(e) => Err(e),
            }
        },
        Err(_) => Ok(()),
    }
}

/// The object production: `{`, the member list, `}`.
fn jobject(s: &mut JsonStream) -> (r: Result<Json, JsonError>)
    ensures
        match r {
            Ok(j) => spec_jobject(stream_rest(*old(s))) matches PRes::Done(v, rest) && j@ == v
                && stream_rest(*final(s)) == rest,
            Err(e) => spec_jobject(stream_rest(*old(s))) matches PRes::Fail(k) && err_matches(
                e,
                k,
            ),
        },
    decreases stream_rest(*old(s)).len(), 0int,
{
    match s.byte(123) {
        Ok(()) => (),
        Err(e) => {
            return Err(e);
        },
    }
    let m = match keyvalues(s) {
        Ok(m) => m,
        Err(e) => {
            return Err(e);
        },
    };
    match s.byte(125) {
        Ok(()) => Ok(Json::Object(Box::new(m))),
        Err(e) => Err(e),
    }
}

/// The member list of an object.  The resulting map holds the members in
/// input order and never a key twice.
fn keyvalues(s: &mut JsonStream) -> (r: Result<JsonMap, JsonError>)
    ensures
        match r {
            Ok(m) => spec_keyvalues(stream_rest(*old(s))) matches PRes::Done(es, rest) && m@ == es
                && m.wf() && stream_rest(*final(s)) == rest,
            Err(e) => spec_keyvalues(stream_rest(*old(s))) matches PRes::Fail(k) && err_matches(
                e,
                k,
            ),
        },
    decreases stream_rest(*old(s)).len(), 3int,
{
    let ghost s0 = stream_rest(*s);
    let mut m = JsonMap::new();
    s.skip_whitespace();
    proof {
        crate::grammar::lemma_skip_ws(s0);
    }
    let c = match s.peek_byte() {
        Ok(c) => c,
        Err(e) => {
            return Err(e);
        },
    };
    if c == 125 {
        return Ok(m);
    }
    match keyvalues_loop(s, &mut m) {
        Ok(()) => Ok(m),
        Err(e) => Err(e),
    }
}

/// The member loop of an object: one `key : value` member per round — a
/// repeated key is a hard failure naming it — rounds joined by commas.
fn keyvalues_loop(s: &mut JsonStream, m: &mut JsonMap) -> (r: Result<(), JsonError>)
    requires
        old(m).wf(),
    ensures
        match r {
            Ok(()) => spec_kv_loop(stream_rest(*old(s)), old(m)@) matches PRes::Done(es, rest)
                && final(m)@ == es && final(m).wf() && stream_rest(*final(s)) == rest,
            Err(e) => spec_kv_loop(stream_rest(*old(s)), old(m)@) matches PRes::Fail(k)
                && err_matches(e, k),
        },
    decreases stream_rest(*old(s)).len(), 2int,
{
    let ghost s0 = stream_rest(*s);
    let (k, v) = match keyvalue(s) {
        Ok(p) => p,
        Err(e) => {
            return Err(e);
        },
    };
    proof {
        crate::grammar::lemma_progress_keyvalue(s0);
    }
    if m.contains_key(k.as_str()) {
        let mut msg = String::from_str("duplicated key '");
        msg.append(k.as_str());
        msg.append("' in object");
        return Err(fail(s, msg));
    }
    m.push_entry(k, v);
    let ghost r0 = stream_rest(*s);
    s.skip_whitespace();
    proof {
        crate::grammar::lemma_skip_ws(r0);
    }
    match s.byte(44) {
        Ok(()) => keyvalues_loop(s, m),
        Err(e) => {
            if e.is_expected_token() {
                Ok(())
            } else {
                Err(e)
            }
        },
    }
}

/// One object member: a quoted key, a colon, a value, with whitespace
/// between the pieces.
fn keyvalue(s: &mut JsonStream) -> (r: Result<(String, Json), JsonError>)
    ensures
        match r {
            Ok(p) => spec_keyvalue(stream_rest(*old(s))) matches PRes::Done(kv, rest) && p.0@
                == kv.0 && p.1@ == kv.1 && stream_rest(*final(s)) == rest,
            Err(e) => spec_keyvalue(stream_rest(*old(s))) matches PRes::Fail(k) && err_matches(
                e,
                k,
            ),
        },
    decreases stream_rest(*old(s)).len(), 1int,
{
    let ghost s0 = stream_rest(*s);
    s.skip_whitespace();
    proof {
        crate::grammar::lemma_skip_ws(s0);
    }
    let k = match plain_string(s) {
        Ok(k) => k,
        Err(e) => {
            return Err(e);
        },
    };
    proof {
        crate::grammar::lemma_progress_plain_string(skip_ws(s0));
    }
    let ghost r0 = stream_rest(*s);
    s.skip_whitespace();
    proof {
        crate::grammar::lemma_skip_ws(r0);
    }
    match s.byte(58) {
        Ok(()) => (),
        Err(e) => {
            return Err(e);
        },
    }
    let ghost r1 = stream_rest(*s);
    s.skip_whitespace();
    proof {
        crate::grammar::lemma_skip_ws(r1);
    }
    let v = match jvalue(s) {
        Ok(v) => v,
        Err(e) => {
            return Err(e);
        },
    };
    Ok((k, v))
}

/// Parses the first complete Json value in the stream and returns it on
/// success, and a classified parse error otherwise.  Leading whitespace
/// is skipped; whatever follows the value stays unconsumed, so trailing
/// bytes — well-formed or not — are no error.
pub fn parse(s: &mut JsonStream) -> (r: Result<Json, JsonError>)
    ensures
        match r {
            Ok(j) => spec_parse(stream_rest(*old(s))) matches PRes::Done(v, rest) && j@ == v
                && stream_rest(*final(s)) == rest,
            Err(e) => spec_parse(stream_rest(*old(s))) matches PRes::Fail(k) && err_matches(e, k),
        },
{
    let ghost s0 = stream_rest(*s);
    s.skip_whitespace();
    proof {
        crate::grammar::lemma_skip_ws(s0);
    }
    jvalue(s)
}

/// Parses the first complete Json value in an in-memory buffer: the
/// buffer becomes a stream, and [`parse`] reads one value from it.
pub fn parse_buffer(v: Vec<u8>) -> (r: Result<Json, JsonError>)
    ensures
        match r {
            Ok(j) => spec_parse(v@) matches PRes::Done(m, _) && j@ == m,
            Err(e) => spec_parse(v@) matches PRes::Fail(k) && err_matches(e, k),
        },
{
    let mut input = crate::stream::cursor_new(v);
    let mut s = JsonStream::new(&mut input);
    parse(&mut s)
}

} // verus!