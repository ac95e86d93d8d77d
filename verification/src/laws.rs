//! The laws tying the three components together: parsing a serialised
//! well-formed value yields the value back, and re-serialising what was
//! parsed reproduces the bytes.  The proofs run by induction over the
//! value, production by production, against the grammar of
//! [`crate::grammar`] and the layout of [`crate::serializing`].

use vstd::prelude::*;

use crate::arbitrary::{gen_inv, gen_text_ok};
use crate::grammar::{
    digit_run, is_digit, is_ws, skip_ws, spec_escape, spec_items, spec_jexp, spec_jfrac,
    spec_jnumber, spec_jvalue, spec_keyvalue, spec_kv_loop, spec_parse, spec_plain_string,
    spec_string_body, ws_run, PRes,
};
use crate::serializing::{
    esc_byte, esc_bytes, ser_string, spec_ser_items, spec_ser_members, spec_ser_value,
    spec_serialize,
};
use crate::JsonModel;
use crate::unicode::{ascii_bytes, lemma_ascii_encode};
use vstd::utf8::{decode_utf8, encode_utf8};

verus! {

/// A sequence of whitespace bytes only.
pub open spec fn all_ws(s: Seq<u8>) -> bool {
    forall|i: int| 0 <= i < s.len() ==> is_ws(#[trigger] s[i])
}

/// What may follow a serialised value without changing how it parses:
/// nothing, a comma, or a line break.  These are the only bytes the
/// serialiser ever puts directly after a value.
pub open spec fn rt_boundary(rest: Seq<u8>) -> bool {
    rest.len() == 0 || rest[0] == 44 || rest[0] == 10
}

/// The serialiser ends a container with a line break that the parser
/// leaves unconsumed; scalars leave nothing behind.
pub open spec fn rt_tail(v: JsonModel) -> Seq<u8> {
    match v {
        JsonModel::Array(_) => seq![10u8],
        JsonModel::Object(_) => seq![10u8],
        _ => Seq::empty(),
    }
}

/// The shape of a normalized number literal, as bytes: an optional
/// minus, an integer part with no leading zero, an optional fraction,
/// an optional exponent with a lower-case marker and an optional minus.
/// This is exactly the shape the parser's number production leaves
/// behind.
pub open spec fn num_build(
    neg: bool,
    ip: Seq<u8>,
    fp: Option<Seq<u8>>,
    ep: Option<(bool, Seq<u8>)>,
) -> Seq<u8> {
    (if neg {
        seq![45u8]
    } else {
        Seq::<u8>::empty()
    }) + ip + (match fp {
        Some(f) => seq![46u8] + f,
        None => Seq::<u8>::empty(),
    }) + (match ep {
        Some(e) => seq![101u8] + (if e.0 {
            seq![45u8]
        } else {
            Seq::<u8>::empty()
        }) + e.1,
        None => Seq::<u8>::empty(),
    })
}

/// A run of digit bytes.
pub open spec fn all_digits(b: Seq<u8>) -> bool {
    forall|i: int| 0 <= i < b.len() ==> is_digit(#[trigger] b[i])
}

/// Well-formed parts of a number literal.
pub open spec fn num_parts_ok(
    neg: bool,
    ip: Seq<u8>,
    fp: Option<Seq<u8>>,
    ep: Option<(bool, Seq<u8>)>,
) -> bool {
    &&& all_digits(ip)
    &&& ip.len() >= 1
    &&& (ip.len() > 1 ==> ip[0] != 48)
    &&& (fp matches Some(f) ==> all_digits(f) && f.len() >= 1)
    &&& (ep matches Some(e) ==> all_digits(e.1) && e.1.len() >= 1)
}

/// A normalized number text: ASCII, and built from well-formed parts.
pub open spec fn wf_number(t: Seq<char>) -> bool {
    &&& forall|i: int| 0 <= i < t.len() ==> (#[trigger] (t[i] as u32)) < 128
    &&& exists|neg: bool, ip: Seq<u8>, fp: Option<Seq<u8>>, ep: Option<(bool, Seq<u8>)>|
        num_parts_ok(neg, ip, fp, ep) && ascii_bytes(t) == num_build(neg, ip, fp, ep)
}

/// The values the round-trip law speaks of: every number text has the
/// normalized shape that the parser itself produces, and no object holds
/// a key twice.  Strings are arbitrary.  These are exactly the trees that
/// the parser or the generator can hand out.
pub open spec fn wf_value(v: JsonModel) -> bool
    decreases v,
{
    match v {
        JsonModel::Null => true,
        JsonModel::Boolean(_) => true,
        JsonModel::Number(t) => wf_number(t),
        JsonModel::String(_) => true,
        JsonModel::Array(a) => forall|i: int| 0 <= i < a.len() ==> wf_value(#[trigger] a[i]),
        JsonModel::Object(es) => {
            &&& forall|i: int, j: int| 0 <= i < j < es.len() ==> es[i].0 != es[j].0
            &&& forall|i: int| 0 <= i < es.len() ==> wf_value(#[trigger] es[i].1)
        },
    }
}

/// Every value the generator can produce is in the round-trip law's
/// domain: its plain decimal numbers have the normalized shape.
pub proof fn lemma_gen_wf(v: JsonModel)
    requires
        gen_inv(v),
    ensures
        wf_value(v),
    decreases v,
{
    match v {
        JsonModel::Number(t) => {
            let ip = ascii_bytes(t);
            assert(num_parts_ok(false, ip, None, None));
            assert(ascii_bytes(t) =~= num_build(false, ip, None, None));
        },
        JsonModel::Array(a) => {
            assert forall|i: int| 0 <= i < a.len() implies wf_value(#[trigger] a[i]) by {
                lemma_gen_wf(a[i]);
            }
        },
        JsonModel::Object(es) => {
            assert forall|i: int| 0 <= i < es.len() implies wf_value(#[trigger] es[i].1) by {
                let k0 = es[i].0;
                assert(gen_text_ok(k0) && gen_inv(es[i].1));
                lemma_gen_wf(es[i].1);
            }
        },
        _ => {},
    }
}

/// The whitespace run of a concatenation whose head is all whitespace.
proof fn lemma_ws_run_concat(w: Seq<u8>, t: Seq<u8>)
    requires
        all_ws(w),
    ensures
        ws_run(w + t) == w.len() + ws_run(t),
    decreases w.len(),
{
    if w.len() == 0 {
        assert(w + t =~= t);
    } else {
        assert((w + t).skip(1) =~= w.skip(1) + t);
        assert(all_ws(w.skip(1)));
        lemma_ws_run_concat(w.skip(1), t);
    }
}

/// Skipping whitespace from an all-whitespace head lands at the tail,
/// when the tail does not itself start with whitespace.
proof fn lemma_skip_ws_past(w: Seq<u8>, t: Seq<u8>)
    requires
        all_ws(w),
        t.len() > 0 ==> !is_ws(t[0]),
    ensures
        skip_ws(w + t) == t,
{
    lemma_ws_run_concat(w, t);
    if t.len() > 0 {
        assert(ws_run(t) == 0);
    }
    crate::grammar::lemma_skip_ws(w + t);
    assert((w + t).skip(w.len() as int) =~= t);
}

/// The digit run of a concatenation whose head is all digits stops at
/// the boundary.
proof fn lemma_digit_run_concat(b: Seq<u8>, t: Seq<u8>)
    requires
        forall|i: int| 0 <= i < b.len() ==> is_digit(#[trigger] b[i]),
        t.len() > 0 ==> !is_digit(t[0]),
    ensures
        digit_run(b + t) == b.len(),
        (b + t).take(b.len() as int) == b,
        (b + t).skip(b.len() as int) == t,
    decreases b.len(),
{
    if b.len() == 0 {
        assert(b + t =~= t);
    } else {
        assert((b + t).skip(1) =~= b.skip(1) + t);
        lemma_digit_run_concat(b.skip(1), t);
    }
    assert((b + t).take(b.len() as int) =~= b);
    assert((b + t).skip(b.len() as int) =~= t);
}

/// Scanning the escaped form of any byte sequence accumulates the
/// original bytes verbatim up to the closing quote: every escape decodes
/// to the byte it stood for, and an unescaped byte is never a quote or a
/// backslash.
#[verifier::rlimit(100)]
proof fn lemma_rt_string_body(bs: Seq<u8>, acc: Seq<u8>, rest: Seq<u8>)
    ensures
        spec_string_body(esc_bytes(bs) + seq![34u8] + rest, acc) == spec_string_body(
            seq![34u8] + rest,
            acc + bs,
        ),
    decreases bs.len(),
{
    if bs.len() == 0 {
        assert(esc_bytes(bs) + seq![34u8] + rest =~= seq![34u8] + rest);
        assert(acc + bs =~= acc);
    } else {
        let b = bs[0];
        let s = esc_bytes(bs) + seq![34u8] + rest;
        let s1 = esc_bytes(bs.skip(1)) + seq![34u8] + rest;
        assert(esc_bytes(bs) == esc_byte(b) + esc_bytes(bs.skip(1)));
        if b == 34 || b == 92 || b == 47 || b == 10 || b == 13 || b == 9 || b == 8 || b == 12 {
            assert(esc_byte(b).len() == 2 && esc_byte(b)[0] == 92);
            assert(s[0] == 92);
            assert(s.skip(1) =~= seq![esc_byte(b)[1]] + s1);
            assert(s.skip(1)[0] == esc_byte(b)[1]);
            assert(s.skip(1).skip(1) =~= s1);
            assert(spec_escape(s.skip(1), acc) == PRes::<Seq<u8>>::Done(acc.push(b), s1));
            assert(s1.len() < s.len());
        } else {
            assert(esc_byte(b) =~= seq![b]);
            assert(s[0] == b);
            assert(b != 92 && b != 34);
            assert(s.skip(1) =~= s1);
        }
        assert(acc.push(b) + bs.skip(1) =~= acc + bs);
        lemma_rt_string_body(bs.skip(1), acc.push(b), rest);
    }
}

/// The first byte of a serialised well-formed value: never whitespace,
/// never a closing bracket or separator, so it neither extends the
/// whitespace before it nor ends the list around it.
pub open spec fn ser_head_ok(b: u8) -> bool {
    b == 110 || b == 116 || b == 102 || (48 <= b <= 57) || b == 45 || b == 34 || b == 91 || b
        == 123
}

/// A serialised well-formed value is nonempty and starts with a byte
/// that is neither whitespace nor punctuation of the enclosing list.
proof fn lemma_ser_head(v: JsonModel, ind: Seq<u8>, line: nat)
    requires
        wf_value(v),
    ensures
        spec_ser_value(v, ind, line).0.len() > 0,
        ser_head_ok(spec_ser_value(v, ind, line).0[0]),
        v is Number ==> spec_ser_value(v, ind, line).0[0] == 45 || is_digit(
            spec_ser_value(v, ind, line).0[0],
        ),
{
    match v {
        JsonModel::Number(t) => {
            lemma_ascii_encode(t);
            assert(encode_utf8(t) == ascii_bytes(t));
            let (neg, ip, fp, ep): (bool, Seq<u8>, Option<Seq<u8>>, Option<(bool, Seq<u8>)>) =
                choose|
                neg: bool,
                ip: Seq<u8>,
                fp: Option<Seq<u8>>,
                ep: Option<(bool, Seq<u8>)>,
            |
                num_parts_ok(neg, ip, fp, ep) && ascii_bytes(t) == num_build(neg, ip, fp, ep);
            if neg {
                assert(ascii_bytes(t)[0] == 45);
            } else {
                assert(ascii_bytes(t)[0] == ip[0]);
                assert(is_digit(ip[0]));
            }
        },
        _ => {},
    }
}

/// A serialised string parses back to its text, leaving exactly what
/// followed it.
proof fn lemma_rt_plain_string(t: Seq<char>, rest: Seq<u8>)
    ensures
        spec_plain_string(ser_string(t) + rest) == PRes::Done(t, rest),
{
    let bs = encode_utf8(t);
    let s = ser_string(t) + rest;
    assert(s =~= seq![34u8] + (esc_bytes(bs) + seq![34u8] + rest));
    assert(s[0] == 34);
    assert(s.skip(1) =~= esc_bytes(bs) + seq![34u8] + rest);
    lemma_rt_string_body(bs, Seq::empty(), rest);
    let closing = seq![34u8] + rest;
    assert(Seq::<u8>::empty() + bs =~= bs);
    assert(closing[0] == 34);
    vstd::utf8::encode_utf8_valid_utf8(t);
    vstd::utf8::encode_utf8_decode_utf8(t);
    assert(closing.skip(1) =~= rest);
}

/// The optional fraction and exponent pieces of a serialised normalized
/// number parse back, extending the collected text, and stop at the
/// boundary that follows the value.
#[verifier::rlimit(100)]
#[verifier::spinoff_prover]
proof fn lemma_rt_number_tail(
    v2: Seq<u8>,
    fp: Option<Seq<u8>>,
    ep: Option<(bool, Seq<u8>)>,
    rest: Seq<u8>,
)
    requires
        forall|i: int| 0 <= i < v2.len() ==> #[trigger] v2[i] < 128,
        fp matches Some(f) ==> all_digits(f) && f.len() >= 1,
        ep matches Some(e) ==> all_digits(e.1) && e.1.len() >= 1,
        rt_boundary(rest),
    ensures
        ({
            let fseg: Seq<u8> = match fp {
                Some(f) => seq![46u8] + f,
                None => Seq::<u8>::empty(),
            };
            let eseg: Seq<u8> = match ep {
                Some(e) => seq![101u8] + (if e.0 {
                    seq![45u8]
                } else {
                    Seq::<u8>::empty()
                }) + e.1,
                None => Seq::<u8>::empty(),
            };
            crate::grammar::spec_number_tail(v2, fseg + eseg + rest) == PRes::Done(
                JsonModel::Number(decode_utf8(v2 + fseg + eseg)),
                rest,
            )
        }),
{
    let fseg: Seq<u8> = match fp {
        Some(f) => seq![46u8] + f,
        None => Seq::<u8>::empty(),
    };
    let eseg: Seq<u8> = match ep {
        Some(e) => seq![101u8] + (if e.0 {
            seq![45u8]
        } else {
            Seq::<u8>::empty()
        }) + e.1,
        None => Seq::<u8>::empty(),
    };
    let tail0 = fseg + eseg + rest;
    let tail1 = eseg + rest;
    // the fraction piece
    let v3: Seq<u8> = match fp {
        Some(f) => v2.push(46) + f,
        None => v2,
    };
    assert(tail1.len() > 0 ==> !is_digit(tail1[0]) && tail1[0] != 46) by {
        if ep is Some {
            assert(tail1[0] == 101);
        } else {
            assert(tail1 =~= rest);
        }
    }
    match fp {
        Some(f) => {
            assert(tail0 =~= (seq![46u8] + f) + tail1);
            assert(tail0[0] == 46);
            assert(tail0.skip(1) =~= f + tail1);
            lemma_digit_run_concat(f, tail1);
            assert(spec_jfrac(tail0.skip(1), v2) == PRes::<Seq<u8>>::Done(v3, tail1)) by {
                assert((f + tail1).take(f.len() as int) =~= f);
                assert((f + tail1).skip(f.len() as int) =~= tail1);
            }
        },
        None => {
            assert(tail0 =~= tail1);
            if tail0.len() > 0 {
                assert(tail0[0] != 46);
            }
        },
    }
    // the exponent piece
    let v4: Seq<u8> = match ep {
        Some(e) => (if e.0 {
            v3.push(101).push(45)
        } else {
            v3.push(101)
        }) + e.1,
        None => v3,
    };
    match ep {
        Some(e) => {
            assert(tail1[0] == 101 && tail1[0] != 69);
            let after_e: Seq<u8> = (if e.0 {
                seq![45u8]
            } else {
                Seq::<u8>::empty()
            }) + e.1;
            assert(tail1.skip(1) =~= after_e + rest);
            assert(rest.len() > 0 ==> !is_digit(rest[0]) && rest[0] != 45 && rest[0] != 43);
            lemma_digit_run_concat(e.1, rest);
            if e.0 {
                assert((after_e + rest)[0] == 45);
                assert((after_e + rest).skip(1) =~= e.1 + rest);
                assert((e.1 + rest).take(e.1.len() as int) =~= e.1);
                assert((e.1 + rest).skip(e.1.len() as int) =~= rest);
            } else {
                assert((after_e + rest) =~= e.1 + rest);
                assert((e.1 + rest)[0] == e.1[0]);
                assert(is_digit(e.1[0]));
                assert((e.1 + rest).take(e.1.len() as int) =~= e.1);
                assert((e.1 + rest).skip(e.1.len() as int) =~= rest);
            }
            assert(spec_jexp(tail1.skip(1), v3) == PRes::<Seq<u8>>::Done(v4, rest));
        },
        None => {
            assert(tail1 =~= rest);
            if rest.len() > 0 {
                assert(rest[0] != 101 && rest[0] != 69);
            }
        },
    }
    assert(v4 =~= v2 + fseg + eseg);
    assert(forall|i: int| 0 <= i < v4.len() ==> #[trigger] v4[i] < 128) by {
        assert(forall|i: int|
            0 <= i < v4.len() ==> v4[i] == (v2 + fseg + eseg)[i]);
    }
    crate::unicode::lemma_ascii_decode(v4);
}

/// A serialised normalized number literal parses back to its text: the
/// optional pieces are probed exactly where the shape put them, and the
/// digit runs stop at the boundary that follows the value.
#[verifier::rlimit(100)]
#[verifier::spinoff_prover]
proof fn lemma_rt_number(t: Seq<char>, rest: Seq<u8>)
    requires
        wf_number(t),
        rt_boundary(rest),
    ensures
        spec_jnumber(encode_utf8(t) + rest) == PRes::Done(JsonModel::Number(t), rest),
{
    lemma_ascii_encode(t);
    let bs = encode_utf8(t);
    assert(bs == ascii_bytes(t));
    assert(forall|i: int| 0 <= i < bs.len() ==> #[trigger] bs[i] < 128) by {
        assert(forall|i: int| 0 <= i < bs.len() ==> bs[i] == (#[trigger] (t[i] as u32)) as u8);
    }
    let (neg, ip, fp, ep): (bool, Seq<u8>, Option<Seq<u8>>, Option<(bool, Seq<u8>)>) = choose|
        neg: bool,
        ip: Seq<u8>,
        fp: Option<Seq<u8>>,
        ep: Option<(bool, Seq<u8>)>,
    | num_parts_ok(neg, ip, fp, ep) && ascii_bytes(t) == num_build(neg, ip, fp, ep);
    let pre: Seq<u8> = if neg {
        seq![45u8]
    } else {
        Seq::<u8>::empty()
    };
    let fseg: Seq<u8> = match fp {
        Some(f) => seq![46u8] + f,
        None => Seq::<u8>::empty(),
    };
    let eseg: Seq<u8> = match ep {
        Some(e) => seq![101u8] + (if e.0 {
            seq![45u8]
        } else {
            Seq::<u8>::empty()
        }) + e.1,
        None => Seq::<u8>::empty(),
    };
    assert(bs == pre + ip + fseg + eseg);
    let s = bs + rest;
    let tail0 = fseg + eseg + rest;
    let s1 = ip + tail0;
    assert(s =~= pre + s1);
    assert(s1[0] == ip[0]);
    assert(is_digit(ip[0]));
    if neg {
        assert(s[0] == 45);
        assert(s.skip(1) =~= s1);
    } else {
        assert(s[0] == ip[0] && s[0] != 45);
        assert(s =~= s1);
    }
    // the integer part
    assert(tail0.len() > 0 ==> !is_digit(tail0[0])) by {
        if fp is Some {
            assert(tail0[0] == 46);
        } else if ep is Some {
            assert(eseg[0] == 101);
            assert(tail0 =~= eseg + rest);
        } else {
            assert(tail0 =~= rest);
        }
    }
    lemma_digit_run_concat(ip, tail0);
    let v2 = pre + ip;
    assert(forall|i: int| 0 <= i < v2.len() ==> #[trigger] v2[i] < 128) by {
        assert(forall|i: int| 0 <= i < v2.len() ==> v2[i] == bs[i]);
    }
    if ip[0] == 48 {
        assert(ip.len() == 1);
        assert(ip =~= seq![48u8]);
        assert(pre.push(48) =~= v2);
        assert(s1.skip(1) =~= tail0);
    } else {
        assert(digit_run(s1) == ip.len());
        assert(s1.take(ip.len() as int) =~= ip);
        assert(pre + s1.take(ip.len() as int) =~= v2);
        assert(s1.skip(ip.len() as int) =~= tail0);
    }
    lemma_rt_number_tail(v2, fp, ep, rest);
    assert(v2 + fseg + eseg =~= bs);
    vstd::utf8::encode_utf8_valid_utf8(t);
    vstd::utf8::encode_utf8_decode_utf8(t);
}

/// Round trip of one well-formed value: parsing its serialised bytes,
/// followed by anything a serialiser may put after them, yields the value
/// back, leaving the container's trailing line break and the rest.
pub proof fn lemma_rt_value(v: JsonModel, ind: Seq<u8>, line: nat, rest: Seq<u8>)
    requires
        wf_value(v),
        all_ws(ind),
        rt_boundary(rest),
    ensures
        spec_jvalue(spec_ser_value(v, ind, line).0 + rest) == PRes::Done(v, rt_tail(v) + rest),
    decreases v, 0int,
{
    match v {
        JsonModel::Null => lemma_rt_scalar(v, ind, line, rest),
        JsonModel::Boolean(_) => lemma_rt_scalar(v, ind, line, rest),
        JsonModel::Number(_) => lemma_rt_scalar(v, ind, line, rest),
        JsonModel::String(_) => lemma_rt_scalar(v, ind, line, rest),
        JsonModel::Array(a) => lemma_rt_array(a, ind, line, rest),
        JsonModel::Object(es) => lemma_rt_object(es, ind, line, rest),
    }
}

/// Round trip of a scalar or string value.
#[verifier::rlimit(100)]
proof fn lemma_rt_scalar(v: JsonModel, ind: Seq<u8>, line: nat, rest: Seq<u8>)
    requires
        wf_value(v),
        !(v is Array),
        !(v is Object),
        rt_boundary(rest),
    ensures
        spec_jvalue(spec_ser_value(v, ind, line).0 + rest) == PRes::Done(v, rt_tail(v) + rest),
{
    let b = spec_ser_value(v, ind, line).0;
    let s = b + rest;
    assert(rt_tail(v) + rest =~= rest);
    match v {
        JsonModel::Null => {
            assert(s[0] == 110);
            assert(s.len() >= 4);
            assert(s.take(4) =~= seq![110u8, 117, 108, 108]);
            assert(s.skip(4) =~= rest);
        },
        JsonModel::Boolean(t) => {
            if t {
                assert(s[0] == 116);
                assert(s.skip(1) =~= seq![114u8, 117, 101] + rest);
                let s1 = s.skip(1);
                assert(s1.len() >= 3);
                assert(s1.take(3) =~= seq![114u8, 117, 101]);
                assert(s1.skip(3) =~= rest);
            } else {
                assert(s[0] == 102);
                assert(s.skip(1) =~= seq![97u8, 108, 115, 101] + rest);
                let s1 = s.skip(1);
                assert(s1.len() >= 4);
                assert(s1.take(4) =~= seq![97u8, 108, 115, 101]);
                assert(s1.skip(4) =~= rest);
            }
        },
        JsonModel::Number(t) => {
            lemma_ser_head(v, ind, line);
            assert(s =~= encode_utf8(t) + rest);
            assert(s[0] != 34 && s[0] != 123 && s[0] != 91 && s[0] != 110 && s[0] != 116 && s[0]
                != 102);
            lemma_rt_number(t, rest);
        },
        JsonModel::String(t) => {
            assert(s =~= ser_string(t) + rest);
            assert(s[0] == 34);
            lemma_rt_plain_string(t, rest);
        },
        _ => {},
    }
}

/// Round trip of an array value.
#[verifier::rlimit(100)]
proof fn lemma_rt_array(a: Seq<JsonModel>, ind: Seq<u8>, line: nat, rest: Seq<u8>)
    requires
        wf_value(JsonModel::Array(a)),
        all_ws(ind),
        rt_boundary(rest),
    ensures
        spec_jvalue(spec_ser_value(JsonModel::Array(a), ind, line).0 + rest) == PRes::Done(
            JsonModel::Array(a),
            seq![10u8] + rest,
        ),
    decreases a, 3int,
{
    let v = JsonModel::Array(a);
    let b = spec_ser_value(v, ind, line).0;
    let s = b + rest;
    let ind2 = ind.push(32).push(32);
    let (body, _l) = spec_ser_items(a, true, ind2, 0);
    assert(b =~= seq![91u8, 10] + body + seq![10u8] + ind + seq![93u8, 10]);
    assert(s[0] == 91);
    assert(all_ws(ind2));
    let close = seq![10u8] + ind + seq![93u8, 10];
    if a.len() == 0 {
        assert(body =~= Seq::<u8>::empty());
        let w = seq![10u8, 10] + ind;
        let t0 = seq![93u8, 10] + rest;
        assert(s.skip(1) =~= w + t0);
        assert(all_ws(w));
        lemma_skip_ws_past(w, t0);
        assert(t0[0] == 93);
        assert(t0.skip(1) =~= seq![10u8] + rest);
        assert(a =~= Seq::<JsonModel>::empty());
        assert(spec_jvalue(s) == PRes::Done(JsonModel::Array(a), seq![10u8] + rest));
    } else {
        let (body0, l2) = spec_ser_value(a[0], ind2, (ind2.len()) as nat);
        let (restb, _l3) = spec_ser_items(a.drop_first(), false, ind2, l2);
        assert(body =~= ind2 + body0 + restb);
        let w = seq![10u8] + ind2;
        let t0 = body0 + restb + close + rest;
        assert(s.skip(1) =~= w + t0);
        assert(all_ws(w));
        assert(wf_value(a[0]));
        lemma_ser_head(a[0], ind2, ind2.len() as nat);
        assert(t0[0] == body0[0]);
        lemma_skip_ws_past(w, t0);
        assert(!is_ws(t0[0]) && t0[0] != 93);
        lemma_rt_items(a, ind, ind2, Seq::empty(), ind2.len() as nat, rest);
        assert(Seq::<u8>::empty() + t0 =~= t0);
        assert(spec_items(t0) == PRes::Done(a, seq![93u8, 10] + rest));
        let after = seq![93u8, 10] + rest;
        assert(after[0] == 93);
        assert(after.skip(1) =~= seq![10u8] + rest);
        assert(spec_jvalue(s) == PRes::Done(JsonModel::Array(a), seq![10u8] + rest));
    }
}

/// Round trip of an object value.
#[verifier::rlimit(100)]
proof fn lemma_rt_object(
    es: Seq<(Seq<char>, JsonModel)>,
    ind: Seq<u8>,
    line: nat,
    rest: Seq<u8>,
)
    requires
        wf_value(JsonModel::Object(es)),
        all_ws(ind),
        rt_boundary(rest),
    ensures
        spec_jvalue(spec_ser_value(JsonModel::Object(es), ind, line).0 + rest) == PRes::Done(
            JsonModel::Object(es),
            seq![10u8] + rest,
        ),
    decreases es, 3int,
{
    let v = JsonModel::Object(es);
    let b = spec_ser_value(v, ind, line).0;
    let s = b + rest;
    let ind2 = ind.push(32).push(32);
    let (body, _l) = spec_ser_members(es, true, ind2, (line + 2) as nat);
    assert(b =~= seq![123u8, 10] + body + seq![10u8] + ind + seq![125u8, 10]);
    assert(s[0] == 123);
    assert(all_ws(ind2));
    let close = seq![10u8] + ind + seq![125u8, 10];
    if es.len() == 0 {
        assert(body =~= Seq::<u8>::empty());
        let w = seq![10u8, 10] + ind;
        let t0 = seq![125u8, 10] + rest;
        assert(s.skip(1) =~= w + t0);
        assert(all_ws(w));
        lemma_skip_ws_past(w, t0);
        assert(t0[0] == 125);
        assert(t0.skip(1) =~= seq![10u8] + rest);
    } else {
        let line1 = ((line + 2) + ind2.len()) as nat;
        let key = ser_string(es[0].0);
        let (body0, l2) = spec_ser_value(es[0].1, ind2, (line1 + key.len() + 2) as nat);
        let (restm, _l3) = spec_ser_members(es.drop_first(), false, ind2, l2);
        assert(body =~= ind2 + key + seq![58u8, 32] + body0 + restm);
        let w = seq![10u8] + ind2;
        let t0 = key + seq![58u8, 32] + body0 + restm + close + rest;
        assert(s.skip(1) =~= w + t0);
        assert(all_ws(w));
        assert(t0[0] == 34);
        lemma_skip_ws_past(w, t0);
        lemma_rt_members(es, ind, ind2, Seq::empty(), line1, Seq::empty(), rest);
        assert(Seq::<u8>::empty() + t0 =~= t0);
        assert(Seq::<(Seq<char>, JsonModel)>::empty() + es =~= es);
        assert(spec_kv_loop(t0, Seq::<(Seq<char>, JsonModel)>::empty()) == PRes::Done(
            es,
            seq![125u8, 10] + rest,
        ));
        let after = seq![125u8, 10] + rest;
        assert(after[0] == 125);
        assert(after.skip(1) =~= seq![10u8] + rest);
    }
}

/// Round trip of an array's element list: from the first element's bytes
/// on — any leading whitespace allowed — the list parses back to exactly
/// the elements, stopping at the closing bracket.
#[verifier::rlimit(100)]
#[verifier::spinoff_prover]
pub proof fn lemma_rt_items(
    a: Seq<JsonModel>,
    ind: Seq<u8>,
    ind2: Seq<u8>,
    w: Seq<u8>,
    line: nat,
    rest: Seq<u8>,
)
    requires
        a.len() >= 1,
        forall|i: int| 0 <= i < a.len() ==> wf_value(#[trigger] a[i]),
        all_ws(ind),
        all_ws(w),
        ind2 == ind.push(32).push(32),
        rt_boundary(rest),
    ensures
        ({
            let (body0, l2) = spec_ser_value(a[0], ind2, line);
            let (restb, _l3) = spec_ser_items(a.drop_first(), false, ind2, l2);
            spec_items(w + (body0 + restb + (seq![10u8] + ind + seq![93u8, 10]) + rest))
                == PRes::Done(a, seq![93u8, 10] + rest)
        }),
    decreases a, 2int,
{
    assert(all_ws(ind2));
    let close = seq![10u8] + ind + seq![93u8, 10];
    let (body0, l2) = spec_ser_value(a[0], ind2, line);
    let (restb, _l3) = spec_ser_items(a.drop_first(), false, ind2, l2);
    let s = w + (body0 + restb + close + rest);
    let t0 = body0 + restb + close + rest;
    lemma_ser_head(a[0], ind2, line);
    assert(t0[0] == body0[0]);
    lemma_skip_ws_past(w, t0);
    assert(skip_ws(s) == t0);
    // the element itself
    let vrest = restb + close + rest;
    assert(t0 =~= body0 + vrest);
    if a.len() == 1 {
        assert(restb =~= Seq::<u8>::empty());
        assert(vrest =~= close + rest);
        assert(vrest[0] == 10);
    } else {
        assert(a.drop_first().len() >= 1);
        assert(restb[0] == 44);
        assert(vrest[0] == 44);
    }
    lemma_rt_value(a[0], ind2, line, vrest);
    assert(spec_jvalue(t0) == PRes::Done(a[0], rt_tail(a[0]) + vrest));
    // after the element: whitespace, then either the comma or the bracket
    let tail = rt_tail(a[0]);
    assert(all_ws(tail));
    if a.len() == 1 {
        let after = seq![93u8, 10] + rest;
        assert(tail + vrest =~= (tail + seq![10u8] + ind) + after);
        assert(all_ws(tail + seq![10u8] + ind));
        lemma_skip_ws_past(tail + seq![10u8] + ind, after);
        assert(after[0] == 93);
        assert(seq![a[0]] =~= a);
    } else {
        // the next separator starts with the comma
        let a1 = a.drop_first();
        let (sep, line1): (Seq<u8>, nat) = if l2 >= 120 {
            (seq![44u8, 10] + ind2, ind2.len() as nat)
        } else {
            (seq![44u8, 32], (l2 + 2) as nat)
        };
        let (body1, l2b) = spec_ser_value(a1[0], ind2, line1);
        let (restb1, _l3b) = spec_ser_items(a1.drop_first(), false, ind2, l2b);
        assert(restb =~= sep + body1 + restb1);
        let r1 = restb + close + rest;
        assert(tail + vrest =~= tail + r1);
        lemma_skip_ws_past(tail, r1);
        assert(r1[0] == 44);
        // progress for the guarded recursion
        assert(r1.len() < s.len());
        // recurse on the remaining elements, with the separator's
        // whitespace as the new leading run
        let w1 = sep.skip(1);
        assert(all_ws(w1));
        assert(r1.skip(1) =~= w1 + (body1 + restb1 + close + rest));
        lemma_rt_items(a1, ind, ind2, w1, line1, rest);
        assert(spec_items(r1.skip(1)) == PRes::Done(a1, seq![93u8, 10] + rest));
        assert(seq![a[0]] + a1 =~= a);
    }
}

/// Round trip of one object member: whitespace, the quoted key, the
/// colon, the value.
#[verifier::rlimit(100)]
proof fn lemma_rt_keyvalue(
    k: Seq<char>,
    v: JsonModel,
    ind2: Seq<u8>,
    w: Seq<u8>,
    lv: nat,
    after: Seq<u8>,
)
    requires
        wf_value(v),
        all_ws(w),
        all_ws(ind2),
        rt_boundary(after),
        after.len() > 0,
    ensures
        ({
            let body0 = spec_ser_value(v, ind2, lv).0;
            spec_keyvalue(w + (ser_string(k) + seq![58u8, 32] + body0 + after)) == PRes::Done(
                (k, v),
                rt_tail(v) + after,
            )
        }),
    decreases v, 1int,
{
    let key = ser_string(k);
    let body0 = spec_ser_value(v, ind2, lv).0;
    let s = w + (key + seq![58u8, 32] + body0 + after);
    let after_key = seq![58u8, 32] + body0 + after;
    let t0 = key + after_key;
    assert(s =~= w + t0);
    assert(t0[0] == 34);
    lemma_skip_ws_past(w, t0);
    lemma_rt_plain_string(k, after_key);
    assert(after_key[0] == 58);
    assert(skip_ws(after_key) == after_key) by {
        lemma_skip_ws_past(Seq::empty(), after_key);
        assert(Seq::<u8>::empty() + after_key =~= after_key);
    }
    assert(after_key.skip(1) =~= seq![32u8] + (body0 + after));
    lemma_ser_head(v, ind2, lv);
    assert((body0 + after)[0] == body0[0]);
    lemma_skip_ws_past(seq![32u8], body0 + after);
    assert((body0 + after).len() < s.len());
    lemma_rt_value(v, ind2, lv, after);
    assert(spec_keyvalue(s) == PRes::Done((k, v), rt_tail(v) + after));
}

/// Round trip of an object's member list: from the first key's bytes on
/// — any leading whitespace allowed — the members parse back and extend
/// the accumulated list, stopping at the closing brace.  No key may
/// repeat across the accumulated and the remaining members.
#[verifier::rlimit(100)]
#[verifier::spinoff_prover]
proof fn lemma_rt_member_last(
    es: Seq<(Seq<char>, JsonModel)>,
    ind: Seq<u8>,
    ind2: Seq<u8>,
    w: Seq<u8>,
    line: nat,
    acc: Seq<(Seq<char>, JsonModel)>,
    rest: Seq<u8>,
)
    requires
        es.len() == 1,
        forall|i: int| 0 <= i < es.len() ==> wf_value(#[trigger] (es[i].1)),
        forall|i: int, j: int|
            0 <= i < j < (acc + es).len() ==> (acc + es)[i].0 != (acc + es)[j].0,
        all_ws(ind),
        all_ws(w),
        ind2 == ind.push(32).push(32),
        rt_boundary(rest),
    ensures
        ({
            let key = ser_string(es[0].0);
            let (body0, l2) = spec_ser_value(es[0].1, ind2, (line + key.len() + 2) as nat);
            let (restm, _l3) = spec_ser_members(es.drop_first(), false, ind2, l2);
            spec_kv_loop(
                w + (key + seq![58u8, 32] + body0 + restm + (seq![10u8] + ind + seq![125u8, 10])
                    + rest),
                acc,
            ) == PRes::Done(acc.push(es[0]), seq![125u8, 10] + rest)
        }),
    decreases es, 1int,
{
    assert(all_ws(ind2));
    let close = seq![10u8] + ind + seq![125u8, 10];
    let key = ser_string(es[0].0);
    let (body0, l2) = spec_ser_value(es[0].1, ind2, (line + key.len() + 2) as nat);
    let (restm, _l3) = spec_ser_members(es.drop_first(), false, ind2, l2);
    let s = w + (key + seq![58u8, 32] + body0 + restm + close + rest);
    let vrest = close + rest;
    assert(restm == Seq::<u8>::empty()) by {
        assert(restm =~= Seq::<u8>::empty());
    }
    assert(vrest[0] == 10);
    assert(key + seq![58u8, 32] + body0 + restm + close + rest == key + seq![58u8, 32] + body0
        + vrest) by {
        assert(key + seq![58u8, 32] + body0 + restm + close + rest =~= key + seq![58u8, 32] + body0
            + vrest);
    }
    lemma_rt_keyvalue(es[0].0, es[0].1, ind2, w, (line + key.len() + 2) as nat, vrest);
    assert(spec_keyvalue(s) == PRes::Done((es[0].0, es[0].1), rt_tail(es[0].1) + vrest));
    assert((es[0].0, es[0].1) == es[0]);
    lemma_fresh_key(es, acc);
    let tail = rt_tail(es[0].1);
    assert(all_ws(tail));
    let after = seq![125u8, 10] + rest;
    assert(tail + vrest == (tail + seq![10u8] + ind) + after) by {
        assert(tail + vrest =~= (tail + seq![10u8] + ind) + after);
    }
    assert(all_ws(tail + seq![10u8] + ind));
    lemma_skip_ws_past(tail + seq![10u8] + ind, after);
    assert(after[0] == 125);
}

/// The first member of a list whose keys are distinct from everything
/// accumulated so far is fresh in the accumulated list.
proof fn lemma_fresh_key(es: Seq<(Seq<char>, JsonModel)>, acc: Seq<(Seq<char>, JsonModel)>)
    requires
        es.len() >= 1,
        forall|i: int, j: int|
            0 <= i < j < (acc + es).len() ==> (acc + es)[i].0 != (acc + es)[j].0,
    ensures
        !crate::has_key(acc, es[0].0),
{
    if crate::has_key(acc, es[0].0) {
        let i = choose|i: int| 0 <= i < acc.len() && acc[i].0 == es[0].0;
        assert((acc + es)[i] == acc[i]);
        assert((acc + es)[acc.len() as int] == es[0]);
    }
}

/// Splitting a member separator: a list continuation starts with the
/// comma, and dropping it leaves the separator's line break and
/// indentation before the next member's bytes.
proof fn lemma_sep_shape(restm: Seq<u8>, ind2: Seq<u8>, x: Seq<u8>, close: Seq<u8>, rest: Seq<u8>)
    requires
        restm == seq![44u8, 10] + ind2 + x,
    ensures
        (restm + close + rest)[0] == 44,
        (restm + close + rest).len() > 0,
        (restm + close + rest).skip(1) == (seq![10u8] + ind2) + (x + close + rest),
{
    assert((restm + close + rest)[0] == 44);
    assert((restm + close + rest).skip(1) =~= (seq![10u8] + ind2) + (x + close + rest));
}

#[verifier::rlimit(100)]
#[verifier::spinoff_prover]
proof fn lemma_rt_member_cons(
    es: Seq<(Seq<char>, JsonModel)>,
    ind: Seq<u8>,
    ind2: Seq<u8>,
    w: Seq<u8>,
    line: nat,
    acc: Seq<(Seq<char>, JsonModel)>,
    rest: Seq<u8>,
)
    requires
        es.len() >= 2,
        forall|i: int| 0 <= i < es.len() ==> wf_value(#[trigger] (es[i].1)),
        forall|i: int, j: int|
            0 <= i < j < (acc + es).len() ==> (acc + es)[i].0 != (acc + es)[j].0,
        all_ws(ind),
        all_ws(w),
        ind2 == ind.push(32).push(32),
        rt_boundary(rest),
    ensures
        ({
            let key = ser_string(es[0].0);
            let (body0, l2) = spec_ser_value(es[0].1, ind2, (line + key.len() + 2) as nat);
            let (restm, _l3) = spec_ser_members(es.drop_first(), false, ind2, l2);
            let es1 = es.drop_first();
            let key1 = ser_string(es1[0].0);
            let line1 = (l2 + 2 + ind2.len()) as nat;
            let (body1, l2b) = spec_ser_value(es1[0].1, ind2, (line1 + key1.len() + 2) as nat);
            let (restm1, _l3b) = spec_ser_members(es1.drop_first(), false, ind2, l2b);
            spec_kv_loop(
                w + (key + seq![58u8, 32] + body0 + restm + (seq![10u8] + ind + seq![125u8, 10])
                    + rest),
                acc,
            ) == spec_kv_loop(
                (seq![10u8] + ind2) + ((key1 + seq![58u8, 32] + body1 + restm1) + (seq![10u8] + ind
                    + seq![125u8, 10]) + rest),
                acc.push(es[0]),
            )
        }),
    decreases es, 1int,
{
    assert(all_ws(ind2));
    let close = seq![10u8] + ind + seq![125u8, 10];
    let key = ser_string(es[0].0);
    let (body0, l2) = spec_ser_value(es[0].1, ind2, (line + key.len() + 2) as nat);
    let (restm, _l3) = spec_ser_members(es.drop_first(), false, ind2, l2);
    let s = w + (key + seq![58u8, 32] + body0 + restm + close + rest);
    let vrest = restm + close + rest;
    let es1 = es.drop_first();
    let key1 = ser_string(es1[0].0);
    let line1 = (l2 + 2 + ind2.len()) as nat;
    let (body1, l2b) = spec_ser_value(es1[0].1, ind2, (line1 + key1.len() + 2) as nat);
    let (restm1, _l3b) = spec_ser_members(es1.drop_first(), false, ind2, l2b);
    assert(es1.len() >= 1);
    assert(restm == seq![44u8, 10] + ind2 + (key1 + seq![58u8, 32] + body1 + restm1)) by {
        assert(restm == (seq![44u8, 10] + ind2) + key1 + seq![58u8, 32] + body1 + restm1);
        let sep = seq![44u8, 10] + ind2;
        let x = key1 + seq![58u8, 32] + body1 + restm1;
        assert(sep + key1 + seq![58u8, 32] + body1 + restm1 =~= sep + x);
        assert(seq![44u8, 10] + ind2 + x =~= sep + x);
    }
    lemma_sep_shape(restm, ind2, key1 + seq![58u8, 32] + body1 + restm1, close, rest);
    assert(key + seq![58u8, 32] + body0 + restm + close + rest == key + seq![58u8, 32] + body0
        + vrest) by {
        let front = key + seq![58u8, 32] + body0;
        vstd::seq_lib::lemma_concat_associative(front + restm, close, rest);
        vstd::seq_lib::lemma_concat_associative(front, restm, close + rest);
        vstd::seq_lib::lemma_concat_associative(restm, close, rest);
        assert(restm + (close + rest) =~= vrest);
    }
    lemma_rt_keyvalue(es[0].0, es[0].1, ind2, w, (line + key.len() + 2) as nat, vrest);
    assert(spec_keyvalue(s) == PRes::Done((es[0].0, es[0].1), rt_tail(es[0].1) + vrest));
    assert((es[0].0, es[0].1) == es[0]);
    lemma_fresh_key(es, acc);
    let tail = rt_tail(es[0].1);
    assert(all_ws(tail));
    lemma_skip_ws_past(tail, vrest);
    assert(vrest.len() < s.len());
}

/// Round trip of an object's member list: from the first key's bytes on
/// — any leading whitespace allowed — the members parse back and extend
/// the accumulated list, stopping at the closing brace.  No key may
/// repeat across the accumulated and the remaining members.
#[verifier::rlimit(100)]
#[verifier::spinoff_prover]
pub proof fn lemma_rt_members(
    es: Seq<(Seq<char>, JsonModel)>,
    ind: Seq<u8>,
    ind2: Seq<u8>,
    w: Seq<u8>,
    line: nat,
    acc: Seq<(Seq<char>, JsonModel)>,
    rest: Seq<u8>,
)
    requires
        es.len() >= 1,
        forall|i: int| 0 <= i < es.len() ==> wf_value(#[trigger] (es[i].1)),
        forall|i: int, j: int|
            0 <= i < j < (acc + es).len() ==> (acc + es)[i].0 != (acc + es)[j].0,
        all_ws(ind),
        all_ws(w),
        ind2 == ind.push(32).push(32),
        rt_boundary(rest),
    ensures
        ({
            let key = ser_string(es[0].0);
            let (body0, l2) = spec_ser_value(es[0].1, ind2, (line + key.len() + 2) as nat);
            let (restm, _l3) = spec_ser_members(es.drop_first(), false, ind2, l2);
            spec_kv_loop(
                w + (key + seq![58u8, 32] + body0 + restm + (seq![10u8] + ind + seq![125u8, 10])
                    + rest),
                acc,
            ) == PRes::Done(acc + es, seq![125u8, 10] + rest)
        }),
    decreases es, 2int,
{
    let acc1 = acc.push(es[0]);
    assert(acc1 + es.drop_first() == acc + es) by {
        assert(acc1 + es.drop_first() =~= acc + es);
    }
    if es.len() == 1 {
        lemma_rt_member_last(es, ind, ind2, w, line, acc, rest);
        assert(acc1 == acc + es) by {
            assert(acc1 =~= acc + es);
        }
    } else {
        lemma_rt_member_cons(es, ind, ind2, w, line, acc, rest);
        let es1 = es.drop_first();
        let key = ser_string(es[0].0);
        let (body0, l2) = spec_ser_value(es[0].1, ind2, (line + key.len() + 2) as nat);
        let line1 = (l2 + 2 + ind2.len()) as nat;
        let w1 = seq![10u8] + ind2;
        assert(all_ws(w1)) by {
            assert(all_ws(ind2));
        }
        assert(forall|i: int| 0 <= i < es1.len() ==> wf_value(#[trigger] (es1[i].1)));
        lemma_rt_members(es1, ind, ind2, w1, line1, acc1, rest);
    }
}

/// The round-trip law: every well-formed value — object keys unique,
/// number texts in the parser's own normalized shape, strings arbitrary —
/// parses back from its own serialisation, leaving only a container's
/// trailing line break unconsumed.
pub proof fn lemma_round_trip(v: JsonModel)
    requires
        wf_value(v),
    ensures
        spec_parse(spec_serialize(v)) == PRes::Done(v, rt_tail(v)),
{
    let b = spec_serialize(v);
    lemma_ser_head(v, Seq::empty(), 0);
    assert(all_ws(Seq::<u8>::empty()));
    lemma_skip_ws_past(Seq::empty(), b);
    assert(Seq::<u8>::empty() + b =~= b);
    lemma_rt_value(v, Seq::empty(), 0, Seq::empty());
    assert(b + Seq::<u8>::empty() =~= b);
    assert(rt_tail(v) + Seq::<u8>::empty() =~= rt_tail(v));
}

/// The round-trip law at the generator: every value the random generator
/// can produce parses back from its own serialisation.
pub proof fn lemma_round_trip_generated(v: JsonModel)
    requires
        gen_inv(v),
    ensures
        spec_parse(spec_serialize(v)) == PRes::Done(v, rt_tail(v)),
{
    lemma_gen_wf(v);
    lemma_round_trip(v);
}

/// The idempotence law of the pretty-printer: serialising, parsing, and
/// serialising again reproduces the bytes of the first serialisation, for
/// every well-formed value.
pub proof fn lemma_serialize_idempotent(v: JsonModel)
    requires
        wf_value(v),
    ensures
        spec_parse(spec_serialize(v)) matches PRes::Done(v2, _) && spec_serialize(v2)
            == spec_serialize(v),
{
    lemma_round_trip(v);
}

} // verus!
