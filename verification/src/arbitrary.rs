//! The random Json value generator: a depth- and size-bounded value
//! constructor used to drive round-trip tests of the parser and
//! serialiser.
//!
//! Nothing can be promised of a random draw, so the contracts state what
//! holds of every outcome: a generated value is well formed — object keys
//! unique, number texts plain decimal literals, strings over a printable
//! alphabet that the serialiser never escapes — and its container nesting
//! is bounded.  [`gen_inv`] is exactly the precondition under which the
//! round-trip law of [`crate::laws`] applies.

use vstd::prelude::*;

use crate::numbers::{dec_bytes, dec_str, u64_to_string};
use crate::unicode::string_from_utf8;
use crate::{seq_view, Json, JsonMap, JsonModel};
use crate::serializing::spec_serialize;

verus! {

/// Relies on `rand::random`: a value of the requested type from the
/// thread-local generator.  Nothing is promised of the result.
pub assume_specification<T>[ rand::random::<T> ]() -> (r: T)
    where
        rand::distr::StandardUniform: rand::distr::Distribution<T>,
;

/// Text over the generator's alphabet: the 42 printable ASCII characters
/// from `0` to `Y`.  None of them is escaped by the serialiser, none ends
/// a string or starts an escape, so such text passes through a round trip
/// byte for byte.
pub open spec fn gen_text_ok(t: Seq<char>) -> bool {
    forall|i: int| 0 <= i < t.len() ==> 48 <= #[trigger] (t[i] as u32) <= 89
}

/// A plain decimal number literal: one or more digits, no leading zero
/// unless the text is just `0`.
pub open spec fn gen_num_ok(t: Seq<char>) -> bool {
    &&& t.len() >= 1
    &&& forall|i: int| 0 <= i < t.len() ==> 48 <= #[trigger] (t[i] as u32) <= 57
    &&& (t.len() > 1 ==> (t[0] as u32) != 48)
}

/// What holds of every value the generator can produce: strings and keys
/// over the generator's alphabet, numbers as plain decimal literals, and
/// objects without repeated keys.
pub open spec fn gen_inv(v: JsonModel) -> bool
    decreases v,
{
    match v {
        JsonModel::Null => true,
        JsonModel::Boolean(_) => true,
        JsonModel::Number(t) => gen_num_ok(t),
        JsonModel::String(t) => gen_text_ok(t),
        JsonModel::Array(a) => forall|i: int| 0 <= i < a.len() ==> gen_inv(#[trigger] a[i]),
        JsonModel::Object(es) => {
            &&& forall|i: int, j: int| 0 <= i < j < es.len() ==> es[i].0 != es[j].0
            &&& forall|i: int|
                0 <= i < es.len() ==> gen_text_ok(#[trigger] es[i].0) && gen_inv(es[i].1)
        },
    }
}

/// Container nesting of `v` stays below `d` levels.
pub open spec fn depth_le(v: JsonModel, d: nat) -> bool
    decreases v,
{
    match v {
        JsonModel::Array(a) => d >= 1 && forall|i: int|
            0 <= i < a.len() ==> depth_le(#[trigger] a[i], (d - 1) as nat),
        JsonModel::Object(es) => d >= 1 && forall|i: int|
            0 <= i < es.len() ==> depth_le(#[trigger] es[i].1, (d - 1) as nat),
        _ => true,
    }
}

/// The nesting allowance at a generation level: containers degrade to
/// `null` past the third level.
pub open spec fn gen_depth(level: usize) -> nat {
    if level < 3 {
        (3 - level) as nat
    } else {
        0
    }
}

/// The decimal text of any number is a well-formed number literal.
proof fn lemma_dec_str_ok(n: nat)
    ensures
        gen_num_ok(dec_str(n)),
    decreases n,
{
    crate::numbers::lemma_dec_bytes_ascii(n);
    if n >= 10 {
        lemma_dec_str_head(n);
    }
    assert forall|i: int| 0 <= i < dec_str(n).len() implies 48 <= #[trigger] (dec_str(n)[i]
        as u32) <= 57 by {
        assert(48 <= dec_bytes(n)[i] <= 57);
    }
}

/// A multi-digit decimal never starts with a zero.
proof fn lemma_dec_str_head(n: nat)
    requires
        n >= 10,
    ensures
        dec_bytes(n).len() > 1,
        dec_bytes(n)[0] != 48,
    decreases n,
{
    crate::numbers::lemma_dec_bytes_ascii(n / 10);
    if n / 10 >= 10 {
        lemma_dec_str_head(n / 10);
    }
}

/// Generates a random Json value, bounded in depth but not in size.
///
/// Every value it can produce is well formed in the sense of [`gen_inv`],
/// so the round-trip law applies to it: serialising it and parsing the
/// bytes back yields the value again.
pub fn make_arbitrary() -> (j: Json)
    ensures
        gen_inv(j@),
        depth_le(j@, 3),
{
    let mut have: usize = 0;
    make_value(0, usize::MAX, &mut have)
}

/// Generates a random Json value with at most `n` container elements and
/// members in total.  For `n = 0` the size is unbounded, like
/// [`make_arbitrary`].
pub fn make_n_arbitrary(n: usize) -> (j: Json)
    ensures
        gen_inv(j@),
        depth_le(j@, 3),
{
    let budget = if n == 0 {
        usize::MAX
    } else {
        n
    };
    let mut have: usize = 0;
    make_value(0, budget, &mut have)
}

/// One random value at the given nesting level: a uniform draw in
/// [0,100) selects the kind — null below 5, boolean below 15, number
/// below 30, string below 50, array below 75, object otherwise.
fn make_value(level: usize, max: usize, have: &mut usize) -> (j: Json)
    ensures
        gen_inv(j@),
        depth_le(j@, gen_depth(level)),
    decreases gen_depth(level), 1int,
{
    let x = rand::random::<u8>() % 100;

    if x < 5 {
        return Json::Null;
    }
    if x < 15 {
        return make_boolean();
    }
    if x < 30 {
        return make_number();
    }
    if x < 50 {
        return make_string();
    }
    if x < 75 {
        return make_array(level, max, have);
    }
    make_object(level, max, have)
}

/// A random boolean.
fn make_boolean() -> (j: Json)
    ensures
        gen_inv(j@),
        j@ is Boolean,
{
    let x = rand::random::<u8>() % 2;
    Json::Boolean(x == 0)
}

/// A random number: the decimal text of a random machine word.
fn make_number() -> (j: Json)
    ensures
        gen_inv(j@),
        j@ is Number,
{
    let n = rand::random::<u64>();
    proof {
        lemma_dec_str_ok(n as nat);
    }
    Json::Number(u64_to_string(n))
}

/// A random string value.
fn make_string() -> (j: Json)
    ensures
        gen_inv(j@),
        j@ is String,
{
    Json::String(random_string())
}

/// A random string over the generator's alphabet, between 2 and 26
/// characters long.  A draw that would be a backslash is replaced by a
/// dot, so generated text never holds one.
fn random_string() -> (r: String)
    ensures
        gen_text_ok(r@),
        2 <= r@.len() <= 26,
{
    let x = (rand::random::<u8>() % 25) + 2;
    let n = x as usize;
    let mut v: Vec<u8> = Vec::new();
    let mut i: usize = 0;
    while i < n
        invariant
            0 <= i <= n,
            v@.len() == i,
            forall|j: int| 0 <= j < i ==> 48 <= #[trigger] v@[j] <= 89,
        decreases n - i,
    {
        let b = rand::random::<u8>() % 42;
        let c = b + 48;
        if c == 92 {
            v.push(46);
        } else {
            v.push(c);
        }
        i += 1;
    }
    proof {
        crate::unicode::lemma_ascii_decode(v@);
    }
    match string_from_utf8(v) {
        Some(s) => s,
        None => {
            proof {
                assert(false);
            }
            String::new()
        },
    }
}

/// A random array: up to 99 recursively generated elements, fewer when
/// the size budget runs out; past the third nesting level the production
/// degrades to `null`.
fn make_array(level: usize, max: usize, have: &mut usize) -> (j: Json)
    ensures
        gen_inv(j@),
        depth_le(j@, gen_depth(level)),
    decreases gen_depth(level), 0int,
{
    if level > 2 {
        return Json::Null;
    }
    let x = rand::random::<u64>() % 100;
    let count = x as usize;

    let mut v: Vec<Json> = Vec::new();
    let mut k: usize = 0;
    while k < count && *have < max
        invariant
            level <= 2,
            forall|i: int|
                0 <= i < v@.len() ==> gen_inv(#[trigger] seq_view(v@)[i]) && depth_le(
                    seq_view(v@)[i],
                    gen_depth((level + 1) as usize),
                ),
        decreases count - k,
    {
        *have = *have + 1;
        let j = make_value(level + 1, max, have);
        let ghost old_items = v@;
        v.push(j);
        proof {
            assert(seq_view(v@) =~= seq_view(old_items).push(j@));
        }
        k += 1;
    }
    let result = Json::Array(v);
    proof {
        assert(gen_depth((level + 1) as usize) == (gen_depth(level) - 1) as nat);
        assert(result@ == JsonModel::Array(seq_view(v@)));
        assert(gen_inv(result@));
        assert(depth_le(result@, gen_depth(level)));
    }
    result
}

/// A random object: up to 24 recursively generated members, fewer when
/// the size budget runs out; a colliding key overwrites, so the realized
/// member count may be smaller than the draw; past the third nesting
/// level the production degrades to `null`.
fn make_object(level: usize, max: usize, have: &mut usize) -> (j: Json)
    ensures
        gen_inv(j@),
        depth_le(j@, gen_depth(level)),
    decreases gen_depth(level), 0int,
{
    if level > 2 {
        return Json::Null;
    }
    let x = rand::random::<u8>() % 25;
    let count = x as usize;

    let mut m = JsonMap::new();
    let mut k: usize = 0;
    while k < count && *have < max
        invariant
            level <= 2,
            m.wf(),
            forall|i: int|
                0 <= i < m@.len() ==> gen_text_ok(#[trigger] m@[i].0) && gen_inv(m@[i].1)
                    && depth_le(m@[i].1, gen_depth((level + 1) as usize)),
        decreases count - k,
    {
        *have = *have + 1;
        let key = random_string();
        let j = make_value(level + 1, max, have);
        m.insert(key, j);
        k += 1;
    }
    let result = Json::Object(Box::new(m));
    proof {
        assert(gen_depth((level + 1) as usize) == (gen_depth(level) - 1) as nat);
        assert(result@ == JsonModel::Object(m@));
        assert forall|i: int| 0 <= i < m@.len() implies depth_le(
            #[trigger] m@[i].1,
            (gen_depth(level) - 1) as nat,
        ) by {
            assert(gen_text_ok(m@[i].0) && gen_inv(m@[i].1) && depth_le(
                m@[i].1,
                gen_depth((level + 1) as usize),
            ));
        }
        assert(gen_inv(result@));
        assert(depth_le(result@, gen_depth(level)));
    }
    result
}

/// The serialisations of a sequence of values, each followed by a space.
pub open spec fn cat_serialized(vs: Seq<JsonModel>) -> Seq<u8>
    decreases vs.len(),
{
    if vs.len() == 0 {
        Seq::empty()
    } else {
        cat_serialized(vs.drop_last()) + spec_serialize(vs.last()) + seq![32u8]
    }
}

/// A buffer holding `m` serialised random values, each followed by a
/// space: the raw material of the round-trip benchmark.  Every value in
/// the buffer is well formed in the sense of [`gen_inv`].
pub fn n_random(m: usize) -> (v: Vec<u8>)
    ensures
        exists|vs: Seq<JsonModel>|
            {
                &&& vs.len() == m
                &&& (forall|i: int| 0 <= i < vs.len() ==> gen_inv(#[trigger] vs[i]))
                &&& v@ == cat_serialized(vs)
            },
{
    let mut v: Vec<u8> = Vec::new();
    let ghost mut vs: Seq<JsonModel> = Seq::empty();
    let mut k: usize = 0;
    proof {
        assert(v@ =~= cat_serialized(vs));
    }
    while k < m
        invariant
            0 <= k <= m,
            vs.len() == k,
            forall|i: int| 0 <= i < vs.len() ==> gen_inv(#[trigger] vs[i]),
            v@ == cat_serialized(vs),
        decreases m - k,
    {
        let j = make_n_arbitrary(10);
        let _ = j.serialize(&mut v);
        v.push(32);
        proof {
            let vs0 = vs;
            vs = vs.push(j@);
            assert(vs.drop_last() =~= vs0);
            assert(vs.last() == j@);
            assert(v@ =~= cat_serialized(vs0) + spec_serialize(j@) + seq![32u8]);
        }
        k += 1;
    }
    v
}

} // verus!
