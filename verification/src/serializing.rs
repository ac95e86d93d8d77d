//! The Json serialiser: a deterministic, single-pass pretty-printer into
//! a byte sink.
//!
//! The layout is specified first as functions of the value, the current
//! indentation and the running line length; the executable writer's
//! contracts say that it appends exactly those bytes.  Scalars are
//! written plainly; a string is quoted with a fixed escape set; an array
//! opens a fresh line, separates elements by `, ` until the running line
//! reaches 120 bytes and then breaks the line; an object puts one member
//! per line.  Indentation is two spaces per nesting level.

use vstd::prelude::*;

use crate::{json_view, seq_view, Json, JsonMap, JsonModel};
use vstd::string::StringSliceAdditionalSpecFns;
use vstd::utf8::encode_utf8;

verus! {

/// The escape set of the serialiser: quote, backslash, slash, linefeed,
/// carriage return, tab, backspace and formfeed get a two-byte escape;
/// every other byte is emitted unchanged.
pub open spec fn esc_byte(b: u8) -> Seq<u8> {
    if b == 34 {
        seq![92u8, 34]
    } else if b == 92 {
        seq![92u8, 92]
    } else if b == 47 {
        seq![92u8, 47]
    } else if b == 10 {
        seq![92u8, 110]
    } else if b == 13 {
        seq![92u8, 114]
    } else if b == 9 {
        seq![92u8, 116]
    } else if b == 8 {
        seq![92u8, 98]
    } else if b == 12 {
        seq![92u8, 102]
    } else {
        seq![b]
    }
}

/// A byte sequence with every byte escaped as [`esc_byte`] says.
pub open spec fn esc_bytes(bs: Seq<u8>) -> Seq<u8>
    decreases bs.len(),
{
    if bs.len() == 0 {
        Seq::empty()
    } else {
        esc_byte(bs[0]) + esc_bytes(bs.skip(1))
    }
}

/// Escaping distributes over appending one byte at the end.
pub proof fn lemma_esc_bytes_push(bs: Seq<u8>, b: u8)
    ensures
        esc_bytes(bs.push(b)) == esc_bytes(bs) + esc_byte(b),
    decreases bs.len(),
{
    if bs.len() == 0 {
        assert(bs.push(b).skip(1) =~= Seq::<u8>::empty());
        assert(esc_bytes(Seq::<u8>::empty()) =~= Seq::<u8>::empty());
        assert(esc_bytes(bs.push(b)) =~= esc_bytes(bs) + esc_byte(b));
    } else {
        assert(bs.push(b).skip(1) =~= bs.skip(1).push(b));
        lemma_esc_bytes_push(bs.skip(1), b);
        assert(esc_bytes(bs.push(b)) =~= esc_bytes(bs) + esc_byte(b));
    }
}

/// A serialised string: quoted, with the text's UTF-8 bytes escaped.
pub open spec fn ser_string(t: Seq<char>) -> Seq<u8> {
    seq![34u8] + esc_bytes(encode_utf8(t)) + seq![34u8]
}

/// The serialised form of a value, given the enclosing indentation and
/// the running line length; yields the bytes and the new line length.
pub open spec fn spec_ser_value(v: JsonModel, ind: Seq<u8>, line: nat) -> (Seq<u8>, nat)
    decreases v, 0int,
{
    match v {
        JsonModel::Null => (seq![110u8, 117, 108, 108], line + 4),
        JsonModel::Boolean(b) => {
            if b {
                (seq![116u8, 114, 117, 101], line + 4)
            } else {
                (seq![102u8, 97, 108, 115, 101], line + 5)
            }
        },
        JsonModel::Number(t) => (encode_utf8(t), line + encode_utf8(t).len()),
        JsonModel::String(t) => (ser_string(t), line + ser_string(t).len()),
        JsonModel::Array(a) => {
            let (body, line1) = spec_ser_items(a, true, ind.push(32).push(32), 0);
            (
                seq![91u8, 10] + body + seq![10u8] + ind + seq![93u8, 10],
                line1 + 1 + ind.len() + 2,
            )
        },
        JsonModel::Object(es) => {
            let (body, line1) = spec_ser_members(es, true, ind.push(32).push(32), line + 2);
            (
                seq![123u8, 10] + body + seq![10u8] + ind + seq![125u8, 10],
                line1 + 1 + ind.len() + 2,
            )
        },
    }
}

/// The serialised elements of an array.  The first element is indented;
/// later ones follow `, `, or a comma, line break and indentation once
/// the running line has reached 120 bytes.
pub open spec fn spec_ser_items(a: Seq<JsonModel>, first: bool, ind: Seq<u8>, line: nat) -> (
    Seq<u8>,
    nat,
)
    decreases a, 1int,
{
    if a.len() == 0 {
        (Seq::empty(), line)
    } else {
        let (sep, line1): (Seq<u8>, nat) = if first {
            (ind, line + ind.len())
        } else if line >= 120 {
            (seq![44u8, 10] + ind, ind.len() as nat)
        } else {
            (seq![44u8, 32], line + 2)
        };
        let (body, line2) = spec_ser_value(a[0], ind, line1);
        let (rest, line3) = spec_ser_items(a.drop_first(), false, ind, line2);
        (sep + body + rest, line3)
    }
}

/// The serialised members of an object: one `"key": value` per line,
/// members joined by a comma and a line break.
pub open spec fn spec_ser_members(
    es: Seq<(Seq<char>, JsonModel)>,
    first: bool,
    ind: Seq<u8>,
    line: nat,
) -> (Seq<u8>, nat)
    decreases es, 1int,
{
    if es.len() == 0 {
        (Seq::empty(), line)
    } else {
        let (sep, line1): (Seq<u8>, nat) = if first {
            (ind, line + ind.len())
        } else {
            (seq![44u8, 10] + ind, line + 2 + ind.len())
        };
        let key = ser_string(es[0].0);
        let (body, line2) = spec_ser_value(es[0].1, ind, line1 + key.len() + 2);
        let (rest, line3) = spec_ser_members(es.drop_first(), false, ind, line2);
        (sep + key + seq![58u8, 32] + body + rest, line3)
    }
}

/// The serialised form of a whole value tree, at the outermost level.
pub open spec fn spec_serialize(v: JsonModel) -> Seq<u8> {
    spec_ser_value(v, Seq::empty(), 0).0
}

/// Bookkeeping of the pretty-printer: bytes written in total, bytes on
/// the current output line, and the indentation prefix.
struct Human {
    size: usize,
    line: u64,
    ind: Vec<u8>,
}

impl Human {
    /// The counters stay within the sink: the total never exceeds the
    /// sink's length and the line never exceeds the total.
    spec fn ok(&self, w: Seq<u8>) -> bool {
        self.size <= w.len() && self.line <= self.size
    }
}

impl Json {
    /// Serializes the Json value into the byte sink `w`, appending
    /// exactly the specified rendering, and returns the number of bytes
    /// written.
    ///
    /// Example:
    /// ```
    /// use jsosso::Json;
    ///
    /// let jdoc = Json::String("hello world!".to_string());
    /// let mut v: Vec<u8> = Vec::new();
    /// jdoc.serialize(&mut v);
    /// assert_eq!(v, b"\"hello world!\"".to_vec());
    /// ```
    pub fn serialize(&self, w: &mut Vec<u8>) -> (n: usize)
        ensures
            final(w)@ == old(w)@ + spec_serialize(json_view(*self)),
            n == spec_serialize(json_view(*self)).len(),
    {
        let mut h = Human { size: 0, line: 0, ind: Vec::new() };
        proof {
            assert(h.ind@ =~= Seq::<u8>::empty());
        }
        self.write_jvalue(w, &mut h);
        h.size
    }

    /// Writes one value at the current indentation.
    fn write_jvalue(&self, w: &mut Vec<u8>, h: &mut Human)
        requires
            old(h).ok(old(w)@),
        ensures
            ({
                let (bytes, line2) = spec_ser_value(
                    json_view(*self),
                    old(h).ind@,
                    old(h).line as nat,
                );
                &&& final(w)@ == old(w)@ + bytes
                &&& final(h).size == old(h).size + bytes.len()
                &&& final(h).line as nat == line2
                &&& final(h).ind@ == old(h).ind@
                &&& final(h).ok(final(w)@)
            }),
        decreases *self, 0int, 0int,
    {
        match self {
            Json::Null => self.write_jnull(w, h),
            Json::Boolean(t) => self.write_jboolean(*t, w, h),
            Json::Number(t) => self.write_jnumber(t, w, h),
            Json::String(t) => self.write_jstring(t.as_str(), w, h),
            Json::Array(a) => self.write_jarray(a, w, h),
            Json::Object(o) => self.write_jobject(o, w, h),
        }
    }

    /// Writes the indentation prefix.
    fn write_indent(&self, w: &mut Vec<u8>, h: &mut Human)
        requires
            old(h).ok(old(w)@),
        ensures
            final(w)@ == old(w)@ + old(h).ind@,
            final(h).size == old(h).size + old(h).ind@.len(),
            final(h).line == old(h).line + old(h).ind@.len(),
            final(h).ind@ == old(h).ind@,
            final(h).ok(final(w)@),
    {
        if h.ind.len() > 0 {
            let v = h.ind.clone();
            self.write(w, h, v.as_slice());
        } else {
            proof {
                assert(old(w)@ + old(h).ind@ =~= old(w)@);
            }
        }
    }

    /// Appends raw bytes to the sink and counts them.
    fn write(&self, w: &mut Vec<u8>, h: &mut Human, b: &[u8])
        requires
            old(h).ok(old(w)@),
        ensures
            final(w)@ == old(w)@ + b@,
            final(h).size == old(h).size + b@.len(),
            final(h).line == old(h).line + b@.len(),
            final(h).ind@ == old(h).ind@,
            final(h).ok(final(w)@),
    {
        let n = b.len();
        let mut i: usize = 0;
        while i < n
            invariant
                n == b@.len(),
                0 <= i <= n,
                w@ == old(w)@ + b@.take(i as int),
                h == old(h),
            decreases n - i,
        {
            let x = b[i];
            w.push(x);
            proof {
                assert(w@ =~= old(w)@ + b@.take(i + 1));
            }
            i += 1;
        }
        proof {
            assert(b@.take(n as int) =~= b@);
        }
        let total = w.len();
        h.size = h.size + n;
        h.line = h.line + (n as u64);
    }

    /// Writes the `null` literal.
    fn write_jnull(&self, w: &mut Vec<u8>, h: &mut Human)
        requires
            old(h).ok(old(w)@),
        ensures
            final(w)@ == old(w)@ + seq![110u8, 117, 108, 108],
            final(h).size == old(h).size + 4,
            final(h).line == old(h).line + 4,
            final(h).ind@ == old(h).ind@,
            final(h).ok(final(w)@),
    {
        let b: Vec<u8> = vec![110, 117, 108, 108];
        proof {
            assert(b@ =~= seq![110u8, 117, 108, 108]);
        }
        self.write(w, h, b.as_slice());
    }

    /// Writes a boolean literal.
    fn write_jboolean(&self, t: bool, w: &mut Vec<u8>, h: &mut Human)
        requires
            old(h).ok(old(w)@),
        ensures
            final(w)@ == old(w)@ + (if t {
                seq![116u8, 114, 117, 101]
            } else {
                seq![102u8, 97, 108, 115, 101]
            }),
            final(h).size == old(h).size + (if t {
                4int
            } else {
                5int
            }),
            final(h).line == old(h).line + (if t {
                4int
            } else {
                5int
            }),
            final(h).ind@ == old(h).ind@,
            final(h).ok(final(w)@),
    {
        if t {
            let b: Vec<u8> = vec![116, 114, 117, 101];
            proof {
                assert(b@ =~= seq![116u8, 114, 117, 101]);
            }
            self.write(w, h, b.as_slice());
        } else {
            let b: Vec<u8> = vec![102, 97, 108, 115, 101];
            proof {
                assert(b@ =~= seq![102u8, 97, 108, 115, 101]);
            }
            self.write(w, h, b.as_slice());
        }
    }

    /// Writes a number: the literal text it was built from.
    fn write_jnumber(&self, t: &String, w: &mut Vec<u8>, h: &mut Human)
        requires
            old(h).ok(old(w)@),
        ensures
            final(w)@ == old(w)@ + encode_utf8(t@),
            final(h).size == old(h).size + encode_utf8(t@).len(),
            final(h).line == old(h).line + encode_utf8(t@).len(),
            final(h).ind@ == old(h).ind@,
            final(h).ok(final(w)@),
    {
        self.write(w, h, t.as_str().as_bytes());
    }

    /// Writes a string: quoted, with the escape set applied.
    fn write_jstring(&self, s0: &str, w: &mut Vec<u8>, h: &mut Human)
        requires
            old(h).ok(old(w)@),
        ensures
            final(w)@ == old(w)@ + ser_string(s0@),
            final(h).size == old(h).size + ser_string(s0@).len(),
            final(h).line == old(h).line + ser_string(s0@).len(),
            final(h).ind@ == old(h).ind@,
            final(h).ok(final(w)@),
    {
        let q: Vec<u8> = vec![34];
        proof {
            assert(q@ =~= seq![34u8]);
        }
        self.write(w, h, q.as_slice());
        let bs = s0.as_bytes();
        let n = bs.len();
        let mut v: Vec<u8> = Vec::new();
        let mut i: usize = 0;
        proof {
            assert(v@ =~= esc_bytes(bs@.take(0)));
        }
        while i < n
            invariant
                n == bs@.len(),
                0 <= i <= n,
                v@ == esc_bytes(bs@.take(i as int)),
            decreases n - i,
        {
            let b = bs[i];
            proof {
                lemma_esc_bytes_push(bs@.take(i as int), b);
                assert(bs@.take(i + 1) =~= bs@.take(i as int).push(b));
            }
            if b == 34 {
                v.push(92);
                v.push(34);
            } else if b == 92 {
                v.push(92);
                v.push(92);
            } else if b == 47 {
                v.push(92);
                v.push(47);
            } else if b == 10 {
                v.push(92);
                v.push(110);
            } else if b == 13 {
                v.push(92);
                v.push(114);
            } else if b == 9 {
                v.push(92);
                v.push(116);
            } else if b == 8 {
                v.push(92);
                v.push(98);
            } else if b == 12 {
                v.push(92);
                v.push(102);
            } else {
                v.push(b);
            }
            proof {
                assert(v@ =~= esc_bytes(bs@.take(i as int)) + esc_byte(b));
            }
            i += 1;
        }
        proof {
            assert(bs@.take(n as int) =~= bs@);
        }
        self.write(w, h, v.as_slice());
        self.write(w, h, q.as_slice());
        proof {
            assert(final(w)@ =~= old(w)@ + ser_string(s0@));
        }
    }

    /// Writes an array: its elements at one deeper indentation, with the
    /// line-wrapping separator rule.
    fn write_jarray(&self, a: &Vec<Json>, w: &mut Vec<u8>, h: &mut Human)
        requires
            old(h).ok(old(w)@),
        ensures
            ({
                let (body, line1) = spec_ser_items(
                    seq_view(a@),
                    true,
                    old(h).ind@.push(32).push(32),
                    0,
                );
                let bytes = seq![91u8, 10] + body + seq![10u8] + old(h).ind@ + seq![93u8, 10];
                &&& final(w)@ == old(w)@ + bytes
                &&& final(h).size == old(h).size + bytes.len()
                &&& final(h).line as nat == line1 + 1 + old(h).ind@.len() + 2
                &&& final(h).ind@ == old(h).ind@
                &&& final(h).ok(final(w)@)
            }),
        decreases *a, 1int, 0int,
    {
        let ghost ind0 = h.ind@;
        let b: Vec<u8> = vec![91, 10];
        proof {
            assert(b@ =~= seq![91u8, 10]);
        }
        self.write(w, h, b.as_slice());
        h.ind.push(32);
        h.ind.push(32);
        h.line = 0;
        self.write_items(a, 0, w, h);
        proof {
            assert(seq_view(a@).skip(0) =~= seq_view(a@));
        }
        h.ind.pop();
        h.ind.pop();
        proof {
            assert(h.ind@ =~= ind0);
        }
        let nl: Vec<u8> = vec![10];
        proof {
            assert(nl@ =~= seq![10u8]);
        }
        let ghost line_items = h.line;
        self.write(w, h, nl.as_slice());
        self.write_indent(w, h);
        let cl: Vec<u8> = vec![93, 10];
        proof {
            assert(cl@ =~= seq![93u8, 10]);
        }
        self.write(w, h, cl.as_slice());
        proof {
            let (body, line1) = spec_ser_items(seq_view(a@), true, ind0.push(32).push(32), 0);
            let bytes = seq![91u8, 10] + body + seq![10u8] + ind0 + seq![93u8, 10];
            assert(final(w)@ =~= old(w)@ + bytes);
        }
    }

    /// Writes the elements of an array from position `i` on.
    fn write_items(&self, a: &Vec<Json>, i: usize, w: &mut Vec<u8>, h: &mut Human)
        requires
            old(h).ok(old(w)@),
            i <= a@.len(),
        ensures
            ({
                let (bytes, line2) = spec_ser_items(
                    seq_view(a@).skip(i as int),
                    i == 0,
                    old(h).ind@,
                    old(h).line as nat,
                );
                &&& final(w)@ == old(w)@ + bytes
                &&& final(h).size == old(h).size + bytes.len()
                &&& final(h).line as nat == line2
                &&& final(h).ind@ == old(h).ind@
                &&& final(h).ok(final(w)@)
            }),
        decreases *a, 0int, a@.len() - i,
    {
        if i >= a.len() {
            proof {
                assert(seq_view(a@).skip(i as int) =~= Seq::<JsonModel>::empty());
                assert(old(w)@ + Seq::<u8>::empty() =~= old(w)@);
            }
            return;
        }
        if i == 0 {
            self.write_indent(w, h);
        } else if h.line >= 120 {
            let b: Vec<u8> = vec![44, 10];
            proof {
                assert(b@ =~= seq![44u8, 10]);
            }
            self.write(w, h, b.as_slice());
            h.line = 0;
            self.write_indent(w, h);
        } else {
            let b: Vec<u8> = vec![44, 32];
            proof {
                assert(b@ =~= seq![44u8, 32]);
            }
            self.write(w, h, b.as_slice());
        }
        let elem = &a[i];
        elem.write_jvalue(w, h);
        self.write_items(a, i + 1, w, h);
        proof {
            let full = seq_view(a@).skip(i as int);
            assert(full[0] == json_view(a@[i as int]));
            assert(full.drop_first() =~= seq_view(a@).skip(i + 1));
        }
    }

    /// Writes an object: one member per line at one deeper indentation.
    fn write_jobject(&self, o: &JsonMap, w: &mut Vec<u8>, h: &mut Human)
        requires
            old(h).ok(old(w)@),
        ensures
            ({
                let (body, line1) = spec_ser_members(
                    o@,
                    true,
                    old(h).ind@.push(32).push(32),
                    (old(h).line + 2) as nat,
                );
                let bytes = seq![123u8, 10] + body + seq![10u8] + old(h).ind@ + seq![125u8, 10];
                &&& final(w)@ == old(w)@ + bytes
                &&& final(h).size == old(h).size + bytes.len()
                &&& final(h).line as nat == line1 + 1 + old(h).ind@.len() + 2
                &&& final(h).ind@ == old(h).ind@
                &&& final(h).ok(final(w)@)
            }),
        decreases *o, 1int, 0int,
    {
        let ghost ind0 = h.ind@;
        let b: Vec<u8> = vec![123, 10];
        proof {
            assert(b@ =~= seq![123u8, 10]);
        }
        self.write(w, h, b.as_slice());
        h.ind.push(32);
        h.ind.push(32);
        self.write_members(o, 0, w, h);
        proof {
            assert(o@.skip(0) =~= o@);
        }
        h.ind.pop();
        h.ind.pop();
        proof {
            assert(h.ind@ =~= ind0);
        }
        let nl: Vec<u8> = vec![10];
        proof {
            assert(nl@ =~= seq![10u8]);
        }
        self.write(w, h, nl.as_slice());
        self.write_indent(w, h);
        let cl: Vec<u8> = vec![125, 10];
        proof {
            assert(cl@ =~= seq![125u8, 10]);
        }
        self.write(w, h, cl.as_slice());
        proof {
            let (body, line1) = spec_ser_members(o@, true, ind0.push(32).push(32), (old(h).line + 2) as nat);
            let bytes = seq![123u8, 10] + body + seq![10u8] + ind0 + seq![125u8, 10];
            assert(final(w)@ =~= old(w)@ + bytes);
        }
    }

    /// Writes the members of an object from position `i` on.
    fn write_members(&self, o: &JsonMap, i: usize, w: &mut Vec<u8>, h: &mut Human)
        requires
            old(h).ok(old(w)@),
            i <= o.entries@.len(),
        ensures
            ({
                let (bytes, line2) = spec_ser_members(
                    o@.skip(i as int),
                    i == 0,
                    old(h).ind@,
                    old(h).line as nat,
                );
                &&& final(w)@ == old(w)@ + bytes
                &&& final(h).size == old(h).size + bytes.len()
                &&& final(h).line as nat == line2
                &&& final(h).ind@ == old(h).ind@
                &&& final(h).ok(final(w)@)
            }),
        decreases *o, 0int, o.entries@.len() - i,
    {
        let n = o.entries.len();
        if i >= n {
            proof {
                assert(o@.skip(i as int) =~= Seq::<(Seq<char>, JsonModel)>::empty());
                assert(old(w)@ + Seq::<u8>::empty() =~= old(w)@);
            }
            return;
        }
        if i == 0 {
            self.write_indent(w, h);
        } else {
            let b: Vec<u8> = vec![44, 10];
            proof {
                assert(b@ =~= seq![44u8, 10]);
            }
            self.write(w, h, b.as_slice());
            self.write_indent(w, h);
        }
        self.write_jstring(o.entries[i].0.as_str(), w, h);
        let b: Vec<u8> = vec![58, 32];
        proof {
            assert(b@ =~= seq![58u8, 32]);
        }
        self.write(w, h, b.as_slice());
        let elem = &o.entries[i].1;
        elem.write_jvalue(w, h);
        self.write_members(o, i + 1, w, h);
        proof {
            let full = o@.skip(i as int);
            assert(full[0] == (o.entries@[i as int].0@, json_view(o.entries@[i as int].1)));
            assert(full.drop_first() =~= o@.skip(i + 1));
        }
    }
}

} // verus!
