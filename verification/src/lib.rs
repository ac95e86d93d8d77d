//! Jsosso is a simple Json library built on the `pacosso` streaming
//! parser framework.
//!
//! This crate implements a Json enum and contains modules
//! - to serialise Json values,
//! - to parse Json values from streams,
//! - and to generate random Json values.
//!
//! Numbers are kept as their numeric literal text: the grammar is checked
//! by the parser, but the text is never collapsed to a machine float, so
//! the whole value model stays within what the verifier can reason about.
//! Object members keep their insertion order, and the parser rejects a
//! repeated key, so a map never holds two entries with the same key.

use vstd::prelude::*;

/// The random value generator.
pub mod arbitrary;
/// The laws tying parser, serialiser and generator together.
pub mod laws;
/// The error type surfaced by parsing.
pub mod errors;
/// Byte-level grammar building blocks.
pub mod grammar;
/// Decimal rendering of unsigned integers.
pub mod numbers;
/// The recursive-descent parser.
pub mod parsing;
/// The pretty-printing serialiser.
pub mod serializing;
/// The byte-stream the parser consumes, built on `pacosso`.
pub mod stream;
/// Decision logic of the surrounding programs.
pub mod cli;
/// Text-encoding helpers.
pub mod unicode;

verus! {

/// Representation of a Json value.
#[derive(Debug, PartialEq)]
pub enum Json {
    /// Represents a Json 'null' value.
    Null,
    /// Represents a Json boolean.
    Boolean(bool),
    /// Represents a Json number, kept as the literal text that the
    /// grammar accepted (sign, digits, fraction, exponent).
    Number(String),
    /// Represents a Json string.
    String(String),
    /// Represents a Json array.
    Array(Vec<Json>),
    /// Represents a Json object.
    Object(Box<JsonMap>),
}

/// An object: a mapping from text keys to Json values that keeps the
/// insertion order of its members.  Its well-formedness invariant says
/// that no key occurs twice.
#[derive(Debug, PartialEq)]
pub struct JsonMap {
    /// The members, in insertion order.
    pub entries: Vec<(String, Json)>,
}

/// The mathematical model of a [`Json`] value: text is a sequence of
/// characters, an array is a sequence of models, an object is a sequence
/// of key/value pairs.
pub enum JsonModel {
    Null,
    Boolean(bool),
    Number(Seq<char>),
    String(Seq<char>),
    Array(Seq<JsonModel>),
    Object(Seq<(Seq<char>, JsonModel)>),
}

/// The model of a Json tree.
pub open spec fn json_view(j: Json) -> JsonModel
    decreases j,
{
    match j {
        Json::Null => JsonModel::Null,
        Json::Boolean(b) => JsonModel::Boolean(b),
        Json::Number(t) => JsonModel::Number(t@),
        Json::String(s) => JsonModel::String(s@),
        Json::Array(a) => JsonModel::Array(seq_view(a@)),
        Json::Object(m) => JsonModel::Object(entries_view(m.entries@)),
    }
}

/// The models of a sequence of Json trees.
pub open spec fn seq_view(a: Seq<Json>) -> Seq<JsonModel>
    decreases a,
{
    Seq::new(
        a.len(),
        |i: int|
            if 0 <= i < a.len() {
                json_view(a[i])
            } else {
                JsonModel::Null
            },
    )
}

/// The model of an object's member list.
pub open spec fn entries_view(es: Seq<(String, Json)>) -> Seq<(Seq<char>, JsonModel)>
    decreases es,
{
    Seq::new(
        es.len(),
        |i: int|
            if 0 <= i < es.len() {
                (es[i].0@, json_view(es[i].1))
            } else {
                (Seq::<char>::empty(), JsonModel::Null)
            },
    )
}

impl View for Json {
    type V = JsonModel;

    open spec fn view(&self) -> JsonModel {
        json_view(*self)
    }
}

impl View for JsonMap {
    type V = Seq<(Seq<char>, JsonModel)>;

    open spec fn view(&self) -> Seq<(Seq<char>, JsonModel)> {
        entries_view(self.entries@)
    }
}

/// Whether a key already stands in a member list.
pub open spec fn has_key(es: Seq<(Seq<char>, JsonModel)>, k: Seq<char>) -> bool {
    exists|i: int| 0 <= i < es.len() && es[i].0 == k
}

/// The value at a key: the first match in insertion order.
pub open spec fn lookup(es: Seq<(Seq<char>, JsonModel)>, k: Seq<char>) -> Option<JsonModel>
    decreases es.len(),
{
    if es.len() == 0 {
        None
    } else if es[0].0 == k {
        Some(es[0].1)
    } else {
        lookup(es.skip(1), k)
    }
}

/// Looking a key up is unchanged by dropping a prefix in which it does
/// not occur.
pub proof fn lemma_lookup_skip(es: Seq<(Seq<char>, JsonModel)>, k: Seq<char>, i: int)
    requires
        0 <= i <= es.len(),
        forall|j: int| 0 <= j < i ==> es[j].0 != k,
    ensures
        lookup(es, k) == lookup(es.skip(i), k),
    decreases i,
{
    if i > 0 {
        lemma_lookup_skip(es.skip(1), k, i - 1);
        assert(es.skip(1).skip(i - 1) =~= es.skip(i));
    } else {
        assert(es.skip(0) =~= es);
    }
}

impl JsonMap {
    /// Keys are unique: no two entries share a key.
    pub open spec fn wf(&self) -> bool {
        forall|i: int, j: int|
            0 <= i < j < self@.len() ==> self@[i].0 != self@[j].0
    }

    /// An empty object.
    pub fn new() -> (m: JsonMap)
        ensures
            m@ =~= Seq::<(Seq<char>, JsonModel)>::empty(),
            m.wf(),
    {
        JsonMap { entries: Vec::new() }
    }

    /// The number of members.
    pub fn len(&self) -> (n: usize)
        ensures
            n == self@.len(),
    {
        self.entries.len()
    }

    /// Whether a member with this key exists.
    pub fn contains_key(&self, key: &str) -> (r: bool)
        ensures
            r == has_key(self@, key@),
    {
        let n = self.entries.len();
        let mut i: usize = 0;
        while i < n
            invariant
                n == self.entries@.len(),
                0 <= i <= n,
                forall|j: int| 0 <= j < i ==> self@[j].0 != key@,
            decreases n - i,
        {
            if crate::unicode::str_eq(self.entries[i].0.as_str(), key) {
                proof {
                    assert(self@[i as int].0 == key@);
                }
                return true;
            }
            i += 1;
        }
        false
    }

    /// The value of the member with this key, if any.
    pub fn get(&self, key: &str) -> (r: Option<&Json>)
        ensures
            match r {
                Some(v) => lookup(self@, key@) == Some(json_view(*v)),
                None => lookup(self@, key@) is None,
            },
    {
        let n = self.entries.len();
        let mut i: usize = 0;
        while i < n
            invariant
                n == self.entries@.len(),
                0 <= i <= n,
                forall|j: int| 0 <= j < i ==> self@[j].0 != key@,
            decreases n - i,
        {
            if crate::unicode::str_eq(self.entries[i].0.as_str(), key) {
                proof {
                    lemma_lookup_skip(self@, key@, i as int);
                    assert(self@.skip(i as int)[0] == self@[i as int]);
                }
                return Some(&self.entries[i].1);
            }
            i += 1;
        }
        proof {
            lemma_lookup_skip(self@, key@, n as int);
        }
        None
    }

    /// Inserts a member: a colliding key silently overwrites the old
    /// value, so the member count only grows for fresh keys.
    pub fn insert(&mut self, k: String, v: Json)
        ensures
            old(self).wf() ==> final(self).wf(),
            forall|i: int|
                0 <= i < final(self)@.len() ==> ((final(self)@[i].0 == k@ && final(self)@[i].1
                    == json_view(v)) || old(self)@.contains(final(self)@[i])),
            has_key(final(self)@, k@),
            lookup(final(self)@, k@) == Some(json_view(v)),
    {
        let n = self.entries.len();
        let mut i: usize = 0;
        while i < n
            invariant
                n == self.entries@.len(),
                0 <= i <= n,
                forall|j: int| 0 <= j < i ==> self@[j].0 != k@,
                self == old(self),
            decreases n - i,
        {
            if crate::unicode::str_eq(self.entries[i].0.as_str(), k.as_str()) {
                let ghost old_view = self@;
                self.entries.set(i, (k, v));
                proof {
                    assert(self@ =~= old_view.update(i as int, (k@, json_view(v))));
                    assert(old_view[i as int].0 == k@);
                    assert forall|j: int| 0 <= j < self@.len() implies #[trigger] self@[j].0
                        == old_view[j].0 by {}
                    assert forall|j: int|
                        0 <= j < self@.len() && j != i implies old_view.contains(
                        #[trigger] self@[j],
                    ) by {
                        assert(old_view[j] == self@[j]);
                    }
                    assert(self@[i as int].0 == k@);
                    lemma_lookup_skip(self@, k@, i as int);
                    assert(self@.skip(i as int)[0] == self@[i as int]);
                }
                return;
            }
            i += 1;
        }
        self.push_entry(k, v);
        proof {
            let m = self@.len() - 1;
            assert(self@[m].0 == k@);
            lemma_lookup_skip(self@, k@, m);
            assert(self@.skip(m)[0] == self@[m]);
            assert(self@.skip(m).len() == 1);
        }
    }

    /// Appends a member.  When the key is fresh, well-formedness is kept.
    pub fn push_entry(&mut self, k: String, v: Json)
        ensures
            final(self)@ == old(self)@.push((k@, v@)),
            old(self).wf() && !has_key(old(self)@, k@) ==> final(self).wf(),
    {
        let ghost old_view = self@;
        let ghost kv = (k@, v@);
        self.entries.push((k, v));
        proof {
            assert(self@ =~= old_view.push(kv));
        }
    }
}

} // verus!
