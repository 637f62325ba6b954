//! JSON values as the library reads them.

use vstd::prelude::*;
use crate::text::{str_eq, decimal_of, decimal, bool_text, bool_string, debug_str_text, debug_str};

verus! {

/// A JSON value. Objects keep their entries in order. Numbers are held as
/// `UInt` when they are non-negative integers, as `Number` (their text) when
/// they are negative integers, and as `Float` (their JSON text) otherwise.
pub enum Json {
    Null,
    Bool(bool),
    UInt(u64),
    Number(String),
    Float(String),
    Str(String),
    Array(Vec<Json>),
    Object(Vec<(String, Json)>),
}

impl Json {
    /// Whether the value is a string.
    pub fn is_str(&self) -> (b: bool)
        ensures
            b == (*self is Str),
    {
        match self {
            Json::Str(_) => true,
            _ => false,
        }
    }

    /// Whether the value is an array.
    pub fn is_array(&self) -> (b: bool)
        ensures
            b == (*self is Array),
    {
        match self {
            Json::Array(_) => true,
            _ => false,
        }
    }
}

/// The position of the first entry at or after `i` whose key is `key`, or the
/// number of entries when there is none.
pub open spec fn key_index_from(entries: Seq<(String, Json)>, key: Seq<char>, i: int) -> int
    decreases entries.len() - i,
{
    if i < 0 || i >= entries.len() {
        entries.len() as int
    } else if entries[i].0@ == key {
        i
    } else {
        key_index_from(entries, key, i + 1)
    }
}

/// The position of the first entry whose key is `key`, or the number of
/// entries when there is none.
pub open spec fn key_index(entries: Seq<(String, Json)>, key: Seq<char>) -> int {
    key_index_from(entries, key, 0)
}

/// Bounds of `key_index_from` and what holds of the entries it skips.
pub proof fn lemma_key_index_from(entries: Seq<(String, Json)>, key: Seq<char>, i: int)
    requires
        0 <= i <= entries.len(),
    ensures
        i <= key_index_from(entries, key, i) <= entries.len(),
        key_index_from(entries, key, i) < entries.len() ==> entries[key_index_from(
            entries,
            key,
            i,
        )].0@ == key,
        forall|j: int| i <= j < key_index_from(entries, key, i) ==> entries[j].0@ != key,
    decreases entries.len() - i,
{
    if i < entries.len() && entries[i].0@ != key {
        lemma_key_index_from(entries, key, i + 1);
    }
}

/// The position of the first entry of `entries` whose key is `key`, or the
/// number of entries when there is none.
pub fn find_key(entries: &Vec<(String, Json)>, key: &str) -> (k: usize)
    ensures
        k == key_index(entries@, key@),
        k <= entries@.len(),
{
    proof {
        lemma_key_index_from(entries@, key@, 0);
    }
    let mut i: usize = 0;
    while i < entries.len()
        invariant
            i <= entries@.len(),
            key_index_from(entries@, key@, i as int) == key_index(entries@, key@),
        decreases entries@.len() - i,
    {
        if str_eq(entries[i].0.as_str(), key) {
            return i;
        }
        i += 1;
    }
    i
}

/// The debug text of a JSON value: `Null`, `Bool(..)`, `Number(..)`,
/// `String(..)` with the string's debug text, `Array [..]` and
/// `Object {..}` with each key's debug text, `: ` and the value's.
pub open spec fn json_debug(v: Json) -> Seq<char>
    decreases v, 0int,
{
    match v {
        Json::Null => "Null"@,
        Json::Bool(b) => "Bool("@ + bool_text(b) + ")"@,
        Json::UInt(n) => "Number("@ + decimal_of(n as nat) + ")"@,
        Json::Number(t) => "Number("@ + t@ + ")"@,
        Json::Float(t) => "Number("@ + t@ + ")"@,
        Json::Str(s) => "String("@ + debug_str_text(s@) + ")"@,
        Json::Array(items) => {
            proof {
                assert(decreases_to!(items => items@));
            }
            "Array ["@ + items_debug(items@) + "]"@
        },
        Json::Object(entries) => {
            proof {
                assert(decreases_to!(entries => entries@));
            }
            "Object {"@ + entries_debug(entries@) + "}"@
        },
    }
}

/// The debug texts of the values, joined with `, `.
pub open spec fn items_debug(s: Seq<Json>) -> Seq<char>
    decreases s, 1int,
{
    if s.len() == 0 {
        Seq::empty()
    } else {
        proof {
            assert(decreases_to!(s => s.subrange(0, s.len() - 1)));
        }
        let k = s.len() - 1;
        let prefix = items_debug(s.subrange(0, k));
        if k == 0 {
            json_debug(s[k])
        } else {
            prefix + ", "@ + json_debug(s[k])
        }
    }
}

/// The debug texts of the entries (`key: value`), joined with `, `.
pub open spec fn entries_debug(s: Seq<(String, Json)>) -> Seq<char>
    decreases s, 1int,
{
    if s.len() == 0 {
        Seq::empty()
    } else {
        proof {
            assert(decreases_to!(s => s.subrange(0, s.len() - 1)));
            assert(decreases_to!(s => s[s.len() - 1]));
        }
        let k = s.len() - 1;
        let prefix = entries_debug(s.subrange(0, k));
        let e = debug_str_text(s[k].0@) + ": "@ + json_debug(s[k].1);
        if k == 0 {
            e
        } else {
            prefix + ", "@ + e
        }
    }
}

/// The first `i + 1` items of a sequence are its first `i` and then item `i`.
pub(crate) proof fn lemma_take_next<A>(s: Seq<A>, i: int)
    requires
        0 <= i < s.len(),
    ensures
        s.take(i + 1).subrange(0, i) == s.take(i),
        s.take(i + 1)[i] == s[i],
        s.take(i + 1).len() == i + 1,
{
    assert(s.take(i + 1).subrange(0, i) =~= s.take(i));
}

impl Json {
    /// The debug text of the value (see `json_debug`).
    pub fn debug_text(&self) -> (t: String)
        ensures
            t@ == json_debug(*self),
        decreases self,
    {
        match self {
            Json::Null => String::from_str("Null"),
            Json::Bool(b) => {
                let mut t = String::from_str("Bool(");
                t.append(bool_string(*b).as_str());
                t.append(")");
                t
            },
            Json::UInt(n) => {
                let mut t = String::from_str("Number(");
                t.append(decimal(*n).as_str());
                t.append(")");
                t
            },
            Json::Number(text) => {
                let mut t = String::from_str("Number(");
                t.append(text.as_str());
                t.append(")");
                t
            },
            Json::Float(text) => {
                let mut t = String::from_str("Number(");
                t.append(text.as_str());
                t.append(")");
                t
            },
            Json::Str(s) => {
                let mut t = String::from_str("String(");
                t.append(debug_str(s.as_str()).as_str());
                t.append(")");
                t
            },
            Json::Array(items) => {
                let mut body = String::new();
                let mut i: usize = 0;
                while i < items.len()
                    invariant
                        i <= items@.len(),
                        body@ == items_debug(items@.take(i as int)),
                        decreases_to!(*self => items@),
                    decreases items@.len() - i,
                {
                    proof {
                        lemma_take_next(items@, i as int);
                        assert(decreases_to!(items@ => items@[i as int]));
                    }
                    let d = items[i].debug_text();
                    if i > 0 {
                        body.append(", ");
                    } else {
                        assert(body@ =~= Seq::<char>::empty());
                    }
                    body.append(d.as_str());
                    i += 1;
                }
                assert(items@.take(items@.len() as int) =~= items@);
                let mut t = String::from_str("Array [");
                t.append(body.as_str());
                t.append("]");
                t
            },
            Json::Object(entries) => {
                let mut body = String::new();
                let mut i: usize = 0;
                while i < entries.len()
                    invariant
                        i <= entries@.len(),
                        body@ == entries_debug(entries@.take(i as int)),
                        decreases_to!(*self => entries@),
                    decreases entries@.len() - i,
                {
                    proof {
                        lemma_take_next(entries@, i as int);
                        assert(decreases_to!(entries@ => entries@[i as int]));
                    }
                    let mut e = debug_str(entries[i].0.as_str());
                    e.append(": ");
                    let d = entries[i].1.debug_text();
                    e.append(d.as_str());
                    if i > 0 {
                        body.append(", ");
                    } else {
                        assert(body@ =~= Seq::<char>::empty());
                    }
                    body.append(e.as_str());
                    i += 1;
                }
                assert(entries@.take(entries@.len() as int) =~= entries@);
                let mut t = String::from_str("Object {");
                t.append(body.as_str());
                t.append("}");
                t
            },
        }
    }
}

} // verus!
