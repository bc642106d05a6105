//! JSON values as the policy and settings rules read them.

use vstd::prelude::*;

use crate::text;

verus! {

/// A JSON value. Numbers keep their notation.
#[derive(Debug)]
pub enum Json {
    Null,
    Bool(bool),
    Number(String),
    Text(String),
    Array(Vec<Json>),
    Object(Vec<(String, Json)>),
}

/// The value of the first field with the given name.
pub open spec fn field(fields: Seq<(String, Json)>, name: Seq<char>) -> Option<Json>
    decreases fields.len(),
{
    if fields.len() == 0 {
        None
    } else if fields[0].0@ == name {
        Some(fields[0].1)
    } else {
        field(fields.drop_first(), name)
    }
}

/// The strings among the first `n` values.
pub open spec fn texts(items: Seq<Json>, n: nat) -> Seq<Seq<char>>
    decreases n,
{
    if n == 0 {
        Seq::empty()
    } else {
        let before = texts(items, (n - 1) as nat);
        match items[n - 1] {
            Json::Text(s) => before.push(s@),
            _ => before,
        }
    }
}

/// An optional reference as an optional value.
pub open spec fn deref(v: Option<&Json>) -> Option<Json> {
    match v {
        Some(j) => Some(*j),
        None => None,
    }
}

/// Two values with the same shape and the same contents.
pub open spec fn same(a: Json, b: Json) -> bool
    decreases a,
{
    match (a, b) {
        (Json::Null, Json::Null) => true,
        (Json::Bool(x), Json::Bool(y)) => x == y,
        (Json::Number(x), Json::Number(y)) => x@ == y@,
        (Json::Text(x), Json::Text(y)) => x@ == y@,
        (Json::Array(x), Json::Array(y)) => x@.len() == y@.len() && forall|i: int|
            0 <= i < x@.len() ==> same(#[trigger] x@[i], y@[i]),
        (Json::Object(x), Json::Object(y)) => x@.len() == y@.len() && forall|i: int|
            0 <= i < x@.len() ==> (#[trigger] x@[i]).0@ == y@[i].0@ && same(x@[i].1, y@[i].1),
        _ => false,
    }
}

/// A value of the outside JSON type.
#[verifier::external_type_specification]
#[verifier::external_body]
pub struct ExValue(serde_json::Value);

/// The JSON value that bytes hold, where they hold one.
pub uninterp spec fn json_in(bytes: Seq<u8>) -> Option<Json>;

/// A value that was read equals the one that was to be read: both are missing, or both have
/// the same shape and the same contents.
pub open spec fn same_reading(a: Option<Json>, b: Option<Json>) -> bool {
    match (a, b) {
        (Some(x), Some(y)) => same(x, y),
        (None, None) => true,
        _ => false,
    }
}

/// Moves a `serde_json::Value` over, variant by variant. A number keeps the notation that
/// `serde_json::Number` prints; the fields of an object come in the order of its map.
#[verifier::external_body]
fn plain(value: serde_json::Value) -> Json {
    match value {
        serde_json::Value::Null => Json::Null,
        serde_json::Value::Bool(b) => Json::Bool(b),
        serde_json::Value::Number(n) => Json::Number(n.to_string()),
        serde_json::Value::String(s) => Json::Text(s),
        serde_json::Value::Array(a) => Json::Array(a.into_iter().map(plain).collect()),
        serde_json::Value::Object(o) => {
            Json::Object(o.into_iter().map(|(k, v)| (k, plain(v))).collect())
        },
    }
}

/// Reads bytes with `serde_json::from_slice` as a `serde_json::Value` and moves that over.
/// The result depends on the bytes alone; which bytes are JSON is left unsaid.
#[verifier::external_body]
fn read_json(bytes: &[u8]) -> (r: Option<Json>)
    ensures
        same_reading(r, json_in(bytes@)),
{
    serde_json::from_slice::<serde_json::Value>(bytes).ok().map(plain)
}

/// Reads a JSON value, where the bytes hold one.
pub fn parse(bytes: &[u8]) -> (r: Option<Json>)
    ensures
        same_reading(r, json_in(bytes@)),
{
    read_json(bytes)
}

/// The value of the first field with the given name.
pub fn get<'a>(fields: &'a Vec<(String, Json)>, name: &str) -> (r: Option<&'a Json>)
    ensures
        deref(r) == field(fields@, name@),
{
    let mut i: usize = 0;
    assert(fields@.skip(0) =~= fields@);
    while i < fields.len()
        invariant
            i <= fields@.len(),
            field(fields@, name@) == field(fields@.skip(i as int), name@),
        decreases fields@.len() - i,
    {
        if text::str_eq(fields[i].0.as_str(), name) {
            return Some(&fields[i].1);
        }
        assert(fields@.skip(i as int).drop_first() =~= fields@.skip(i + 1));
        i = i + 1;
    }
    None
}

/// A value of its own with the same contents.
pub fn copy(v: &Json) -> (r: Json)
    ensures
        same(*v, r),
    decreases v,
{
    match v {
        Json::Null => Json::Null,
        Json::Bool(b) => Json::Bool(*b),
        Json::Number(s) => Json::Number(s.clone()),
        Json::Text(s) => Json::Text(s.clone()),
        Json::Array(items) => {
            let mut out: Vec<Json> = Vec::new();
            let mut i: usize = 0;
            while i < items.len()
                invariant
                    i <= items@.len(),
                    out@.len() == i,
                    *v == Json::Array(*items),
                    forall|k: int| 0 <= k < i ==> same(#[trigger] items@[k], out@[k]),
                decreases items@.len() - i,
            {
                assert(decreases_to!(*v => v->Array_0@[i as int]));
                out.push(copy(&items[i]));
                i = i + 1;
            }
            Json::Array(out)
        },
        Json::Object(fields) => {
            let mut out: Vec<(String, Json)> = Vec::new();
            let mut i: usize = 0;
            while i < fields.len()
                invariant
                    i <= fields@.len(),
                    out@.len() == i,
                    *v == Json::Object(*fields),
                    forall|k: int|
                        0 <= k < i ==> (#[trigger] fields@[k]).0@ == out@[k].0@ && same(
                            fields@[k].1,
                            out@[k].1,
                        ),
                decreases fields@.len() - i,
            {
                assert(decreases_to!(*v => v->Object_0@[i as int].1));
                out.push((fields[i].0.clone(), copy(&fields[i].1)));
                i = i + 1;
            }
            Json::Object(out)
        },
    }
}

/// Two values that both equal a third one in shape and contents equal each other.
pub proof fn lemma_same_join(a: Json, b: Json, c: Json)
    requires
        same(a, b),
        same(a, c),
    ensures
        same(b, c),
    decreases a,
{
    match (a, b, c) {
        (Json::Array(x), Json::Array(y), Json::Array(z)) => {
            assert forall|i: int| 0 <= i < y@.len() implies same(#[trigger] y@[i], z@[i]) by {
                assert(same(x@[i], y@[i]));
                assert(same(x@[i], z@[i]));
                assert(decreases_to!(a => a->Array_0@[i]));
                lemma_same_join(x@[i], y@[i], z@[i]);
            }
        },
        (Json::Object(x), Json::Object(y), Json::Object(z)) => {
            assert forall|i: int| 0 <= i < y@.len() implies (#[trigger] y@[i]).0@ == z@[i].0@
                && same(y@[i].1, z@[i].1) by {
                assert(x@[i].0@ == y@[i].0@ && same(x@[i].1, y@[i].1));
                assert(x@[i].0@ == z@[i].0@ && same(x@[i].1, z@[i].1));
                assert(decreases_to!(a => a->Object_0@[i].1));
                lemma_same_join(x@[i].1, y@[i].1, z@[i].1);
            }
        },
        _ => {},
    }
}

/// Two objects with the same fields give the same value for a name.
pub proof fn lemma_same_field(a: Seq<(String, Json)>, b: Seq<(String, Json)>, name: Seq<char>)
    requires
        a.len() == b.len(),
        forall|i: int|
            0 <= i < a.len() ==> (#[trigger] a[i]).0@ == b[i].0@ && same(a[i].1, b[i].1),
    ensures
        same_reading(field(a, name), field(b, name)),
    decreases a.len(),
{
    if a.len() > 0 {
        assert(a[0].0@ == b[0].0@ && same(a[0].1, b[0].1));
        if a[0].0@ != name {
            let x = a.drop_first();
            let y = b.drop_first();
            assert forall|i: int| 0 <= i < x.len() implies (#[trigger] x[i]).0@ == y[i].0@ && same(
                x[i].1,
                y[i].1,
            ) by {
                assert(x[i] == a[i + 1] && y[i] == b[i + 1]);
            }
            lemma_same_field(x, y, name);
        }
    }
}

impl Clone for Json {
    fn clone(&self) -> (r: Self)
        ensures
            same(*self, r),
    {
        copy(self)
    }
}

} // verus!
