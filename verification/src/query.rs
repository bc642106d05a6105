//! Query strings.

use vstd::prelude::*;
use vstd::string::*;

use crate::storage;
use crate::strmap::StringMap;

verus! {

/// What `form_urlencoded::parse` makes of a query: its names and values, decoded, in the
/// order in which they stand.
pub uninterp spec fn form_decoded(query: Seq<char>) -> Seq<(Seq<char>, Seq<char>)>;

/// `form_urlencoded::parse` on the bytes of the query. Nothing is claimed of the decoding
/// but that it depends on the query alone.
#[verifier::external_body]
pub(crate) fn form_pairs(query: &str) -> (r: Vec<(String, String)>)
    ensures
        storage::pair_views(r@) == form_decoded(query@),
{
    form_urlencoded::parse(query.as_bytes()).into_owned().collect()
}

/// The values by name; of two values under one name the later counts.
pub open spec fn by_name(pairs: Seq<(Seq<char>, Seq<char>)>) -> Map<Seq<char>, Seq<char>>
    decreases pairs.len(),
{
    if pairs.len() == 0 {
        Map::empty()
    } else {
        by_name(pairs.drop_last()).insert(pairs.last().0, pairs.last().1)
    }
}

/// The texts in a map.
pub open spec fn texts(m: Map<Seq<char>, String>) -> Map<Seq<char>, Seq<char>> {
    m.map_values(|s: String| s@)
}

/// The value under a name, if there is one.
pub open spec fn value_of(m: Map<Seq<char>, Seq<char>>, name: Seq<char>) -> Option<Seq<char>> {
    if m.contains_key(name) {
        Some(m[name])
    } else {
        None
    }
}

/// Collects pairs into a map.
pub fn collect_pairs(pairs: Vec<(String, String)>) -> (r: StringMap<String>)
    ensures
        texts(r@) == by_name(storage::pair_views(pairs@)),
{
    let mut out: StringMap<String> = StringMap::new();
    let mut i: usize = 0;
    let ghost all = storage::pair_views(pairs@);
    assert(all.take(0) =~= Seq::empty());
    assert(texts(out@) =~= Map::empty());
    while i < pairs.len()
        invariant
            i <= pairs@.len(),
            all == storage::pair_views(pairs@),
            texts(out@) == by_name(all.take(i as int)),
        decreases pairs@.len() - i,
    {
        let ghost before = out@;
        out.insert(pairs[i].0.clone(), pairs[i].1.clone());
        proof {
            assert(texts(out@) =~= texts(before).insert(all[i as int].0, all[i as int].1));
            let now = all.take(i + 1);
            assert(now.drop_last() =~= all.take(i as int));
            assert(now.last() == all[i as int]);
        }
        i = i + 1;
    }
    assert(all.take(i as int) =~= all);
    out
}

/// The text under a name, if there is one.
pub fn lookup<'a>(params: &'a StringMap<String>, name: &str) -> (r: Option<&'a str>)
    ensures
        match r {
            Some(v) => value_of(texts(params@), name@) == Some(v@),
            None => value_of(texts(params@), name@) is None,
        },
{
    match params.get(name) {
        Some(v) => Some(v.as_str()),
        None => None,
    }
}

/// The parameters of a query.
pub fn parse_query(query: &str) -> (r: StringMap<String>)
    ensures
        texts(r@) == by_name(form_decoded(query@)),
{
    collect_pairs(form_pairs(query))
}

} // verus!
