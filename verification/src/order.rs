//! Stable ordering of positions by string keys, and ordered sets of strings.

use vstd::prelude::*;
use vstd::utf8::*;

use crate::text;

verus! {

/// `a` sorts strictly before `b` under the key table.
pub open spec fn key_less(keys: Seq<Seq<char>>, a: int, b: int) -> bool {
    text::str_less_spec(keys[a], keys[b])
}

/// Inserts `x` behind every leading item whose key is not greater.
pub open spec fn insert_stable(keys: Seq<Seq<char>>, s: Seq<int>, x: int) -> Seq<int>
    decreases s.len(),
{
    if s.len() == 0 {
        seq![x]
    } else if key_less(keys, x, s[0]) {
        seq![x] + s
    } else {
        seq![s[0]] + insert_stable(keys, s.drop_first(), x)
    }
}

/// The items in ascending key order; items with equal keys keep their order.
pub open spec fn stable_sorted(keys: Seq<Seq<char>>, items: Seq<int>) -> Seq<int>
    decreases items.len(),
{
    if items.len() == 0 {
        Seq::empty()
    } else {
        insert_stable(keys, stable_sorted(keys, items.drop_last()), items.last())
    }
}

/// The positions held by a vector, as mathematical integers.
pub open spec fn as_ints(v: Seq<usize>) -> Seq<int> {
    Seq::new(v.len(), |i: int| v[i] as int)
}

/// The character sequences held by a vector of strings.
pub open spec fn views(v: Seq<String>) -> Seq<Seq<char>> {
    Seq::new(v.len(), |i: int| v[i]@)
}

proof fn lemma_insert_at(keys: Seq<Seq<char>>, s: Seq<int>, x: int, p: int)
    requires
        0 <= p <= s.len(),
        forall|j: int| 0 <= j < p ==> !key_less(keys, x, #[trigger] s[j]),
        p < s.len() ==> key_less(keys, x, s[p]),
    ensures
        insert_stable(keys, s, x) == s.insert(p, x),
    decreases s.len(),
{
    if s.len() == 0 {
        assert(s.insert(p, x) =~= seq![x]);
    } else if p == 0 {
        assert(s.insert(p, x) =~= seq![x] + s);
    } else {
        assert(!key_less(keys, x, s[0]));
        let t = s.drop_first();
        assert forall|j: int| 0 <= j < p - 1 implies !key_less(keys, x, #[trigger] t[j]) by {
            assert(t[j] == s[j + 1]);
        }
        lemma_insert_at(keys, t, x, p - 1);
        assert(s.insert(p, x) =~= seq![s[0]] + t.insert(p - 1, x));
    }
}

/// Insertion adds exactly the new item.
proof fn lemma_insert_multiset(keys: Seq<Seq<char>>, s: Seq<int>, x: int)
    ensures
        insert_stable(keys, s, x).to_multiset() =~= s.to_multiset().insert(x),
        insert_stable(keys, s, x).len() == s.len() + 1,
    decreases s.len(),
{
    broadcast use vstd::seq_lib::group_to_multiset_ensures;

    if s.len() == 0 {
        assert(insert_stable(keys, s, x) =~= s.push(x));
    } else if key_less(keys, x, s[0]) {
        vstd::seq_lib::lemma_multiset_commutative(seq![x], s);
        assert(seq![x] =~= Seq::<int>::empty().push(x));
        assert((seq![x] + s).to_multiset() =~= s.to_multiset().insert(x));
    } else {
        let t = s.drop_first();
        lemma_insert_multiset(keys, t, x);
        vstd::seq_lib::lemma_multiset_commutative(seq![s[0]], insert_stable(keys, t, x));
        vstd::seq_lib::lemma_multiset_commutative(seq![s[0]], t);
        assert(s =~= seq![s[0]] + t);
        assert(seq![s[0]] =~= Seq::<int>::empty().push(s[0]));
    }
}

/// Sorting rearranges the items: nothing is lost and nothing is added.
pub proof fn lemma_sorted_is_permutation(keys: Seq<Seq<char>>, items: Seq<int>)
    ensures
        stable_sorted(keys, items).to_multiset() =~= items.to_multiset(),
        stable_sorted(keys, items).len() == items.len(),
    decreases items.len(),
{
    broadcast use vstd::seq_lib::group_to_multiset_ensures;

    if items.len() > 0 {
        lemma_sorted_is_permutation(keys, items.drop_last());
        lemma_insert_multiset(keys, stable_sorted(keys, items.drop_last()), items.last());
        assert(items =~= items.drop_last().push(items.last()));
    } else {
        assert(items =~= Seq::<int>::empty());
    }
}

/// The sorted items hold exactly the values that the unsorted ones hold.
pub proof fn lemma_sorted_same_items(keys: Seq<Seq<char>>, items: Seq<int>)
    ensures
        forall|x: int| #[trigger] stable_sorted(keys, items).contains(x) <==> items.contains(x),
        items.no_duplicates() ==> stable_sorted(keys, items).no_duplicates(),
        stable_sorted(keys, items).len() == items.len(),
{
    broadcast use vstd::seq_lib::group_to_multiset_ensures;

    lemma_sorted_is_permutation(keys, items);
    let s = stable_sorted(keys, items);
    assert forall|x: int| #[trigger] s.contains(x) <==> items.contains(x) by {
        assert(s.contains(x) <==> s.to_multiset().count(x) > 0);
        assert(items.contains(x) <==> items.to_multiset().count(x) > 0);
    }
    if items.no_duplicates() {
        items.lemma_multiset_has_no_duplicates();
        s.lemma_multiset_has_no_duplicates_conv();
    }
}

/// The items stand in ascending key order.
pub open spec fn ascending(keys: Seq<Seq<char>>, s: Seq<int>) -> bool {
    forall|i: int, j: int|
        #![trigger s[i], s[j]]
        0 <= i < j < s.len() ==> !key_less(keys, s[j], s[i])
}

proof fn lemma_insert_ascending(keys: Seq<Seq<char>>, s: Seq<int>, x: int)
    requires
        ascending(keys, s),
    ensures
        ascending(keys, insert_stable(keys, s, x)),
        forall|y: int| #[trigger]
            insert_stable(keys, s, x).contains(y) ==> s.contains(y) || y == x,
    decreases s.len(),
{
    let r = insert_stable(keys, s, x);
    if s.len() == 0 {
    } else if key_less(keys, x, s[0]) {
        assert forall|i: int, j: int|
            #![trigger r[i], r[j]]
            0 <= i < j < r.len() implies !key_less(keys, r[j], r[i]) by {
            if i == 0 {
                let a = encode_utf8(keys[x]);
                let b = encode_utf8(keys[s[0]]);
                let c = encode_utf8(keys[s[j - 1]]);
                if text::lex_less(b, a) {
                    text::lemma_lex_transitive(a, b, a);
                    text::lemma_lex_irreflexive(a);
                }
                if j > 1 {
                    assert(!key_less(keys, s[j - 1], s[0]));
                } else {
                    text::lemma_lex_irreflexive(b);
                }
                text::lemma_lex_not_less_transitive(a, b, c);
            } else {
                assert(r[i] == s[i - 1] && r[j] == s[j - 1]);
            }
        }
        assert forall|y: int| #[trigger] r.contains(y) implies s.contains(y) || y == x by {
            let i = choose|i: int| 0 <= i < r.len() && r[i] == y;
            if i > 0 {
                assert(s[i - 1] == y);
            }
        }
    } else {
        let t = s.drop_first();
        assert forall|i: int, j: int|
            #![trigger t[i], t[j]]
            0 <= i < j < t.len() implies !key_less(keys, t[j], t[i]) by {
            assert(t[i] == s[i + 1] && t[j] == s[j + 1]);
        }
        lemma_insert_ascending(keys, t, x);
        let u = insert_stable(keys, t, x);
        assert(r =~= seq![s[0]] + u);
        assert forall|i: int, j: int|
            #![trigger r[i], r[j]]
            0 <= i < j < r.len() implies !key_less(keys, r[j], r[i]) by {
            assert(r[j] == u[j - 1]);
            if i == 0 {
                assert(u.contains(u[j - 1]));
                if u[j - 1] != x {
                    let k = choose|k: int| 0 <= k < t.len() && t[k] == u[j - 1];
                    assert(s[k + 1] == u[j - 1]);
                    assert(!key_less(keys, s[k + 1], s[0]));
                }
            } else {
                assert(r[i] == u[i - 1]);
            }
        }
        assert forall|y: int| #[trigger] r.contains(y) implies s.contains(y) || y == x by {
            let i = choose|i: int| 0 <= i < r.len() && r[i] == y;
            if i == 0 {
                assert(s[0] == y);
            } else {
                assert(u[i - 1] == y);
                assert(u.contains(y));
                if y != x {
                    let k = choose|k: int| 0 <= k < t.len() && t[k] == y;
                    assert(s[k + 1] == y);
                }
            }
        }
    }
}

/// Sorting puts the items in ascending key order.
pub proof fn lemma_sorted_is_ascending(keys: Seq<Seq<char>>, items: Seq<int>)
    ensures
        ascending(keys, stable_sorted(keys, items)),
    decreases items.len(),
{
    if items.len() > 0 {
        lemma_sorted_is_ascending(keys, items.drop_last());
        lemma_insert_ascending(keys, stable_sorted(keys, items.drop_last()), items.last());
    }
}

/// Sorts positions by the keys they point at, keeping the order of equal keys.
pub fn sort_by_key(keys: &Vec<String>, items: &Vec<usize>) -> (r: Vec<usize>)
    requires
        forall|i: int| 0 <= i < items@.len() ==> (#[trigger] items@[i]) < keys@.len(),
    ensures
        as_ints(r@) == stable_sorted(views(keys@), as_ints(items@)),
        forall|i: int| 0 <= i < r@.len() ==> (#[trigger] r@[i]) < keys@.len(),
{
    let ghost kv = views(keys@);
    let mut out: Vec<usize> = Vec::new();
    let mut n: usize = 0;
    assert(as_ints(out@) =~= Seq::<int>::empty());
    while n < items.len()
        invariant
            n <= items@.len(),
            kv == views(keys@),
            forall|i: int| 0 <= i < items@.len() ==> (#[trigger] items@[i]) < keys@.len(),
            as_ints(out@) == stable_sorted(kv, as_ints(items@).take(n as int)),
            forall|i: int| 0 <= i < out@.len() ==> (#[trigger] out@[i]) < keys@.len(),
        decreases items@.len() - n,
    {
        let x: usize = items[n];
        let mut p: usize = 0;
        while p < out.len() && !text::str_less(keys[x].as_str(), keys[out[p]].as_str())
            invariant
                p <= out@.len(),
                x < keys@.len(),
                kv == views(keys@),
                forall|i: int| 0 <= i < out@.len() ==> (#[trigger] out@[i]) < keys@.len(),
                forall|j: int| 0 <= j < p ==> !key_less(kv, x as int, #[trigger] as_ints(out@)[j]),
            ensures
                p <= out@.len(),
                forall|j: int| 0 <= j < p ==> !key_less(kv, x as int, #[trigger] as_ints(out@)[j]),
                p < out@.len() ==> key_less(kv, x as int, as_ints(out@)[p as int]),
            decreases out@.len() - p,
        {
            p = p + 1;
        }
        let ghost before = as_ints(out@);
        out.insert(p, x);
        proof {
            lemma_insert_at(kv, before, x as int, p as int);
            assert(as_ints(out@) =~= before.insert(p as int, x as int));
            let a = as_ints(items@).take(n + 1);
            assert(a.drop_last() =~= as_ints(items@).take(n as int));
            assert(a.last() == x as int);
        }
        n = n + 1;
    }
    assert(as_ints(items@).take(n as int) =~= as_ints(items@));
    out
}

/// Adds `x` to an ascending list of distinct strings, unless it is there.
pub open spec fn insert_distinct(s: Seq<Seq<char>>, x: Seq<char>) -> Seq<Seq<char>>
    decreases s.len(),
{
    if s.len() == 0 {
        seq![x]
    } else if s[0] == x {
        s
    } else if text::str_less_spec(x, s[0]) {
        seq![x] + s
    } else {
        seq![s[0]] + insert_distinct(s.drop_first(), x)
    }
}

/// The distinct strings of a sequence, in ascending order.
pub open spec fn distinct_sorted(s: Seq<Seq<char>>) -> Seq<Seq<char>>
    decreases s.len(),
{
    if s.len() == 0 {
        Seq::empty()
    } else {
        insert_distinct(distinct_sorted(s.drop_last()), s.last())
    }
}

/// The strings stand in strictly ascending order.
pub open spec fn strictly_ascending(s: Seq<Seq<char>>) -> bool {
    forall|i: int, j: int|
        #![trigger s[i], s[j]]
        0 <= i < j < s.len() ==> text::str_less_spec(s[i], s[j])
}

proof fn lemma_insert_distinct(s: Seq<Seq<char>>, x: Seq<char>)
    requires
        strictly_ascending(s),
    ensures
        strictly_ascending(insert_distinct(s, x)),
        forall|y: Seq<char>| #[trigger]
            insert_distinct(s, x).contains(y) <==> s.contains(y) || y == x,
    decreases s.len(),
{
    let r = insert_distinct(s, x);
    if s.len() == 0 {
        assert(r[0] == x);
    } else if s[0] == x {
    } else if text::str_less_spec(x, s[0]) {
        assert forall|i: int, j: int|
            #![trigger r[i], r[j]]
            0 <= i < j < r.len() implies text::str_less_spec(r[i], r[j]) by {
            if i == 0 {
                if j > 1 {
                    text::lemma_lex_transitive(
                        encode_utf8(x),
                        encode_utf8(s[0]),
                        encode_utf8(s[j - 1]),
                    );
                }
            } else {
                assert(r[i] == s[i - 1] && r[j] == s[j - 1]);
            }
        }
        assert forall|y: Seq<char>| #[trigger] r.contains(y) <==> s.contains(y) || y == x by {
            if r.contains(y) {
                let i = choose|i: int| 0 <= i < r.len() && r[i] == y;
                if i > 0 {
                    assert(s[i - 1] == y);
                }
            }
            if s.contains(y) {
                let i = choose|i: int| 0 <= i < s.len() && s[i] == y;
                assert(r[i + 1] == y);
            }
            assert(r[0] == x);
        }
    } else {
        let t = s.drop_first();
        assert forall|i: int, j: int|
            #![trigger t[i], t[j]]
            0 <= i < j < t.len() implies text::str_less_spec(t[i], t[j]) by {
            assert(t[i] == s[i + 1] && t[j] == s[j + 1]);
        }
        lemma_insert_distinct(t, x);
        let u = insert_distinct(t, x);
        assert(r =~= seq![s[0]] + u);
        text::lemma_lex_total(encode_utf8(s[0]), encode_utf8(x));
        if encode_utf8(s[0]) == encode_utf8(x) {
            text::lemma_same_bytes_same_chars(s[0], x);
        }
        assert forall|i: int, j: int|
            #![trigger r[i], r[j]]
            0 <= i < j < r.len() implies text::str_less_spec(r[i], r[j]) by {
            assert(r[j] == u[j - 1]);
            if i == 0 {
                assert(u.contains(u[j - 1]));
                if u[j - 1] != x {
                    let k = choose|k: int| 0 <= k < t.len() && t[k] == u[j - 1];
                    assert(s[k + 1] == u[j - 1]);
                }
            } else {
                assert(r[i] == u[i - 1]);
            }
        }
        assert forall|y: Seq<char>| #[trigger] r.contains(y) <==> s.contains(y) || y == x by {
            if r.contains(y) {
                let i = choose|i: int| 0 <= i < r.len() && r[i] == y;
                if i > 0 {
                    assert(u[i - 1] == y);
                    assert(u.contains(y));
                    if y != x {
                        let k = choose|k: int| 0 <= k < t.len() && t[k] == y;
                        assert(s[k + 1] == y);
                    }
                } else {
                    assert(s[0] == y);
                }
            }
            if s.contains(y) || y == x {
                if s.contains(y) && s[0] != y {
                    let i = choose|i: int| 0 <= i < s.len() && s[i] == y;
                    assert(t[i - 1] == y);
                    assert(t.contains(y));
                }
                if s[0] == y {
                    assert(r[0] == y);
                } else {
                    assert(u.contains(y));
                    let i = choose|i: int| 0 <= i < u.len() && u[i] == y;
                    assert(r[i + 1] == y);
                }
            }
        }
    }
}

/// The distinct strings are strictly ascending and hold what the input holds.
pub proof fn lemma_distinct_sorted(s: Seq<Seq<char>>)
    ensures
        strictly_ascending(distinct_sorted(s)),
        forall|y: Seq<char>| #[trigger] distinct_sorted(s).contains(y) <==> s.contains(y),
    decreases s.len(),
{
    if s.len() > 0 {
        lemma_distinct_sorted(s.drop_last());
        lemma_insert_distinct(distinct_sorted(s.drop_last()), s.last());
        assert forall|y: Seq<char>| #[trigger] distinct_sorted(s).contains(y) <==> s.contains(
            y,
        ) by {
            if s.contains(y) && y != s.last() {
                let i = choose|i: int| 0 <= i < s.len() && s[i] == y;
                assert(s.drop_last()[i] == y);
            }
            if s.drop_last().contains(y) {
                let i = choose|i: int| 0 <= i < s.drop_last().len() && s.drop_last()[i] == y;
                assert(s[i] == y);
            }
        }
    }
}

/// A strictly ascending list names nothing twice.
pub proof fn lemma_ascending_distinct(s: Seq<Seq<char>>)
    requires
        strictly_ascending(s),
    ensures
        s.no_duplicates(),
{
    assert forall|i: int, j: int| 0 <= i < s.len() && 0 <= j < s.len() && i != j implies s[i]
        != s[j] by {
        if s[i] == s[j] {
            text::lemma_lex_irreflexive(encode_utf8(s[i]));
            if i < j {
                assert(text::str_less_spec(s[i], s[j]));
            } else {
                assert(text::str_less_spec(s[j], s[i]));
            }
        }
    }
}

proof fn lemma_insert_distinct_at(s: Seq<Seq<char>>, x: Seq<char>, p: int)
    requires
        0 <= p <= s.len(),
        forall|j: int| 0 <= j < p ==> (#[trigger] s[j]) != x && !text::str_less_spec(x, s[j]),
        p < s.len() ==> s[p] == x || text::str_less_spec(x, s[p]),
    ensures
        insert_distinct(s, x) == (if p < s.len() && s[p] == x {
            s
        } else {
            s.insert(p, x)
        }),
    decreases s.len(),
{
    if s.len() == 0 {
        assert(s.insert(p, x) =~= seq![x]);
    } else if p == 0 {
        if s[0] != x {
            assert(s.insert(p, x) =~= seq![x] + s);
        }
    } else {
        let t = s.drop_first();
        assert forall|j: int| 0 <= j < p - 1 implies (#[trigger] t[j]) != x && !text::str_less_spec(
            x,
            t[j],
        ) by {
            assert(t[j] == s[j + 1]);
        }
        assert(s[0] != x);
        lemma_insert_distinct_at(t, x, p - 1);
        if p < s.len() && s[p] == x {
            assert(t[p - 1] == x);
            assert(s =~= seq![s[0]] + t);
        } else {
            assert(s.insert(p, x) =~= seq![s[0]] + t.insert(p - 1, x));
        }
    }
}

/// Adds a string to an ascending list of distinct strings.
pub fn add_distinct(list: &mut Vec<String>, x: &str)
    ensures
        views(final(list)@) == insert_distinct(views(old(list)@), x@),
{
    let mut p: usize = 0;
    while p < list.len() && !text::str_eq(list[p].as_str(), x) && !text::str_less(
        x,
        list[p].as_str(),
    )
        invariant
            p <= list@.len(),
            list@ == old(list)@,
            forall|j: int|
                0 <= j < p ==> (#[trigger] views(list@)[j]) != x@ && !text::str_less_spec(
                    x@,
                    views(list@)[j],
                ),
        ensures
            p <= list@.len(),
            list@ == old(list)@,
            forall|j: int|
                0 <= j < p ==> (#[trigger] views(list@)[j]) != x@ && !text::str_less_spec(
                    x@,
                    views(list@)[j],
                ),
            p < list@.len() ==> views(list@)[p as int] == x@ || text::str_less_spec(
                x@,
                views(list@)[p as int],
            ),
        decreases list@.len() - p,
    {
        p = p + 1;
    }
    proof {
        lemma_insert_distinct_at(views(list@), x@, p as int);
    }
    if p < list.len() && text::str_eq(list[p].as_str(), x) {
        return;
    }
    let ghost before = views(list@);
    list.insert(p, x.to_owned());
    assert(views(list@) =~= before.insert(p as int, x@));
}

/// Whether a list holds a string.
pub fn contains(list: &Vec<String>, x: &str) -> (r: bool)
    ensures
        r == views(list@).contains(x@),
{
    let mut i: usize = 0;
    while i < list.len()
        invariant
            i <= list@.len(),
            forall|k: int| 0 <= k < i ==> (#[trigger] views(list@)[k]) != x@,
        decreases list@.len() - i,
    {
        if text::str_eq(list[i].as_str(), x) {
            assert(views(list@)[i as int] == x@);
            return true;
        }
        i = i + 1;
    }
    false
}

/// The distinct strings of a list, in ascending order.
pub fn distinct(list: &Vec<String>) -> (r: Vec<String>)
    ensures
        views(r@) == distinct_sorted(views(list@)),
{
    let mut out: Vec<String> = Vec::new();
    let ghost lv = views(list@);
    let mut i: usize = 0;
    assert(views(out@) =~= Seq::<Seq<char>>::empty());
    assert(lv.take(0) =~= Seq::<Seq<char>>::empty());
    while i < list.len()
        invariant
            i <= list@.len(),
            lv == views(list@),
            views(out@) == distinct_sorted(lv.take(i as int)),
        decreases list@.len() - i,
    {
        add_distinct(&mut out, list[i].as_str());
        proof {
            assert(lv.take(i + 1).drop_last() =~= lv.take(i as int));
            assert(lv.take(i + 1).last() == list@[i as int]@);
        }
        i = i + 1;
    }
    assert(lv.take(i as int) =~= lv);
    out
}

/// Two strictly ascending lists with the same strings are the same list.
pub proof fn lemma_ascending_unique(s: Seq<Seq<char>>, t: Seq<Seq<char>>)
    requires
        strictly_ascending(s),
        strictly_ascending(t),
        forall|x: Seq<char>| #[trigger] s.contains(x) <==> t.contains(x),
    ensures
        s == t,
    decreases s.len(),
{
    if s.len() == 0 {
        if t.len() > 0 {
            assert(t.contains(t[0]));
            assert(s.contains(t[0]));
        }
        assert(s =~= t);
    } else {
        assert(s.contains(s[0]));
        assert(t.contains(s[0]));
        let k = choose|k: int| 0 <= k < t.len() && t[k] == s[0];
        assert(t.contains(t[0]));
        assert(s.contains(t[0]));
        let m = choose|m: int| 0 <= m < s.len() && s[m] == t[0];
        if k > 0 {
            assert(text::str_less_spec(t[0], t[k]));
            if m > 0 {
                assert(text::str_less_spec(s[0], s[m]));
                text::lemma_lex_transitive(
                    encode_utf8(t[0]),
                    encode_utf8(s[0]),
                    encode_utf8(t[0]),
                );
            }
            text::lemma_lex_irreflexive(encode_utf8(t[0]));
            assert(false);
        }
        let a = s.drop_first();
        let b = t.drop_first();
        assert forall|i: int, j: int|
            #![trigger a[i], a[j]]
            0 <= i < j < a.len() implies text::str_less_spec(a[i], a[j]) by {
            assert(a[i] == s[i + 1] && a[j] == s[j + 1]);
        }
        assert forall|i: int, j: int|
            #![trigger b[i], b[j]]
            0 <= i < j < b.len() implies text::str_less_spec(b[i], b[j]) by {
            assert(b[i] == t[i + 1] && b[j] == t[j + 1]);
        }
        lemma_ascending_distinct(s);
        lemma_ascending_distinct(t);
        assert forall|x: Seq<char>| #[trigger] a.contains(x) <==> b.contains(x) by {
            if a.contains(x) {
                let i = choose|i: int| 0 <= i < a.len() && a[i] == x;
                assert(s[i + 1] == x);
                assert(s.contains(x));
                assert(t.contains(x));
                let j = choose|j: int| 0 <= j < t.len() && t[j] == x;
                assert(j > 0);
                assert(b[j - 1] == x);
            }
            if b.contains(x) {
                let i = choose|i: int| 0 <= i < b.len() && b[i] == x;
                assert(t[i + 1] == x);
                assert(t.contains(x));
                assert(s.contains(x));
                let j = choose|j: int| 0 <= j < s.len() && s[j] == x;
                assert(j > 0);
                assert(a[j - 1] == x);
            }
        }
        lemma_ascending_unique(a, b);
        assert(s =~= seq![s[0]] + a);
        assert(t =~= seq![t[0]] + b);
    }
}

} // verus!
