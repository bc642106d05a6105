//! Searching in texts and cutting them into pieces.

use vstd::prelude::*;
use vstd::relations::*;
use vstd::seq_lib::*;
use vstd::string::*;

use crate::order;
use crate::storage;
use crate::text;

verus! {

/// The character stands nowhere in the text.
pub open spec fn free_of(s: Seq<char>, c: char) -> bool {
    forall|i: int| 0 <= i < s.len() ==> #[trigger] s[i] != c
}

/// Where `p` first stands in the text at or behind `from`.
pub open spec fn first_match(s: Seq<char>, p: Seq<char>, from: int) -> Option<int>
    decreases s.len() + 1 - from,
{
    if from < 0 || from > s.len() {
        None
    } else if text::has_prefix(s.skip(from), p) {
        Some(from)
    } else {
        first_match(s, p, from + 1)
    }
}

/// The text holds `p`.
pub open spec fn holds(s: Seq<char>, p: Seq<char>) -> bool {
    exists|i: int| 0 <= i <= s.len() && #[trigger] text::has_prefix(s.skip(i), p)
}

/// Where `p` stands first, and that it stands nowhere before.
pub proof fn lemma_first_match(s: Seq<char>, p: Seq<char>, from: int)
    requires
        0 <= from,
    ensures
        match first_match(s, p, from) {
            Some(i) => from <= i <= s.len() && text::has_prefix(s.skip(i), p) && i + p.len()
                <= s.len() && forall|j: int|
                from <= j < i ==> !#[trigger] text::has_prefix(s.skip(j), p),
            None => forall|j: int|
                from <= j <= s.len() ==> !#[trigger] text::has_prefix(s.skip(j), p),
        },
    decreases s.len() + 1 - from,
{
    if from <= s.len() && !text::has_prefix(s.skip(from), p) {
        lemma_first_match(s, p, from + 1);
    }
}

/// Finds where `p` first stands at or behind `from`.
pub fn find_text(chars: &[char], p: &[char], from: usize) -> (r: Option<usize>)
    requires
        from <= chars@.len(),
    ensures
        match r {
            Some(i) => first_match(chars@, p@, from as int) == Some(i as int),
            None => first_match(chars@, p@, from as int) is None,
        },
{
    let mut i: usize = from;
    loop
        invariant
            from <= i <= chars@.len(),
            first_match(chars@, p@, from as int) == first_match(chars@, p@, i as int),
        decreases chars@.len() - i,
    {
        if text::matches_at(chars, i, p) {
            return Some(i);
        }
        if i >= chars.len() {
            assert(first_match(chars@, p@, i + 1) is None);
            return None;
        }
        i = i + 1;
    }
}

/// Whether the text holds `p`.
pub fn contains(s: &str, p: &str) -> (r: bool)
    ensures
        r == holds(s@, p@),
{
    let chars = text::chars_of(s);
    let part = text::chars_of(p);
    proof {
        lemma_first_match(s@, p@, 0);
    }
    match find_text(chars.as_slice(), part.as_slice(), 0) {
        Some(i) => {
            assert(text::has_prefix(s@.skip(i as int), p@));
            true
        },
        None => false,
    }
}

/// The pieces between the places where `c` stands.
pub open spec fn pieces(s: Seq<char>, c: char) -> Seq<Seq<char>>
    decreases s.len(),
{
    match split_pair(s, c) {
        Some((a, b)) => if b.len() < s.len() {
            seq![a] + pieces(b, c)
        } else {
            seq![s]
        },
        None => seq![s],
    }
}

/// What stands before and after the first `c`.
pub open spec fn split_pair(s: Seq<char>, c: char) -> Option<(Seq<char>, Seq<char>)> {
    match text::first_index(s, c, 0) {
        Some(i) => Some((s.take(i as int), s.skip(i + 1))),
        None => None,
    }
}

/// A text is cut behind the part that is free of `c`.
pub proof fn lemma_split_at(a: Seq<char>, c: char, rest: Seq<char>)
    requires
        free_of(a, c),
        a.len() <= usize::MAX,
    ensures
        split_pair(a + seq![c] + rest, c) == Some((a, rest)),
        pieces(a + seq![c] + rest, c) == seq![a] + pieces(rest, c),
{
    let s = a + seq![c] + rest;
    lemma_first_at(a, c, rest, 0);
    assert(s.take(a.len() as int) =~= a);
    assert(s.skip(a.len() as int + 1) =~= rest);
}

proof fn lemma_first_at(a: Seq<char>, c: char, rest: Seq<char>, from: int)
    requires
        free_of(a, c),
        a.len() <= usize::MAX,
        0 <= from <= a.len(),
    ensures
        text::first_index(a + seq![c] + rest, c, from) == Some(a.len() as usize),
    decreases a.len() - from,
{
    let s = a + seq![c] + rest;
    if from < a.len() {
        assert(s[from] == a[from]);
        lemma_first_at(a, c, rest, from + 1);
    }
}

/// A text that is free of `c` is not cut.
pub proof fn lemma_split_nowhere(a: Seq<char>, c: char)
    requires
        free_of(a, c),
    ensures
        split_pair(a, c) is None,
        pieces(a, c) == seq![a],
{
    lemma_first_nowhere(a, c, 0);
}

proof fn lemma_first_nowhere(a: Seq<char>, c: char, from: int)
    requires
        free_of(a, c),
        0 <= from,
    ensures
        text::first_index(a, c, from) is None,
    decreases a.len() - from,
{
    if from < a.len() {
        lemma_first_nowhere(a, c, from + 1);
    }
}

/// Cuts the text at the first `c`.
pub fn split_once(s: &str, c: char) -> (r: Option<(String, String)>)
    ensures
        match r {
            Some(p) => split_pair(s@, c) == Some((p.0@, p.1@)),
            None => split_pair(s@, c) is None,
        },
        r matches Some(p) ==> p.0@.len() + 1 + p.1@.len() == s@.len(),
{
    let chars = text::chars_of(s);
    assert(chars.len() == s@.len());
    proof {
        text::lemma_first_index(s@, c, 0);
    }
    match text::find_char(chars.as_slice(), c, 0) {
        Some(i) => {
            let a = text::string_of(chars.as_slice(), 0, i);
            let b = text::string_of(chars.as_slice(), i + 1, chars.len());
            assert(a@ =~= s@.take(i as int));
            assert(b@ =~= s@.skip(i + 1));
            Some((a, b))
        },
        None => None,
    }
}

/// Cuts the text at every `c`.
pub fn split(s: &str, c: char) -> (r: Vec<String>)
    ensures
        order::views(r@) == pieces(s@, c),
{
    let mut out: Vec<String> = Vec::new();
    let mut rest: String = s.to_owned();
    let ghost goal = pieces(s@, c);
    assert(order::views(out@) + pieces(rest@, c) =~= goal);
    loop
        invariant_except_break
            order::views(out@) + pieces(rest@, c) == goal,
        ensures
            order::views(out@) == goal,
        decreases rest@.len(),
    {
        let ghost before = order::views(out@);
        match split_once(rest.as_str(), c) {
            Some((a, b)) => {
                out.push(a);
                assert(order::views(out@) =~= before.push(a@));
                assert(before + (seq![a@] + pieces(b@, c)) =~= order::views(out@) + pieces(b@, c));
                rest = b;
            },
            None => {
                out.push(rest.clone());
                assert(order::views(out@) =~= before.push(rest@));
                assert(before + seq![rest@] =~= order::views(out@));
                break;
            },
        }
    }
    out
}

/// The pieces between the places where `p` stands, taken from the left.
pub open spec fn text_pieces(s: Seq<char>, p: Seq<char>) -> Seq<Seq<char>>
    decreases s.len(),
{
    match first_match(s, p, 0) {
        Some(i) => if 0 <= i && p.len() > 0 && i + p.len() <= s.len() {
            seq![s.take(i)] + text_pieces(s.skip(i + p.len()), p)
        } else {
            seq![s]
        },
        None => seq![s],
    }
}

/// Cuts the text wherever `p` stands.
pub fn split_text(s: &str, p: &str) -> (r: Vec<String>)
    requires
        p@.len() > 0,
    ensures
        order::views(r@) == text_pieces(s@, p@),
{
    let part = text::chars_of(p);
    let mut out: Vec<String> = Vec::new();
    let mut rest: Vec<char> = text::chars_of(s);
    let ghost goal = text_pieces(s@, p@);
    assert(order::views(out@) + text_pieces(rest@, p@) =~= goal);
    loop
        invariant_except_break
            order::views(out@) + text_pieces(rest@, p@) == goal,
        invariant
            p@.len() > 0,
            part@ == p@,
        ensures
            order::views(out@) == goal,
        decreases rest@.len(),
    {
        let ghost before = order::views(out@);
        proof {
            lemma_first_match(rest@, p@, 0);
        }
        assert(rest.len() == rest@.len());
        match find_text(rest.as_slice(), part.as_slice(), 0) {
            Some(i) => {
                let a = text::string_of(rest.as_slice(), 0, i);
                assert(a@ =~= rest@.take(i as int));
                let mut tail: Vec<char> = Vec::new();
                let mut k: usize = i + part.len();
                while k < rest.len()
                    invariant
                        i + part@.len() <= k <= rest@.len(),
                        tail@ == rest@.subrange(i + part@.len(), k as int),
                    decreases rest@.len() - k,
                {
                    tail.push(rest[k]);
                    k = k + 1;
                    assert(tail@ =~= rest@.subrange(i + part@.len(), k as int));
                }
                assert(tail@ =~= rest@.skip(i + p@.len()));
                out.push(a);
                assert(order::views(out@) =~= before.push(a@));
                assert(before + (seq![a@] + text_pieces(tail@, p@)) =~= order::views(out@)
                    + text_pieces(tail@, p@));
                rest = tail;
            },
            None => {
                let a = text::string_of(rest.as_slice(), 0, rest.len());
                assert(a@ =~= rest@);
                out.push(a);
                assert(order::views(out@) =~= before.push(rest@));
                assert(before + seq![rest@] =~= order::views(out@));
                break;
            },
        }
    }
    out
}

/// The text without leading `c`.
pub open spec fn without_leading(s: Seq<char>, c: char) -> Seq<char>
    decreases s.len(),
{
    if s.len() > 0 && s[0] == c {
        without_leading(s.drop_first(), c)
    } else {
        s
    }
}

/// The text without `c` at either end.
pub open spec fn stripped(s: Seq<char>, c: char) -> Seq<char> {
    text::without_trailing(without_leading(s, c), c)
}

/// Cuts every leading `c` off.
pub fn trim_start_char<'a>(s: &'a str, c: char) -> (r: &'a str)
    ensures
        r@ == without_leading(s@, c),
{
    let chars = text::chars_of(s);
    let mut i: usize = 0;
    assert(s@.skip(0) =~= s@);
    while i < chars.len() && chars[i] == c
        invariant
            i <= chars@.len(),
            chars@ == s@,
            without_leading(s@, c) == without_leading(s@.skip(i as int), c),
        ensures
            i <= chars@.len(),
            without_leading(s@, c) == s@.skip(i as int),
        decreases chars@.len() - i,
    {
        assert(s@.skip(i as int).drop_first() =~= s@.skip(i + 1));
        i = i + 1;
    }
    assert(s@.subrange(i as int, s@.len() as int) =~= s@.skip(i as int));
    s.substring_char(i, chars.len())
}

/// Cuts every `c` off both ends.
pub fn trim_char<'a>(s: &'a str, c: char) -> (r: &'a str)
    ensures
        r@ == stripped(s@, c),
{
    text::trim_end_char(trim_start_char(s, c), c)
}

/// Where the first word ends: the first white space.
pub open spec fn word_end(s: Seq<char>) -> int
    decreases s.len(),
{
    if s.len() == 0 || text::is_space(s[0]) {
        0
    } else {
        1 + word_end(s.drop_first())
    }
}

proof fn lemma_word_end(s: Seq<char>)
    ensures
        0 <= word_end(s) <= s.len(),
        s.len() > 0 && !text::is_space(s[0]) ==> word_end(s) > 0,
    decreases s.len(),
{
    if s.len() > 0 && !text::is_space(s[0]) {
        lemma_word_end(s.drop_first());
    }
}

/// The words of a text: what stands between white space.
pub open spec fn words(s: Seq<char>) -> Seq<Seq<char>>
    decreases s.len(),
{
    if s.len() == 0 {
        Seq::empty()
    } else if text::is_space(s[0]) {
        words(s.drop_first())
    } else {
        let n = word_end(s);
        if 0 < n <= s.len() {
            seq![s.take(n)] + words(s.skip(n))
        } else {
            Seq::empty()
        }
    }
}

/// Cuts the text at its white space.
pub fn split_words(s: &str) -> (r: Vec<String>)
    ensures
        order::views(r@) == words(s@),
{
    let chars = text::chars_of(s);
    let mut out: Vec<String> = Vec::new();
    let mut i: usize = 0;
    let ghost goal = words(s@);
    assert(s@.skip(0) =~= s@);
    assert(order::views(out@) + words(s@.skip(0)) =~= goal);
    while i < chars.len()
        invariant
            i <= chars@.len(),
            chars@ == s@,
            order::views(out@) + words(s@.skip(i as int)) == goal,
        decreases chars@.len() - i,
    {
        let ghost rest = s@.skip(i as int);
        if text::space(chars[i]) {
            assert(rest.drop_first() =~= s@.skip(i + 1));
            i = i + 1;
        } else {
            let mut k: usize = i;
            while k < chars.len() && !text::space(chars[k])
                invariant
                    i <= k <= chars@.len(),
                    chars@ == s@,
                    word_end(s@.skip(i as int)) == (k - i) + word_end(s@.skip(k as int)),
                ensures
                    i <= k <= chars@.len(),
                    word_end(s@.skip(i as int)) == k - i,
                decreases chars@.len() - k,
            {
                assert(s@.skip(k as int).drop_first() =~= s@.skip(k + 1));
                k = k + 1;
            }
            proof {
                lemma_word_end(rest);
            }
            let w = text::string_of(chars.as_slice(), i, k);
            let ghost before = order::views(out@);
            assert(w@ =~= rest.take(k - i));
            assert(rest.skip(k - i) =~= s@.skip(k as int));
            out.push(w);
            assert(order::views(out@) =~= before.push(w@));
            assert(before + (seq![w@] + words(s@.skip(k as int))) =~= order::views(out@) + words(
                s@.skip(k as int),
            ));
            i = k;
        }
    }
    assert(words(s@.skip(i as int)) =~= Seq::<Seq<char>>::empty());
    out
}

// ------------------------------------------------------------ pairs in order

/// The order of pairs: by the first text, then by the second.
pub open spec fn pair_before(a: (Seq<char>, Seq<char>), b: (Seq<char>, Seq<char>)) -> bool {
    text::str_less_spec(a.0, b.0) || (a.0 == b.0 && !text::str_less_spec(b.1, a.1))
}

/// The pairs in order.
pub open spec fn in_order(pairs: Seq<(Seq<char>, Seq<char>)>) -> Seq<(Seq<char>, Seq<char>)> {
    pairs.sort_by(|a: (Seq<char>, Seq<char>), b: (Seq<char>, Seq<char>)| pair_before(a, b))
}

/// Exactly one of two different texts stands before the other.
pub proof fn lemma_text_total(a: Seq<char>, b: Seq<char>)
    ensures
        !text::str_less_spec(a, a),
        text::str_less_spec(a, b) || text::str_less_spec(b, a) || a == b,
        !(text::str_less_spec(a, b) && text::str_less_spec(b, a)),
{
    let x = vstd::utf8::encode_utf8(a);
    let y = vstd::utf8::encode_utf8(b);
    text::lemma_lex_irreflexive(x);
    text::lemma_lex_total(x, y);
    if text::lex_less(x, y) && text::lex_less(y, x) {
        text::lemma_lex_transitive(x, y, x);
    }
    if x == y {
        text::lemma_same_bytes_same_chars(a, b);
    }
}

/// The order of pairs is total.
pub proof fn lemma_pair_order()
    ensures
        total_ordering(
            |a: (Seq<char>, Seq<char>), b: (Seq<char>, Seq<char>)| pair_before(a, b),
        ),
{
    let r = |a: (Seq<char>, Seq<char>), b: (Seq<char>, Seq<char>)| pair_before(a, b);
    assert forall|a: (Seq<char>, Seq<char>)| #[trigger] r(a, a) by {
        lemma_text_total(a.1, a.1);
    }
    assert forall|a: (Seq<char>, Seq<char>), b: (Seq<char>, Seq<char>)| #[trigger]
        r(a, b) && #[trigger] r(b, a) implies a == b by {
        lemma_text_total(a.0, b.0);
        lemma_text_total(a.1, b.1);
    }
    assert forall|a: (Seq<char>, Seq<char>), b: (Seq<char>, Seq<char>)| #[trigger]
        r(a, b) || #[trigger] r(b, a) by {
        lemma_text_total(a.0, b.0);
        lemma_text_total(a.1, b.1);
    }
    assert forall|
        a: (Seq<char>, Seq<char>),
        b: (Seq<char>, Seq<char>),
        c: (Seq<char>, Seq<char>),
    | #[trigger] r(a, b) && #[trigger] r(b, c) implies r(a, c) by {
        lemma_text_total(a.0, b.0);
        lemma_text_total(b.0, c.0);
        if text::str_less_spec(a.0, b.0) && text::str_less_spec(b.0, c.0) {
            text::lemma_lex_transitive(
                vstd::utf8::encode_utf8(a.0),
                vstd::utf8::encode_utf8(b.0),
                vstd::utf8::encode_utf8(c.0),
            );
        }
        if a.0 == b.0 && b.0 == c.0 {
            text::lemma_lex_not_less_transitive(
                vstd::utf8::encode_utf8(a.1),
                vstd::utf8::encode_utf8(b.1),
                vstd::utf8::encode_utf8(c.1),
            );
        }
    }
}

fn stands_before(a: &(String, String), b: &(String, String)) -> (r: bool)
    ensures
        r == pair_before((a.0@, a.1@), (b.0@, b.1@)),
{
    if text::str_less(a.0.as_str(), b.0.as_str()) {
        true
    } else if text::str_eq(a.0.as_str(), b.0.as_str()) {
        !text::str_less(b.1.as_str(), a.1.as_str())
    } else {
        false
    }
}

/// Puts pairs in order.
pub fn sort_pairs(pairs: &Vec<(String, String)>) -> (r: Vec<(String, String)>)
    ensures
        storage::pair_views(r@) == in_order(storage::pair_views(pairs@)),
{
    let ghost r = |a: (Seq<char>, Seq<char>), b: (Seq<char>, Seq<char>)| pair_before(a, b);
    let ghost all = storage::pair_views(pairs@);
    proof {
        lemma_pair_order();
    }
    let mut out: Vec<(String, String)> = Vec::new();
    let mut n: usize = 0;
    assert(storage::pair_views(out@) =~= all.take(0));
    while n < pairs.len()
        invariant
            n <= pairs@.len(),
            all == storage::pair_views(pairs@),
            r == (|a: (Seq<char>, Seq<char>), b: (Seq<char>, Seq<char>)| pair_before(a, b)),
            total_ordering(r),
            sorted_by(storage::pair_views(out@), r),
            storage::pair_views(out@).to_multiset() == all.take(n as int).to_multiset(),
        decreases pairs@.len() - n,
    {
        let ghost sofar = storage::pair_views(out@);
        let ghost x = all[n as int];
        let mut p: usize = 0;
        while p < out.len() && stands_before(&out[p], &pairs[n])
            invariant
                n < pairs@.len(),
                p <= out@.len(),
                sofar == storage::pair_views(out@),
                all == storage::pair_views(pairs@),
                x == all[n as int],
                r == (|a: (Seq<char>, Seq<char>), b: (Seq<char>, Seq<char>)| pair_before(a, b)),
                forall|j: int| 0 <= j < p ==> r(#[trigger] sofar[j], x),
            ensures
                p <= out@.len(),
                forall|j: int| 0 <= j < p ==> r(#[trigger] sofar[j], x),
                p < out@.len() ==> !r(sofar[p as int], x),
            decreases out@.len() - p,
        {
            p = p + 1;
        }
        out.insert(p, (pairs[n].0.clone(), pairs[n].1.clone()));
        proof {
            let now = storage::pair_views(out@);
            assert(now =~= sofar.insert(p as int, x));
            assert forall|i: int, j: int| 0 <= i < j < now.len() implies #[trigger] r(
                now[i],
                now[j],
            ) by {
                if p < sofar.len() {
                    assert(r(x, sofar[p as int]));
                }
                if i == p && j > p {
                    assert(now[j] == sofar[j - 1]);
                    if j - 1 > p {
                        assert(r(sofar[p as int], sofar[j - 1]));
                    }
                } else if i < p && j > p {
                    assert(r(sofar[i], sofar[j - 1]));
                } else if i > p {
                    assert(r(sofar[i - 1], sofar[j - 1]));
                } else if j < p {
                    assert(r(sofar[i], sofar[j]));
                }
            }
            to_multiset_insert(sofar, p as int, x);
            assert(all.take(n + 1) =~= all.take(n as int).push(x));
            to_multiset_build(all.take(n as int), x);
        }
        n = n + 1;
    }
    proof {
        assert(all.take(n as int) =~= all);
        all.lemma_sort_by_ensures(r);
        lemma_sorted_unique(storage::pair_views(out@), all.sort_by(r), r);
    }
    out
}

} // verus!
