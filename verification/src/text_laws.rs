//! What holds of texts, their order, and the values under their names.

use vstd::prelude::*;
use vstd::utf8::*;

use crate::query;
use crate::split;
use crate::text;

verus! {

/// Two byte strings are alike before a place, and there the first one ends or has the lower
/// byte.
pub open spec fn differ_at(a: Seq<u8>, b: Seq<u8>, i: int) -> bool {
    &&& 0 <= i <= a.len()
    &&& i < b.len()
    &&& forall|k: int| 0 <= k < i ==> #[trigger] a[k] == b[k]
    &&& i < a.len() ==> a[i] < b[i]
}

proof fn lemma_first_difference(a: Seq<u8>, b: Seq<u8>)
    ensures
        text::lex_less(a, b) <==> exists|i: int| #[trigger] differ_at(a, b, i),
    decreases a.len(),
{
    if b.len() == 0 {
    } else if a.len() == 0 {
        assert(differ_at(a, b, 0));
    } else if a[0] != b[0] {
        if a[0] < b[0] {
            assert(differ_at(a, b, 0));
        }
        if exists|i: int| #[trigger] differ_at(a, b, i) {
            let i = choose|i: int| #[trigger] differ_at(a, b, i);
            if i > 0 {
                assert(a[0] == b[0]);
            }
        }
    } else {
        let x = a.drop_first();
        let y = b.drop_first();
        lemma_first_difference(x, y);
        if text::lex_less(x, y) {
            let i = choose|i: int| #[trigger] differ_at(x, y, i);
            assert forall|k: int| 0 <= k < i + 1 implies #[trigger] a[k] == b[k] by {
                if k > 0 {
                    assert(x[k - 1] == y[k - 1]);
                }
            }
            assert(differ_at(a, b, i + 1));
        }
        if exists|i: int| #[trigger] differ_at(a, b, i) {
            let i = choose|i: int| #[trigger] differ_at(a, b, i);
            assert(i > 0);
            assert forall|k: int| 0 <= k < i - 1 implies #[trigger] x[k] == y[k] by {
                assert(a[k + 1] == b[k + 1]);
            }
            assert(differ_at(x, y, i - 1));
        }
    }
}

/// A text stands before another one exactly where, at the first place at which their bytes
/// differ, it has the lower byte or has ended.
pub proof fn law_order_goes_by_the_first_difference(a: Seq<char>, b: Seq<char>)
    ensures
        text::str_less_spec(a, b) <==> exists|i: int| #[trigger]
            differ_at(encode_utf8(a), encode_utf8(b), i),
{
    lemma_first_difference(encode_utf8(a), encode_utf8(b));
}

/// Nothing but blanks.
pub open spec fn blank(s: Seq<char>) -> bool {
    forall|i: int| 0 <= i < s.len() ==> #[trigger] s[i] == ' '
}

/// A text that neither begins nor ends with white space, as far as ASCII goes.
pub open spec fn tight(s: Seq<char>) -> bool {
    s.len() > 0 ==> '!' <= s[0] <= '~' && '!' <= s[s.len() - 1] <= '~'
}

proof fn lemma_lead(pad: Seq<char>, s: Seq<char>)
    requires
        blank(pad),
        s.len() == 0 || '!' <= s[0] <= '~',
    ensures
        text::trim_start(pad + s) == s,
    decreases pad.len(),
{
    if pad.len() == 0 {
        assert(pad + s =~= s);
    } else {
        assert(pad[0] == ' ');
        let t = pad.drop_first();
        assert forall|i: int| 0 <= i < t.len() implies #[trigger] t[i] == ' ' by {
            assert(t[i] == pad[i + 1]);
        }
        assert((pad + s).drop_first() =~= t + s);
        lemma_lead(t, s);
    }
}

proof fn lemma_trail(s: Seq<char>, pad: Seq<char>)
    requires
        blank(pad),
        s.len() == 0 || '!' <= s[s.len() - 1] <= '~',
    ensures
        text::trim_end(s + pad) == s,
    decreases pad.len(),
{
    if pad.len() == 0 {
        assert(s + pad =~= s);
    } else {
        assert(pad[pad.len() - 1] == ' ');
        let t = pad.drop_last();
        assert forall|i: int| 0 <= i < t.len() implies #[trigger] t[i] == ' ' by {
            assert(t[i] == pad[i]);
        }
        assert((s + pad).drop_last() =~= s + t);
        lemma_trail(s, t);
    }
}

/// Blanks around a text are cut off, and nothing else.
pub proof fn law_blanks_are_cut_off(before: Seq<char>, s: Seq<char>, after: Seq<char>)
    requires
        blank(before),
        blank(after),
        tight(s),
    ensures
        text::trimmed(before + s + after) == s,
{
    if s.len() > 0 {
        assert(before + s + after =~= before + (s + after));
        lemma_lead(before, s + after);
        lemma_trail(s, after);
    } else {
        let pad = before + after;
        assert(before + s + after =~= pad + s);
        assert(blank(pad));
        lemma_lead(pad, s);
        lemma_trail(s, Seq::empty());
        assert(s + Seq::<char>::empty() =~= s);
    }
}

/// Of the values under a name the last counts, and a name without a value has none.
pub proof fn law_last_value_counts(pairs: Seq<(Seq<char>, Seq<char>)>, name: Seq<char>, i: int)
    requires
        0 <= i < pairs.len(),
        pairs[i].0 == name,
        forall|j: int| i < j < pairs.len() ==> (#[trigger] pairs[j]).0 != name,
    ensures
        query::by_name(pairs).contains_key(name),
        query::by_name(pairs)[name] == pairs[i].1,
    decreases pairs.len(),
{
    if i < pairs.len() - 1 {
        assert(pairs[pairs.len() - 1].0 != name);
        let d = pairs.drop_last();
        assert forall|j: int| i < j < d.len() implies (#[trigger] d[j]).0 != name by {
            assert(d[j] == pairs[j]);
        }
        law_last_value_counts(d, name, i);
    }
}

/// A name that does not stand among the pairs has no value.
pub proof fn law_missing_name_has_no_value(pairs: Seq<(Seq<char>, Seq<char>)>, name: Seq<char>)
    requires
        forall|j: int| 0 <= j < pairs.len() ==> (#[trigger] pairs[j]).0 != name,
    ensures
        !query::by_name(pairs).contains_key(name),
    decreases pairs.len(),
{
    if pairs.len() > 0 {
        assert(pairs[pairs.len() - 1].0 != name);
        let d = pairs.drop_last();
        assert forall|j: int| 0 <= j < d.len() implies (#[trigger] d[j]).0 != name by {
            assert(d[j] == pairs[j]);
        }
        law_missing_name_has_no_value(d, name);
    }
}

/// A number is written with decimal digits alone, and is read back from them.
pub proof fn law_numbers_are_read_back(n: u64)
    ensures
        text::u64_value(text::decimal(n as nat)) == Some(n),
        forall|i: int|
            0 <= i < text::decimal(n as nat).len() ==> '0' <= #[trigger] text::decimal(
                n as nat,
            )[i] <= '9',
        text::decimal(n as nat).len() > 0,
{
    text::lemma_u64_round_trip(n);
    text::lemma_decimal_digits(n as nat);
    let d = text::decimal(n as nat);
    assert forall|i: int| 0 <= i < d.len() implies '0' <= #[trigger] d[i] <= '9' by {
        assert(text::is_digit(d[i]));
    }
}

/// The digits of a number stand for tens and units: one more digit behind a number makes it
/// ten times as large, and adds the digit.
pub proof fn law_digits_count_tens(n: nat, d: nat)
    requires
        n > 0,
        d < 10,
    ensures
        text::decimal(n * 10 + d) == text::decimal(n).push((48 + d) as char),
        text::decimal(d) == seq![(48 + d) as char],
{
    assert((n * 10 + d) / 10 == n);
    assert((n * 10 + d) % 10 == d);
}

/// Blanks, tabs and line ends are white space, and so are the wide blanks; letters, digits and
/// signs are not.
pub proof fn law_white_space_is_blank(c: char)
    ensures
        c == ' ' || c == '\t' || c == '\n' || c == '\r' ==> text::is_space(c),
        c as u32 == 0xa0 || c as u32 == 0x2003 || c as u32 == 0x3000 ==> text::is_space(c),
        '!' <= c <= '~' ==> !text::is_space(c),
{
}

/// A number may have a plus sign in front; a text that is empty, or has anything else in it, is
/// no number.
pub proof fn law_only_digits_are_numbers(n: u64, s: Seq<char>, i: int)
    ensures
        text::u64_value(seq!['+'] + text::decimal(n as nat)) == Some(n),
        text::u64_value(Seq::empty()) is None,
        0 < i < s.len() && !('0' <= s[i] <= '9') ==> text::u64_value(s) is None,
        s.len() > 0 && s[0] != '+' && !('0' <= s[0] <= '9') ==> text::u64_value(s) is None,
{
    let d = text::decimal(n as nat);
    let p = seq!['+'] + d;
    text::lemma_decimal_value(n as nat);
    assert(p[0] == '+');
    assert(p.skip(1) =~= d);
    if 0 < i < s.len() && !('0' <= s[i] <= '9') {
        assert(!text::is_digit(s[i]));
        assert(s.skip(1)[i - 1] == s[i]);
    }
    if s.len() > 0 && s[0] != '+' && !('0' <= s[0] <= '9') {
        assert(!text::is_digit(s[0]));
    }
}

/// Numbers with a sign are read back: a negative one begins with a minus sign.
pub proof fn law_signed_numbers_are_read_back(n: nat)
    ensures
        text::integer_value(text::decimal(n)) == Some(n as int),
        text::integer_value(seq!['-'] + text::decimal(n)) == Some(-(n as int)),
        n > 0 ==> text::decimal_int(-(n as int)) == seq!['-'] + text::decimal(n),
        text::decimal_int(n as int) == text::decimal(n),
{
    let d = text::decimal(n);
    let m = seq!['-'] + d;
    text::lemma_decimal_value(n);
    assert(text::is_digit(d[0]));
    assert(m[0] == '-');
    assert(m.skip(1) =~= d);
    reveal_strlit("-");
    assert("-"@ =~= seq!['-']);
}

/// Capital letters become small ones, and nothing else changes.
pub proof fn law_capitals_become_small(s: Seq<char>, i: int)
    requires
        0 <= i < s.len(),
    ensures
        text::lowered(s).len() == s.len(),
        'A' <= s[i] <= 'Z' ==> text::lowered(s)[i] == (s[i] as int + 32) as char,
        !('A' <= s[i] <= 'Z') ==> text::lowered(s)[i] == s[i],
{
}

/// A text is cut at its white space: a word, white space behind it, and the words of the rest.
pub proof fn law_words_stand_between_white_space(w: Seq<char>, c: char, rest: Seq<char>)
    requires
        w.len() > 0,
        forall|i: int| 0 <= i < w.len() ==> !text::is_space(#[trigger] w[i]),
        text::is_space(c),
    ensures
        split::words(w + seq![c] + rest) == seq![w] + split::words(rest),
        split::words(seq![c] + rest) == split::words(rest),
        split::words(w) == seq![w],
{
    let s = w + seq![c] + rest;
    lemma_word(w, seq![c] + rest);
    assert(s =~= w + (seq![c] + rest));
    assert(s.take(w.len() as int) =~= w);
    assert(s.skip(w.len() as int) =~= seq![c] + rest);
    assert((seq![c] + rest)[0] == c);
    assert((seq![c] + rest).drop_first() =~= rest);
    assert(s[0] == w[0]);
    assert(!text::is_space(w[0]));
    assert(split::word_end(s) == w.len());
    assert(split::words(s) == seq![w] + split::words(seq![c] + rest));
    lemma_word(w, Seq::empty());
    assert(w + Seq::empty() =~= w);
    assert(split::words(Seq::empty()) =~= Seq::<Seq<char>>::empty());
    assert(w.take(w.len() as int) =~= w);
    assert(w.skip(w.len() as int) =~= Seq::empty());
    assert(split::words(w) =~= seq![w]);
}

proof fn lemma_word(w: Seq<char>, rest: Seq<char>)
    requires
        forall|i: int| 0 <= i < w.len() ==> !text::is_space(#[trigger] w[i]),
        rest.len() == 0 || text::is_space(rest[0]),
    ensures
        split::word_end(w + rest) == w.len(),
    decreases w.len(),
{
    let s = w + rest;
    if w.len() > 0 {
        let t = w.drop_first();
        assert(s[0] == w[0]);
        assert forall|i: int| 0 <= i < t.len() implies !text::is_space(#[trigger] t[i]) by {
            assert(t[i] == w[i + 1]);
        }
        assert(s.drop_first() =~= t + rest);
        lemma_word(t, rest);
    } else if rest.len() > 0 {
        assert(s[0] == rest[0]);
    }
}

} // verus!
