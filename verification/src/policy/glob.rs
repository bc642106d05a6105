//! Tiny glob matcher supporting `*` (zero or more of any character) and `?`
//! (exactly one character). No character classes, no escaping. Used for policy
//! action names (`s3:Get*`) and resource names (`arn:aws:s3:::bucket/photos/*`).

use vstd::prelude::*;

use crate::text;

verus! {

/// The pattern from position `i` on matches the whole text from position `j` on.
pub open spec fn glob_at(p: Seq<char>, t: Seq<char>, i: int, j: int) -> bool
    decreases p.len() - i, t.len() - j,
{
    if i >= p.len() {
        j == t.len()
    } else if p[i] == '*' {
        glob_at(p, t, i + 1, j) || (j < t.len() && glob_at(p, t, i, j + 1))
    } else {
        j < t.len() && (p[i] == '?' || p[i] == t[j]) && glob_at(p, t, i + 1, j + 1)
    }
}

/// The pattern matches the whole text.
pub open spec fn glob_spec(p: Seq<char>, t: Seq<char>) -> bool {
    glob_at(p, t, 0, 0)
}

/// A `*` stands for any stretch of the text, the empty one included.
pub proof fn law_star_is_any_stretch(p: Seq<char>, t: Seq<char>, i: int, j: int)
    requires
        0 <= i < p.len(),
        p[i] == '*',
        0 <= j <= t.len(),
    ensures
        glob_at(p, t, i, j) <==> exists|k: int|
            j <= k <= t.len() && #[trigger] glob_at(p, t, i + 1, k),
    decreases t.len() - j,
{
    if j < t.len() {
        law_star_is_any_stretch(p, t, i, j + 1);
        if glob_at(p, t, i, j + 1) {
            let k = choose|k: int| j + 1 <= k <= t.len() && #[trigger] glob_at(p, t, i + 1, k);
            assert(j <= k <= t.len() && glob_at(p, t, i + 1, k));
        }
    }
    assert(glob_at(p, t, i, j) == (glob_at(p, t, i + 1, j) || (j < t.len() && glob_at(
        p,
        t,
        i,
        j + 1,
    ))));
    if exists|k: int| j <= k <= t.len() && #[trigger] glob_at(p, t, i + 1, k) {
        let k = choose|k: int| j <= k <= t.len() && #[trigger] glob_at(p, t, i + 1, k);
        if k > j {
            assert(j + 1 <= k <= t.len() && glob_at(p, t, i + 1, k));
        }
    }
}

/// No `*` stands in the pattern positions `a..b`.
spec fn star_free(p: Seq<char>, a: int, b: int) -> bool {
    forall|i: int| a <= i < b ==> #[trigger] p[i] != '*'
}

/// A stretch without `*` consumes exactly as many characters as it is long.
proof fn lemma_star_free(p: Seq<char>, t: Seq<char>, a: int, b: int, k: int)
    requires
        0 <= a <= b <= p.len(),
        0 <= k,
        star_free(p, a, b),
        glob_at(p, t, a, k),
        k <= t.len(),
    ensures
        k + (b - a) <= t.len(),
        glob_at(p, t, b, k + (b - a)),
    decreases b - a,
{
    if a < b {
        assert(p[a] != '*');
        lemma_star_free(p, t, a + 1, b, k + 1);
    }
}

/// What is left of a pattern at the end of the text has to be stars alone.
proof fn lemma_at_end(p: Seq<char>, t: Seq<char>, i: int)
    requires
        0 <= i <= p.len(),
    ensures
        glob_at(p, t, i, t.len() as int) <==> (forall|k: int| i <= k < p.len() ==> p[k] == '*'),
    decreases p.len() - i,
{
    if i < p.len() {
        lemma_at_end(p, t, i + 1);
    }
}

/// Some later start of the text after the last star still leads to a match.
spec fn retry(p: Seq<char>, t: Seq<char>, star: Option<usize>, from: int) -> bool {
    star is Some && exists|k: int|
        from < k <= t.len() && #[trigger] glob_at(p, t, star->0 + 1, k)
}

/// Whether `pattern` matches the whole of `s`.
pub fn glob_match(pattern: &str, s: &str) -> (r: bool)
    ensures
        r == glob_spec(pattern@, s@),
{
    let p = text::chars_of(pattern);
    let t = text::chars_of(s);
    match_inner(&p, &t)
}

/// Walks the text once, remembering the last `*` so that a mismatch can move the
/// text position one step and try again.
fn match_inner(p: &Vec<char>, t: &Vec<char>) -> (r: bool)
    ensures
        r == glob_spec(p@, t@),
{
    let ghost goal = glob_spec(p@, t@);
    let mut pi: usize = 0;
    let mut ti: usize = 0;
    let mut star_p: Option<usize> = None;
    let mut star_t: usize = 0;
    while ti < t.len()
        invariant
            goal == glob_spec(p@, t@),
            pi <= p@.len(),
            star_t <= ti <= t@.len(),
            goal == (glob_at(p@, t@, pi as int, ti as int) || retry(
                p@,
                t@,
                star_p,
                star_t as int,
            )),
            star_p matches Some(sp) ==> {
                &&& sp < pi
                &&& p@[sp as int] == '*'
                &&& star_free(p@, sp + 1, pi as int)
                &&& pi - (sp + 1) == ti - star_t
            },
        decreases
                (if star_p is None {
                    t@.len() as int + 1
                } else {
                    t@.len() - star_t
                }),
                p@.len() - pi,
    {
        if pi < p.len() && p[pi] == '*' {
            proof {
                law_star_is_any_stretch(p@, t@, pi as int, ti as int);
                if retry(p@, t@, star_p, star_t as int) {
                    let sp = star_p->0;
                    let k = choose|k: int|
                        star_t < k <= t@.len() && #[trigger] glob_at(p@, t@, sp + 1, k);
                    lemma_star_free(p@, t@, sp + 1, pi as int, k);
                    let m = k + (pi - (sp + 1));
                    law_star_is_any_stretch(p@, t@, pi as int, m);
                    let q = choose|q: int|
                        m <= q <= t@.len() && #[trigger] glob_at(p@, t@, pi + 1, q);
                    assert(ti <= q <= t@.len() && glob_at(p@, t@, pi + 1, q));
                    assert(glob_at(p@, t@, pi as int, ti as int));
                }
                if goal {
                    let q = choose|q: int|
                        ti <= q <= t@.len() && #[trigger] glob_at(p@, t@, pi + 1, q);
                    if q > ti {
                        let star: Option<usize> = Some(pi);
                        assert(ti < q <= t@.len() && glob_at(p@, t@, star->0 + 1, q));
                        assert(retry(p@, t@, star, ti as int));
                    }
                }
                if glob_at(p@, t@, pi + 1, ti as int) {
                    assert(glob_at(p@, t@, pi as int, ti as int));
                }
                if retry(p@, t@, Some(pi), ti as int) {
                    let q = choose|q: int|
                        ti < q <= t@.len() && #[trigger] glob_at(p@, t@, pi + 1, q);
                    assert(glob_at(p@, t@, pi as int, ti as int));
                }
            }
            star_p = Some(pi);
            star_t = ti;
            pi = pi + 1;
        } else if pi < p.len() && (p[pi] == '?' || p[pi] == t[ti]) {
            pi = pi + 1;
            ti = ti + 1;
        } else {
            assert(!glob_at(p@, t@, pi as int, ti as int));
            match star_p {
                Some(sp) => {
                    proof {
                        if goal {
                            let k = choose|k: int|
                                star_t < k <= t@.len() && #[trigger] glob_at(p@, t@, sp + 1, k);
                            assert(k == star_t + 1 || retry(p@, t@, star_p, star_t + 1));
                        }
                    }
                    pi = sp + 1;
                    star_t = star_t + 1;
                    ti = star_t;
                },
                None => {
                    return false;
                },
            }
        }
    }
    proof {
        if retry(p@, t@, star_p, star_t as int) {
            let sp = star_p->0;
            let k = choose|k: int| star_t < k <= t@.len() && #[trigger] glob_at(p@, t@, sp + 1, k);
            lemma_star_free(p@, t@, sp + 1, pi as int, k);
            assert(false);
        }
        lemma_at_end(p@, t@, pi as int);
    }
    let ghost from = pi;
    while pi < p.len() && p[pi] == '*'
        invariant
            from <= pi <= p@.len(),
            forall|k: int| from <= k < pi ==> p@[k] == '*',
        ensures
            from <= pi <= p@.len(),
            forall|k: int| from <= k < pi ==> p@[k] == '*',
            pi < p@.len() ==> p@[pi as int] != '*',
        decreases p@.len() - pi,
    {
        pi = pi + 1;
    }
    pi == p.len()
}

/// A pattern without `*` and `?` matches itself and nothing else.
pub proof fn law_plain_pattern_is_equality(p: Seq<char>, t: Seq<char>)
    requires
        forall|i: int| 0 <= i < p.len() ==> p[i] != '*' && p[i] != '?',
    ensures
        glob_spec(p, t) <==> p == t,
{
    lemma_plain(p, t, 0);
    assert(p =~= p.skip(0));
    assert(t =~= t.skip(0));
}

proof fn lemma_plain(p: Seq<char>, t: Seq<char>, i: int)
    requires
        forall|i: int| 0 <= i < p.len() ==> p[i] != '*' && p[i] != '?',
        0 <= i <= p.len(),
        i <= t.len(),
    ensures
        glob_at(p, t, i, i) <==> p.skip(i) == t.skip(i),
    decreases p.len() - i,
{
    if i < p.len() {
        if i < t.len() {
            lemma_plain(p, t, i + 1);
            assert(p.skip(i) =~= seq![p[i]] + p.skip(i + 1));
            assert(t.skip(i) =~= seq![t[i]] + t.skip(i + 1));
            if p.skip(i) == t.skip(i) {
                assert(p.skip(i)[0] == t.skip(i)[0]);
                assert(p.skip(i).drop_first() =~= p.skip(i + 1));
                assert(t.skip(i).drop_first() =~= t.skip(i + 1));
            }
        } else {
            assert(p.skip(i).len() > 0 && t.skip(i).len() == 0);
        }
    } else {
        assert(p.skip(i).len() == 0);
        if t.len() == i {
            assert(p.skip(i) =~= t.skip(i));
        } else {
            assert(t.skip(i).len() > 0);
        }
    }
}

/// A literal prefix followed by one final `*` matches exactly the texts that
/// start with the prefix.
pub proof fn law_trailing_star_is_prefix(prefix: Seq<char>, t: Seq<char>)
    requires
        forall|i: int| 0 <= i < prefix.len() ==> prefix[i] != '*' && prefix[i] != '?',
    ensures
        glob_spec(prefix.push('*'), t) <==> prefix.len() <= t.len() && t.take(
            prefix.len() as int,
        ) == prefix,
{
    lemma_prefix(prefix, t, 0);
    if prefix.len() <= t.len() {
        if t.take(prefix.len() as int) == prefix {
            assert forall|i: int| 0 <= i < prefix.len() implies t[i] == prefix[i] by {
                assert(t.take(prefix.len() as int)[i] == prefix[i]);
            }
        } else if forall|i: int| 0 <= i < prefix.len() ==> t[i] == prefix[i] {
            assert(t.take(prefix.len() as int) =~= prefix);
        }
    }
}

proof fn lemma_prefix(prefix: Seq<char>, t: Seq<char>, i: int)
    requires
        forall|i: int| 0 <= i < prefix.len() ==> prefix[i] != '*' && prefix[i] != '?',
        0 <= i <= prefix.len(),
        i <= t.len(),
    ensures
        glob_at(prefix.push('*'), t, i, i) <==> prefix.len() <= t.len() && (forall|k: int|
            i <= k < prefix.len() ==> t[k] == prefix[k]),
    decreases prefix.len() - i,
{
    let p = prefix.push('*');
    if i < prefix.len() {
        assert(p[i] == prefix[i]);
        if i < t.len() {
            lemma_prefix(prefix, t, i + 1);
        }
    } else {
        assert(p[i] == '*');
        law_star_is_any_stretch(p, t, i, i);
        assert(glob_at(p, t, i + 1, t.len() as int));
    }
}

proof fn lemma_shift(p: Seq<char>, q: Seq<char>, t: Seq<char>, i: int, k: int, j: int)
    requires
        0 <= i <= q.len(),
        0 <= k <= t.len(),
        0 <= j <= t.len() - k,
    ensures
        glob_at(p + q, t, p.len() + i, k + j) == glob_at(q, t.skip(k), i, j),
    decreases q.len() - i, t.len() - k - j,
{
    let r = p + q;
    let u = t.skip(k);
    if i < q.len() {
        assert(r[p.len() + i] == q[i]);
        if q[i] == '*' {
            lemma_shift(p, q, t, i + 1, k, j);
            if j < u.len() {
                lemma_shift(p, q, t, i, k, j + 1);
            }
        } else if j < u.len() {
            assert(u[j] == t[k + j]);
            lemma_shift(p, q, t, i + 1, k, j + 1);
        }
    }
}

/// The first pattern, from `i` on, matches the text from `j` to `k`, and the second the rest.
spec fn joins_at(p: Seq<char>, q: Seq<char>, t: Seq<char>, i: int, j: int, k: int) -> bool {
    j <= k <= t.len() && glob_at(p, t.take(k), i, j) && glob_at(q, t.skip(k), 0, 0)
}

proof fn lemma_join(p: Seq<char>, q: Seq<char>, t: Seq<char>, i: int, j: int)
    requires
        0 <= i <= p.len(),
        0 <= j <= t.len(),
    ensures
        glob_at(p + q, t, i, j) <==> exists|k: int| #[trigger] joins_at(p, q, t, i, j, k),
    decreases p.len() - i, t.len() - j,
{
    let r = p + q;
    if i == p.len() {
        lemma_shift(p, q, t, 0, j, 0);
        if glob_at(r, t, i, j) {
            assert(joins_at(p, q, t, i, j, j));
        }
        if exists|k: int| #[trigger] joins_at(p, q, t, i, j, k) {
            let k = choose|k: int| #[trigger] joins_at(p, q, t, i, j, k);
            assert(t.take(k).len() == k);
            assert(k == j);
        }
    } else {
        assert(r[i] == p[i]);
        if p[i] == '*' {
            lemma_join(p, q, t, i + 1, j);
            if j < t.len() {
                lemma_join(p, q, t, i, j + 1);
            }
            if glob_at(r, t, i, j) {
                if glob_at(r, t, i + 1, j) {
                    let k = choose|k: int| #[trigger] joins_at(p, q, t, i + 1, j, k);
                    assert(joins_at(p, q, t, i, j, k));
                } else {
                    let k = choose|k: int| #[trigger] joins_at(p, q, t, i, j + 1, k);
                    assert(joins_at(p, q, t, i, j, k));
                }
            }
            if exists|k: int| #[trigger] joins_at(p, q, t, i, j, k) {
                let k = choose|k: int| #[trigger] joins_at(p, q, t, i, j, k);
                if glob_at(p, t.take(k), i + 1, j) {
                    assert(joins_at(p, q, t, i + 1, j, k));
                } else {
                    assert(joins_at(p, q, t, i, j + 1, k));
                }
            }
        } else {
            if j < t.len() {
                lemma_join(p, q, t, i + 1, j + 1);
            }
            if glob_at(r, t, i, j) {
                let k = choose|k: int| #[trigger] joins_at(p, q, t, i + 1, j + 1, k);
                assert(t.take(k)[j] == t[j]);
                assert(joins_at(p, q, t, i, j, k));
            }
            if exists|k: int| #[trigger] joins_at(p, q, t, i, j, k) {
                let k = choose|k: int| #[trigger] joins_at(p, q, t, i, j, k);
                assert(t.take(k)[j] == t[j]);
                assert(joins_at(p, q, t, i + 1, j + 1, k));
            }
        }
    }
}

/// Two patterns one behind the other match the texts that can be cut in two so that each
/// matches its part.
pub proof fn law_patterns_match_one_behind_the_other(p: Seq<char>, q: Seq<char>, t: Seq<char>)
    ensures
        glob_spec(p + q, t) <==> exists|k: int|
            0 <= k <= t.len() && glob_spec(p, #[trigger] t.take(k)) && glob_spec(q, t.skip(k)),
{
    lemma_join(p, q, t, 0, 0);
    if glob_spec(p + q, t) {
        let k = choose|k: int| #[trigger] joins_at(p, q, t, 0, 0, k);
        assert(glob_spec(p, t.take(k)) && glob_spec(q, t.skip(k)));
    }
    if exists|k: int|
        0 <= k <= t.len() && glob_spec(p, #[trigger] t.take(k)) && glob_spec(q, t.skip(k)) {
        let k = choose|k: int|
            0 <= k <= t.len() && glob_spec(p, #[trigger] t.take(k)) && glob_spec(q, t.skip(k));
        assert(joins_at(p, q, t, 0, 0, k));
    }
}

/// By itself `*` matches every text, `?` every text of one character, any other character
/// itself alone, and nothing at all the empty text.
pub proof fn law_single_patterns(c: char, t: Seq<char>)
    ensures
        c == '*' ==> glob_spec(seq![c], t),
        c == '?' ==> (glob_spec(seq![c], t) <==> t.len() == 1),
        c != '*' && c != '?' ==> (glob_spec(seq![c], t) <==> t == seq![c]),
        glob_spec(Seq::empty(), t) <==> t.len() == 0,
{
    let p = seq![c];
    if c == '*' {
        law_star_is_any_stretch(p, t, 0, 0);
        assert(glob_at(p, t, 1, t.len() as int));
    } else {
        reveal_with_fuel(glob_at, 3);
        if c != '?' && t.len() == 1 && t[0] == c {
            assert(t =~= seq![c]);
        }
    }
}

} // verus!
