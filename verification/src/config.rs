//! Server configuration: range expansion, durations and validation.

use vstd::prelude::*;
use vstd::string::*;

use crate::order;
use crate::text;
use crate::time::Duration;

verus! {

/// How the server was asked to run.
#[derive(Debug)]
pub struct Config {
    /// Listen address.
    pub listen: String,
    /// TLS certificate path for the HTTPS listener.
    pub tls_cert: Option<String>,
    /// TLS private key path for the HTTPS listener.
    pub tls_key: Option<String>,
    /// Volume paths (with `{N...M}` range expansion).
    pub volumes: Vec<String>,
    /// Node endpoints for cluster mode (with `{N...M}` range expansion).
    pub nodes: Vec<String>,
    /// Disables authentication.
    pub no_auth: bool,
    /// Scanner loop interval (such as `10m` or `1h`).
    pub scan_interval: String,
    /// Minimum time between integrity checks of an object (such as `24h`).
    pub heal_interval: String,
    /// Number of heal workers.
    pub mrf_workers: usize,
    /// Write tier of local volumes: `file`, `wal`, `log` or `pool`.
    pub write_tier: String,
    /// RAM write cache size in MB. Zero disables the cache.
    pub write_cache: u64,
}

/// What is known of the file system: which paths are files and which are
/// directories.
#[derive(Debug)]
pub struct KnownPaths {
    pub files: Vec<String>,
    pub dirs: Vec<String>,
}

// ---------------------------------------------------------------- durations

/// What a duration text comes to.
pub enum DurationOutcome {
    /// A number is missing or does not fit.
    BadNumber,
    /// A unit is unknown.
    BadUnit,
    /// The sum leaves the range of the seconds counter.
    TooLong,
    /// The sum in seconds.
    Total(nat),
}

/// The seconds that a unit stands for.
pub open spec fn unit_secs(c: char) -> Option<nat> {
    if c == 's' {
        Some(1)
    } else if c == 'm' {
        Some(60)
    } else if c == 'h' {
        Some(3600)
    } else if c == 'd' {
        Some(86400)
    } else {
        None
    }
}

/// How many digits stand at the front, from position `i` on.
pub open spec fn digit_run(s: Seq<char>, i: int) -> int
    decreases s.len() - i,
{
    if 0 <= i < s.len() && text::is_digit(s[i]) {
        digit_run(s, i + 1)
    } else {
        i
    }
}

/// The meaning of a duration text from position `i` on, with `total` seconds before
/// it: numbers with units, and at the end possibly a number of seconds without one.
pub open spec fn duration_from(s: Seq<char>, i: int, total: nat) -> DurationOutcome
    decreases s.len() - i,
    when 0 <= i <= s.len()
    via duration_from_decreases
{
    let k = digit_run(s, i);
    let n = text::digits_value(s.subrange(i, k));
    if i == s.len() {
        DurationOutcome::Total(total)
    } else if k == i || n > u64::MAX {
        DurationOutcome::BadNumber
    } else if k == s.len() {
        if total + n > u64::MAX {
            DurationOutcome::TooLong
        } else {
            DurationOutcome::Total(total + n)
        }
    } else {
        match unit_secs(s[k]) {
            None => DurationOutcome::BadUnit,
            Some(u) => if total + n * u > u64::MAX {
                DurationOutcome::TooLong
            } else {
                duration_from(s, k + 1, total + n * u)
            },
        }
    }
}

#[via_fn]
proof fn duration_from_decreases(s: Seq<char>, i: int, total: nat) {
    lemma_digit_run(s, i);
}

proof fn lemma_digit_run(s: Seq<char>, i: int)
    requires
        0 <= i <= s.len(),
    ensures
        i <= digit_run(s, i) <= s.len(),
        forall|k: int| i <= k < digit_run(s, i) ==> text::is_digit(#[trigger] s[k]),
        digit_run(s, i) < s.len() ==> !text::is_digit(s[digit_run(s, i)]),
    decreases s.len() - i,
{
    if i < s.len() && text::is_digit(s[i]) {
        lemma_digit_run(s, i + 1);
    }
}

/// The meaning of a duration text, white space around it left out.
pub open spec fn duration_outcome(s: Seq<char>) -> DurationOutcome {
    duration_from(text::trimmed(s), 0, 0)
}

/// The duration in seconds, where the text denotes a positive one.
pub open spec fn duration_secs(s: Seq<char>) -> Option<u64> {
    match duration_outcome(s) {
        DurationOutcome::Total(n) => if n > 0 {
            Some(n as u64)
        } else {
            None
        },
        _ => None,
    }
}

/// What the reader makes of a duration text.
enum Reading {
    BadNumber,
    BadUnit,
    TooLong,
    Total(u64),
}

impl Reading {
    spec fn outcome(self) -> DurationOutcome {
        match self {
            Reading::BadNumber => DurationOutcome::BadNumber,
            Reading::BadUnit => DurationOutcome::BadUnit,
            Reading::TooLong => DurationOutcome::TooLong,
            Reading::Total(n) => DurationOutcome::Total(n as nat),
        }
    }
}

fn read_duration(s: &str) -> (r: Reading)
    ensures
        r.outcome() == duration_outcome(s@),
{
    let t = text::trim(s);
    let chars = text::chars_of(t);
    let ghost goal = duration_outcome(s@);
    let mut i: usize = 0;
    let mut total: u64 = 0;
    while i < chars.len()
        invariant
            i <= chars@.len(),
            goal == duration_outcome(s@),
            goal == duration_from(chars@, i as int, total as nat),
        decreases chars@.len() - i,
    {
        let ghost run = digit_run(chars@, i as int);
        proof {
            lemma_digit_run(chars@, i as int);
        }
        let mut k: usize = i;
        while k < chars.len() && text::digit(chars[k])
            invariant
                i <= k <= chars@.len(),
                run == digit_run(chars@, k as int),
            ensures
                i <= k <= chars@.len(),
                run == k,
            decreases chars@.len() - k,
        {
            k = k + 1;
        }
        let ghost run_text = chars@.subrange(i as int, k as int);
        assert forall|j: int| 0 <= j < run_text.len() implies text::is_digit(
            #[trigger] run_text[j],
        ) by {
            assert(run_text[j] == chars@[i + j]);
        }
        let n: u64 = match text::parse_digits(chars.as_slice(), i, k) {
            Some(n) => n,
            None => {
                return Reading::BadNumber;
            },
        };
        if k == chars.len() {
            return match total.checked_add(n) {
                Some(sum) => Reading::Total(sum),
                None => Reading::TooLong,
            };
        }
        let c: char = chars[k];
        let unit: u64 = if c == 's' {
            1
        } else if c == 'm' {
            60
        } else if c == 'h' {
            3600
        } else if c == 'd' {
            86400
        } else {
            return Reading::BadUnit;
        };
        let secs: u64 = match n.checked_mul(unit) {
            Some(v) => v,
            None => {
                return Reading::TooLong;
            },
        };
        total = match total.checked_add(secs) {
            Some(v) => v,
            None => {
                return Reading::TooLong;
            },
        };
        i = k + 1;
    }
    Reading::Total(total)
}

/// Whether the sum of a duration text stays in the range of the seconds counter.
pub fn duration_fits(s: &str) -> (r: bool)
    ensures
        r == !(duration_outcome(s@) is TooLong),
{
    match read_duration(s) {
        Reading::TooLong => false,
        _ => true,
    }
}

/// Reads a simple duration text like `10m`, `24h`, `30s` or `1h30m`. A number
/// without a unit at the end counts seconds.
pub fn parse_duration(s: &str) -> (r: Result<Duration, String>)
    requires
        !(duration_outcome(s@) is TooLong),
    ensures
        r is Ok <==> duration_secs(s@) is Some,
        r matches Ok(d) ==> d.nanos == 0 && duration_secs(s@) == Some(d.secs),
        r matches Err(e) ==> e@ == (if duration_outcome(s@) is BadNumber {
            "invalid number"@
        } else {
            "invalid duration"@
        }),
{
    match read_duration(s) {
        Reading::Total(n) => if n == 0 {
            Err("invalid duration".to_owned())
        } else {
            Ok(Duration::from_secs(n))
        },
        Reading::BadNumber => Err("invalid number".to_owned()),
        _ => Err("invalid duration".to_owned()),
    }
}

// ------------------------------------------------------------------- ranges

/// Where three dots in a row first stand, at or behind position `i`.
pub open spec fn dots_at(s: Seq<char>, i: int) -> Option<int>
    decreases s.len() - i,
{
    if i + 3 > s.len() {
        None
    } else if s[i] == '.' && s[i + 1] == '.' && s[i + 2] == '.' {
        Some(i)
    } else {
        dots_at(s, i + 1)
    }
}

/// An ASCII letter.
pub open spec fn is_letter(c: char) -> bool {
    ('a' <= c <= 'z') || ('A' <= c <= 'Z')
}

/// The numbers from `x` to `y`, upwards or downwards, both included.
pub open spec fn number_labels(x: int, y: int) -> Seq<Seq<char>> {
    if x <= y {
        Seq::new((y - x + 1) as nat, |k: int| text::decimal_int(x + k))
    } else {
        Seq::new((x - y + 1) as nat, |k: int| text::decimal_int(x - k))
    }
}

/// The characters from the smaller to the greater of two letters, both included.
pub open spec fn letter_labels(a: char, b: char) -> Seq<Seq<char>> {
    let lo = if a <= b {
        a as int
    } else {
        b as int
    };
    let hi = if a <= b {
        b as int
    } else {
        a as int
    };
    Seq::new((hi - lo + 1) as nat, |k: int| seq![(lo + k) as char])
}

/// A number that a range can start or end with.
pub open spec fn bound(s: Seq<char>) -> Option<int> {
    text::within(text::integer_value(s), i64::MIN as int, i64::MAX as int)
}

/// What a range with the given ends stands for, where it is a range.
pub open spec fn range_labels(a: Seq<char>, b: Seq<char>) -> Option<Seq<Seq<char>>> {
    if bound(a) is Some && bound(b) is Some {
        Some(number_labels(bound(a)->0, bound(b)->0))
    } else if a.len() == 1 && b.len() == 1 && is_letter(a[0]) && is_letter(b[0]) {
        Some(letter_labels(a[0], b[0]))
    } else {
        None
    }
}

/// The labels of the text between a pair of braces.
pub open spec fn brace_labels(inner: Seq<char>) -> Option<Seq<Seq<char>>> {
    match dots_at(inner, 0) {
        None => None,
        Some(d) => range_labels(inner.take(d), inner.skip(d + 3)),
    }
}

/// Where a brace is closed at or behind position `i`.
pub open spec fn closing(s: Seq<char>, i: int) -> Option<int>
    decreases s.len() - i,
{
    if i < 0 || i >= s.len() {
        None
    } else if s[i] == '}' {
        Some(i)
    } else {
        closing(s, i + 1)
    }
}

/// The brace at `i` opens a range: it is closed, and the text up to there is a range.
pub open spec fn opens_range(s: Seq<char>, i: int) -> bool {
    &&& s[i] == '{'
    &&& closing(s, i) matches Some(c)
    &&& brace_labels(s.subrange(i + 1, c)) is Some
}

/// The first range at or behind position `i`: its opening and its closing brace.
pub open spec fn range_from(s: Seq<char>, i: int) -> Option<(int, int)>
    decreases s.len() - i,
{
    if i < 0 || i >= s.len() {
        None
    } else if opens_range(s, i) {
        Some((i, closing(s, i)->0))
    } else {
        range_from(s, i + 1)
    }
}

/// The first brace pair that is a range.
pub open spec fn first_range(s: Seq<char>) -> Option<(int, int)> {
    range_from(s, 0)
}

/// What the first range of a text stands for.
pub open spec fn first_labels(s: Seq<char>) -> Seq<Seq<char>> {
    match first_range(s) {
        Some((open, close)) => brace_labels(s.subrange(open + 1, close))->0,
        None => Seq::empty(),
    }
}

/// The text with its first range replaced by the `i`-th of what it stands for.
pub open spec fn replaced(s: Seq<char>, i: int) -> Seq<char> {
    match first_range(s) {
        Some((open, close)) => s.take(open) + first_labels(s)[i] + s.skip(close + 1),
        None => s,
    }
}

/// How many opening braces stand in the text.
pub open spec fn braces(s: Seq<char>) -> nat
    decreases s.len(),
{
    if s.len() == 0 {
        0
    } else {
        braces(s.drop_last()) + (if s.last() == '{' {
            1nat
        } else {
            0nat
        })
    }
}

/// All texts that a pattern stands for: those of the pattern with its first range replaced by
/// each label in turn.
pub open spec fn expansion(s: Seq<char>) -> Seq<Seq<char>>
    decreases braces(s), 1nat, 0nat,
{
    if first_range(s) is None {
        seq![s]
    } else {
        spread(s, first_labels(s).len())
    }
}

/// What the pattern stands for with the first `n` labels of its first range.
pub open spec fn spread(s: Seq<char>, n: nat) -> Seq<Seq<char>>
    decreases braces(s), 0nat, n,
{
    if n == 0 || n > first_labels(s).len() {
        Seq::empty()
    } else {
        proof {
            lemma_fewer_braces(s, n - 1);
        }
        spread(s, (n - 1) as nat) + expansion(replaced(s, n - 1))
    }
}

proof fn lemma_closing(s: Seq<char>, i: int)
    requires
        0 <= i,
    ensures
        match closing(s, i) {
            Some(c) => i <= c < s.len() && s[c] == '}' && forall|k: int|
                i <= k < c ==> s[k] != '}',
            None => forall|k: int| i <= k < s.len() ==> s[k] != '}',
        },
    decreases s.len() - i,
{
    if i < s.len() && s[i] != '}' {
        lemma_closing(s, i + 1);
    }
}

proof fn lemma_range_from(s: Seq<char>, i: int)
    requires
        0 <= i,
    ensures
        match range_from(s, i) {
            Some((o, c)) => i <= o < c < s.len() && opens_range(s, o) && closing(s, o) == Some(c)
                && forall|k: int| i <= k < o ==> !opens_range(s, k),
            None => forall|k: int| i <= k < s.len() ==> !opens_range(s, k),
        },
    decreases s.len() - i,
{
    if i < s.len() {
        lemma_closing(s, i);
        if !opens_range(s, i) {
            lemma_range_from(s, i + 1);
        }
    }
}

proof fn lemma_braces_sum(a: Seq<char>, b: Seq<char>)
    ensures
        braces(a + b) == braces(a) + braces(b),
    decreases b.len(),
{
    if b.len() == 0 {
        assert(a + b =~= a);
    } else {
        assert((a + b).drop_last() =~= a + b.drop_last());
        lemma_braces_sum(a, b.drop_last());
    }
}

proof fn lemma_brace_free(s: Seq<char>)
    requires
        brace_free(s),
    ensures
        braces(s) == 0,
    decreases s.len(),
{
    if s.len() > 0 {
        assert(brace_free(s.drop_last())) by {
            assert forall|k: int| 0 <= k < s.len() - 1 implies #[trigger] s.drop_last()[k]
                != '{' by {
                assert(s.drop_last()[k] == s[k]);
            }
        }
        lemma_brace_free(s.drop_last());
    }
}

/// Replacing a range takes a brace away.
pub proof fn lemma_fewer_braces(s: Seq<char>, i: int)
    requires
        0 <= i < first_labels(s).len(),
    ensures
        braces(replaced(s, i)) < braces(s),
{
    lemma_range_from(s, 0);
    let (o, c) = first_range(s)->0;
    let label = first_labels(s)[i];
    lemma_labels_brace_free(s.subrange(o + 1, c), i);
    lemma_brace_free(label);
    let range = s.subrange(o, c + 1);
    assert(s =~= s.take(o) + range + s.skip(c + 1));
    lemma_braces_sum(s.take(o) + range, s.skip(c + 1));
    lemma_braces_sum(s.take(o), range);
    lemma_braces_sum(s.take(o) + label, s.skip(c + 1));
    lemma_braces_sum(s.take(o), label);
    assert(range =~= seq!['{'] + range.skip(1));
    lemma_braces_sum(seq!['{'], range.skip(1));
    assert(seq!['{'].drop_last() =~= Seq::<char>::empty());
    assert(braces(seq!['{']) == 1) by {
        reveal_with_fuel(braces, 2);
    }
}

fn find_dots(chars: &[char], from: usize, to: usize) -> (r: Option<usize>)
    requires
        from <= to <= chars@.len(),
    ensures
        match r {
            None => dots_at(chars@.subrange(from as int, to as int), 0) is None,
            Some(d) => from <= d && d + 3 <= to && dots_at(
                chars@.subrange(from as int, to as int),
                0,
            ) == Some(d - from),
        },
{
    let ghost inner = chars@.subrange(from as int, to as int);
    let mut i: usize = from;
    while i < to && to - i >= 3
        invariant
            from <= i <= to <= chars@.len(),
            inner == chars@.subrange(from as int, to as int),
            dots_at(inner, 0) == dots_at(inner, i - from),
        decreases to - i,
    {
        if chars[i] == '.' && chars[i + 1] == '.' && chars[i + 2] == '.' {
            return Some(i);
        }
        i = i + 1;
    }
    None
}

fn letter(c: char) -> (r: bool)
    ensures
        r == is_letter(c),
{
    ('a' <= c && c <= 'z') || ('A' <= c && c <= 'Z')
}

/// The numbers of a range, in order.
fn list_numbers(start: i64, end: i64) -> (r: Vec<String>)
    ensures
        order::views(r@) == number_labels(start as int, end as int),
{
    let mut out: Vec<String> = Vec::new();
    let ghost goal = number_labels(start as int, end as int);
    let mut i: i64 = start;
    let mut done = false;
    while !done
        invariant
            goal == number_labels(start as int, end as int),
            start <= end ==> start <= i <= end,
            start > end ==> end <= i <= start,
            !done ==> out@.len() == (if start <= end {
                i - start
            } else {
                start - i
            }),
            done ==> out@.len() == goal.len(),
            out@.len() <= goal.len(),
            forall|k: int| 0 <= k < out@.len() ==> (#[trigger] out@[k])@ == goal[k],
        decreases
                (if done {
                    0int
                } else if start <= end {
                    end - i + 1
                } else {
                    i - end + 1
                }),
    {
        out.push(text::decimal_i64(i));
        if i == end {
            done = true;
        } else if start <= end {
            i = i + 1;
        } else {
            i = i - 1;
        }
    }
    assert(order::views(out@) =~= goal);
    out
}

/// The letters of a range, in ascending order.
fn list_letters(a: char, b: char) -> (r: Vec<String>)
    requires
        is_letter(a),
        is_letter(b),
    ensures
        order::views(r@) == letter_labels(a, b),
{
    let lo: u8 = if a <= b {
        a as u8
    } else {
        b as u8
    };
    let hi: u8 = if a <= b {
        b as u8
    } else {
        a as u8
    };
    let mut out: Vec<String> = Vec::new();
    let mut c: u8 = lo;
    while c <= hi
        invariant
            lo <= c <= hi + 1,
            hi < 128,
            out@.len() == c - lo,
            forall|k: int| 0 <= k < out@.len() ==> (#[trigger] out@[k])@ == seq![(lo + k) as char],
        decreases hi + 1 - c,
    {
        let mut one = String::new();
        one.push(c as char);
        assert(one@ =~= seq![(lo + (c - lo)) as char]);
        out.push(one);
        c = c + 1;
    }
    assert(order::views(out@) =~= letter_labels(a, b));
    out
}

/// The labels of a range, where the two ends make one.
fn list_labels(a: &str, b: &str) -> (r: Option<Vec<String>>)
    ensures
        match r {
            None => range_labels(a@, b@) is None,
            Some(v) => range_labels(a@, b@) == Some(order::views(v@)),
        },
{
    if let Some(start) = text::parse_i64(a) {
        if let Some(end) = text::parse_i64(b) {
            return Some(list_numbers(start, end));
        }
    }
    let x = text::chars_of(a);
    let y = text::chars_of(b);
    if x.len() == 1 && y.len() == 1 && letter(x[0]) && letter(y[0]) {
        return Some(list_letters(x[0], y[0]));
    }
    None
}

/// The first brace pair that is a range, with what the range stands for.
fn find_range(chars: &[char]) -> (r: Option<(usize, usize, Vec<String>)>)
    ensures
        match r {
            Some((open, close, labels)) => first_range(chars@) == Some((open as int, close as int))
                && order::views(labels@) == first_labels(chars@),
            None => first_range(chars@) is None,
        },
{
    let n: usize = chars.len();
    let mut open: usize = 0;
    while open < n
        invariant
            open <= n,
            n == chars@.len(),
            first_range(chars@) == range_from(chars@, open as int),
        decreases n - open,
    {
        if chars[open] == '{' {
            if let Some(close) = find_closing(chars, open) {
                let ghost inner = chars@.subrange(open + 1, close as int);
                proof {
                    lemma_closing(chars@, open as int);
                }
                if let Some(dots) = find_dots(chars, open + 1, close) {
                    let first = text::string_of(chars, open + 1, dots);
                    let last = text::string_of(chars, dots + 3, close);
                    proof {
                        let d = dots - (open + 1);
                        assert(first@ =~= inner.take(d));
                        assert(last@ =~= inner.skip(d + 3));
                    }
                    if let Some(labels) = list_labels(first.as_str(), last.as_str()) {
                        assert(opens_range(chars@, open as int));
                        return Some((open, close, labels));
                    }
                }
            }
        }
        open = open + 1;
    }
    None
}

fn find_closing(chars: &[char], from: usize) -> (r: Option<usize>)
    requires
        from <= chars@.len(),
    ensures
        match r {
            Some(c) => closing(chars@, from as int) == Some(c as int),
            None => closing(chars@, from as int) is None,
        },
{
    let mut i: usize = from;
    while i < chars.len()
        invariant
            from <= i <= chars@.len(),
            closing(chars@, from as int) == closing(chars@, i as int),
        decreases chars@.len() - i,
    {
        if chars[i] == '}' {
            return Some(i);
        }
        i = i + 1;
    }
    None
}

/// Expands `{N...M}` ranges in a text, by number or by letter. Several ranges give
/// all combinations; a text without one stands for itself.
pub fn expand_ranges(s: &str) -> (r: Vec<String>)
    ensures
        order::views(r@) == expansion(s@),
    decreases braces(s@),
{
    let chars = text::chars_of(s);
    let n: usize = chars.len();
    let mut out: Vec<String> = Vec::new();
    let (open, close, labels) = match find_range(chars.as_slice()) {
        Some(x) => x,
        None => {
            out.push(s.to_owned());
            assert(order::views(out@) =~= seq![s@]);
            return out;
        },
    };
    proof {
        lemma_range_from(s@, 0);
    }
    let prefix = text::string_of(chars.as_slice(), 0, open);
    let suffix = text::string_of(chars.as_slice(), close + 1, n);
    assert(prefix@ =~= s@.take(open as int));
    assert(suffix@ =~= s@.skip(close + 1));
    let ghost lv = first_labels(s@);
    let mut i: usize = 0;
    assert(order::views(out@) =~= Seq::<Seq<char>>::empty());
    while i < labels.len()
        invariant
            i <= labels@.len(),
            lv == first_labels(s@),
            lv == order::views(labels@),
            first_range(s@) == Some((open as int, close as int)),
            prefix@ == s@.take(open as int),
            suffix@ == s@.skip(close + 1),
            order::views(out@) == spread(s@, i as nat),
        decreases labels@.len() - i,
    {
        let mut item = prefix.clone();
        item.append(labels[i].as_str());
        item.append(suffix.as_str());
        assert(item@ == replaced(s@, i as int));
        proof {
            lemma_fewer_braces(s@, i as int);
        }
        let mut items = expand_ranges(item.as_str());
        let ghost before = order::views(out@);
        let ghost added = order::views(items@);
        out.append(&mut items);
        assert(order::views(out@) =~= before + added);
        i = i + 1;
    }
    out
}

// --------------------------------------------------------------- validation

/// The expansions of the first `n` patterns, one after the other.
pub open spec fn expand_each(patterns: Seq<Seq<char>>, n: nat) -> Seq<Seq<char>>
    decreases n,
{
    if n == 0 {
        Seq::empty()
    } else {
        expand_each(patterns, (n - 1) as nat) + expansion(patterns[n - 1])
    }
}

/// The non-empty texts among the first `n`.
pub open spec fn non_empty(s: Seq<Seq<char>>, n: nat) -> Seq<Seq<char>>
    decreases n,
{
    if n == 0 {
        Seq::empty()
    } else if s[n - 1].len() > 0 {
        non_empty(s, (n - 1) as nat).push(s[n - 1])
    } else {
        non_empty(s, (n - 1) as nat)
    }
}

/// The first of the paths from `i` on that is not a known directory.
pub open spec fn first_missing(paths: Seq<Seq<char>>, dirs: Seq<Seq<char>>, i: int) -> Option<
    Seq<char>,
>
    decreases paths.len() - i,
{
    if i >= paths.len() {
        None
    } else if !dirs.contains(paths[i]) {
        Some(paths[i])
    } else {
        first_missing(paths, dirs, i + 1)
    }
}

/// What is wrong with the TLS paths, if anything.
pub open spec fn tls_error(
    cert: Option<String>,
    key: Option<String>,
    files: Seq<Seq<char>>,
) -> Option<Seq<char>> {
    match (cert, key) {
        (Some(c), Some(k)) => if !files.contains(c@) {
            Some("tls cert path does not exist: "@ + c@)
        } else if !files.contains(k@) {
            Some("tls key path does not exist: "@ + k@)
        } else {
            None
        },
        (None, None) => None,
        _ => Some("both --tls-cert and --tls-key must be provided together"@),
    }
}

/// What is wrong with the paths of a configuration, if anything.
pub open spec fn path_error(c: Config, volumes: Seq<Seq<char>>, known: KnownPaths) -> Option<
    Seq<char>,
> {
    if volumes.len() == 0 {
        Some("no volumes specified"@)
    } else if tls_error(c.tls_cert, c.tls_key, order::views(known.files@)) is Some {
        tls_error(c.tls_cert, c.tls_key, order::views(known.files@))
    } else {
        match first_missing(volumes, order::views(known.dirs@), 0) {
            Some(p) => Some("volume path does not exist: "@ + p),
            None => None,
        }
    }
}

/// A known write tier.
pub open spec fn known_tier(t: Seq<char>) -> bool {
    t == "file"@ || t == "wal"@ || t == "log"@ || t == "pool"@
}

/// What is wrong with a configuration, if anything: the first complaint.
pub open spec fn config_error(c: Config, volumes: Seq<Seq<char>>, known: KnownPaths) -> Option<
    Seq<char>,
> {
    if path_error(c, volumes, known) is Some {
        path_error(c, volumes, known)
    } else if duration_secs(c.scan_interval@) is None {
        Some("invalid scan_interval: "@ + c.scan_interval@)
    } else if duration_secs(c.heal_interval@) is None {
        Some("invalid heal_interval: "@ + c.heal_interval@)
    } else if !known_tier(c.write_tier@) {
        Some("invalid write_tier: "@ + c.write_tier@ + " (expected file|wal|log|pool)"@)
    } else {
        None
    }
}

/// The expansions of a list of patterns.
fn expand_list(patterns: &Vec<String>) -> (r: Vec<String>)
    ensures
        order::views(r@) == expand_each(order::views(patterns@), patterns@.len()),
{
    let mut out: Vec<String> = Vec::new();
    let ghost pv = order::views(patterns@);
    let mut i: usize = 0;
    assert(order::views(out@) =~= Seq::<Seq<char>>::empty());
    while i < patterns.len()
        invariant
            i <= patterns@.len(),
            pv == order::views(patterns@),
            order::views(out@) == expand_each(pv, i as nat),
        decreases patterns@.len() - i,
    {
        let mut items = expand_ranges(patterns[i].as_str());
        let ghost before = order::views(out@);
        let ghost added = order::views(items@);
        out.append(&mut items);
        assert(order::views(out@) =~= before + added);
        i = i + 1;
    }
    out
}

/// The non-empty texts of a list.
fn drop_empty(list: &Vec<String>) -> (r: Vec<String>)
    ensures
        order::views(r@) == non_empty(order::views(list@), list@.len()),
{
    let mut out: Vec<String> = Vec::new();
    let ghost lv = order::views(list@);
    let mut i: usize = 0;
    assert(order::views(out@) =~= Seq::<Seq<char>>::empty());
    while i < list.len()
        invariant
            i <= list@.len(),
            lv == order::views(list@),
            order::views(out@) == non_empty(lv, i as nat),
        decreases list@.len() - i,
    {
        if !list[i].as_str().is_empty() {
            let ghost before = order::views(out@);
            out.push(list[i].clone());
            assert(order::views(out@) =~= before.push(lv[i as int]));
        }
        i = i + 1;
    }
    out
}

fn message(lead: &str, subject: &str) -> (r: String)
    ensures
        r@ == lead@ + subject@,
{
    let mut out = lead.to_owned();
    out.append(subject);
    out
}

impl Config {
    /// The volumes that the configuration asks for.
    pub open spec fn wanted_volumes(&self) -> Seq<Seq<char>> {
        expand_each(order::views(self.volumes@), self.volumes@.len())
    }

    /// The nodes that the configuration asks for.
    pub open spec fn wanted_nodes(&self) -> Seq<Seq<char>> {
        let all = expand_each(order::views(self.nodes@), self.nodes@.len());
        non_empty(all, all.len())
    }

    /// Expands the ranges in the volumes and the nodes, and drops empty nodes.
    pub fn expand(&mut self)
        ensures
            order::views(final(self).volumes@) == old(self).wanted_volumes(),
            order::views(final(self).nodes@) == old(self).wanted_nodes(),
            *final(self) == (Config {
                volumes: final(self).volumes,
                nodes: final(self).nodes,
                ..*old(self)
            }),
    {
        let volumes = expand_list(&self.volumes);
        let nodes = drop_empty(&expand_list(&self.nodes));
        self.volumes = volumes;
        self.nodes = nodes;
    }

    /// Expands the ranges in the volumes and the nodes, then validates: at least one
    /// volume, TLS paths in a pair, every path present, readable durations and a
    /// known write tier.
    pub fn expand_and_validate(&mut self, known: &KnownPaths) -> (r: Result<(), String>)
        requires
            path_error(*old(self), old(self).wanted_volumes(), *known) is None ==> !(
            duration_outcome(old(self).scan_interval@) is TooLong) && (duration_secs(
                old(self).scan_interval@,
            ) is Some ==> !(duration_outcome(old(self).heal_interval@) is TooLong)),
        ensures
            order::views(final(self).volumes@) == old(self).wanted_volumes(),
            order::views(final(self).nodes@) == old(self).wanted_nodes(),
            *final(self) == (Config {
                volumes: final(self).volumes,
                nodes: final(self).nodes,
                ..*old(self)
            }),
            r is Ok <==> config_error(*old(self), old(self).wanted_volumes(), *known) is None,
            r matches Err(e) ==> config_error(*old(self), old(self).wanted_volumes(), *known)
                == Some(e@),
    {
        self.expand();
        self.validate(known)
    }

    fn validate(&self, known: &KnownPaths) -> (r: Result<(), String>)
        requires
            path_error(*self, order::views(self.volumes@), *known) is None ==> !(duration_outcome(
                self.scan_interval@,
            ) is TooLong) && (duration_secs(self.scan_interval@) is Some ==> !(duration_outcome(
                self.heal_interval@,
            ) is TooLong)),
        ensures
            r is Ok <==> config_error(*self, order::views(self.volumes@), *known) is None,
            r matches Err(e) ==> config_error(*self, order::views(self.volumes@), *known) == Some(
                e@,
            ),
    {
        if self.volumes.is_empty() {
            return Err("no volumes specified".to_owned());
        }
        match (&self.tls_cert, &self.tls_key) {
            (Some(cert), Some(key)) => {
                if !order::contains(&known.files, cert.as_str()) {
                    return Err(message("tls cert path does not exist: ", cert.as_str()));
                }
                if !order::contains(&known.files, key.as_str()) {
                    return Err(message("tls key path does not exist: ", key.as_str()));
                }
            },
            (None, None) => {},
            _ => {
                return Err("both --tls-cert and --tls-key must be provided together".to_owned());
            },
        }
        let ghost vv = order::views(self.volumes@);
        let ghost dv = order::views(known.dirs@);
        let mut i: usize = 0;
        while i < self.volumes.len()
            invariant
                i <= self.volumes@.len(),
                vv == order::views(self.volumes@),
                dv == order::views(known.dirs@),
                vv.len() > 0,
                tls_error(self.tls_cert, self.tls_key, order::views(known.files@)) is None,
                first_missing(vv, dv, 0) == first_missing(vv, dv, i as int),
            decreases self.volumes@.len() - i,
        {
            if !order::contains(&known.dirs, self.volumes[i].as_str()) {
                return Err(message("volume path does not exist: ", self.volumes[i].as_str()));
            }
            i = i + 1;
        }
        if parse_duration(self.scan_interval.as_str()).is_err() {
            return Err(message("invalid scan_interval: ", self.scan_interval.as_str()));
        }
        if parse_duration(self.heal_interval.as_str()).is_err() {
            return Err(message("invalid heal_interval: ", self.heal_interval.as_str()));
        }
        let tier = self.write_tier.as_str();
        if !(text::str_eq(tier, "file") || text::str_eq(tier, "wal") || text::str_eq(tier, "log")
            || text::str_eq(tier, "pool")) {
            let mut out = message("invalid write_tier: ", tier);
            out.append(" (expected file|wal|log|pool)");
            return Err(out);
        }
        Ok(())
    }

    /// The volume paths, in order (after `expand_and_validate`).
    pub fn volume_paths(&self) -> (r: Vec<String>)
        ensures
            order::views(r@) == order::views(self.volumes@),
    {
        let mut out: Vec<String> = Vec::new();
        while out.len() < self.volumes.len()
            invariant
                out@.len() <= self.volumes@.len(),
                forall|k: int| 0 <= k < out@.len() ==> (#[trigger] out@[k])@ == self.volumes@[k]@,
            decreases self.volumes@.len() - out@.len(),
        {
            out.push(self.volumes[out.len()].clone());
        }
        assert(order::views(out@) =~= order::views(self.volumes@));
        out
    }

    /// The scanner loop interval, ten minutes where the text is not a duration.
    pub fn scan_interval_duration(&self) -> (r: Duration)
        requires
            !(duration_outcome(self.scan_interval@) is TooLong),
        ensures
            r.nanos == 0,
            r.secs == (match duration_secs(self.scan_interval@) {
                Some(n) => n,
                None => 600,
            }),
    {
        match parse_duration(self.scan_interval.as_str()) {
            Ok(d) => d,
            Err(_) => Duration::from_secs(600),
        }
    }

    /// The heal interval, a day where the text is not a duration.
    pub fn heal_interval_duration(&self) -> (r: Duration)
        requires
            !(duration_outcome(self.heal_interval@) is TooLong),
        ensures
            r.nanos == 0,
            r.secs == (match duration_secs(self.heal_interval@) {
                Some(n) => n,
                None => 86400,
            }),
    {
        match parse_duration(self.heal_interval.as_str()) {
            Ok(d) => d,
            Err(_) => Duration::from_secs(86400),
        }
    }
}

// --------------------------------------------------------------------- laws

/// A text without an opening brace stands for itself alone.
pub proof fn law_no_brace_is_unchanged(s: Seq<char>)
    requires
        brace_free(s),
    ensures
        expansion(s) == seq![s],
{
    lemma_range_from(s, 0);
}

proof fn lemma_variants(s: Seq<char>, n: nat)
    requires
        n <= first_labels(s).len(),
    ensures
        spread(s, n) == expand_each(variants(s), n),
    decreases n,
{
    if n > 0 {
        lemma_variants(s, (n - 1) as nat);
    }
}

/// The pattern with its first range replaced by each of its labels, in order.
pub open spec fn variants(s: Seq<char>) -> Seq<Seq<char>> {
    Seq::new(first_labels(s).len(), |i: int| replaced(s, i))
}

/// A pattern with a range expands to what it expands to with each label of its first range in
/// place of the range, one after the other.
pub proof fn law_range_is_a_concatenation(s: Seq<char>)
    requires
        first_range(s) is Some,
    ensures
        expansion(s) == expand_each(variants(s), variants(s).len()),
{
    lemma_variants(s, first_labels(s).len());
}

/// A text with a range of numbers in it.
pub open spec fn number_pattern(p: Seq<char>, a: i64, b: i64, q: Seq<char>) -> Seq<char> {
    p + seq!['{'] + text::decimal_int(a as int) + seq!['.', '.', '.'] + text::decimal_int(b as int)
        + seq!['}'] + q
}

proof fn lemma_decimal_int(v: int)
    ensures
        text::integer_value(text::decimal_int(v)) == Some(v),
        text::decimal_int(v).len() > 0,
        forall|k: int|
            0 <= k < text::decimal_int(v).len() ==> #[trigger] text::decimal_int(v)[k] == '-'
                || text::is_digit(text::decimal_int(v)[k]),
{
    let s = text::decimal_int(v);
    reveal_strlit("-");
    if v < 0 {
        let w = text::decimal((-v) as nat);
        text::lemma_decimal_value((-v) as nat);
        assert(s.skip(1) =~= w);
        assert forall|k: int| 0 <= k < s.len() implies #[trigger] s[k] == '-' || text::is_digit(
            s[k],
        ) by {
            if k > 0 {
                assert(s[k] == w[k - 1]);
            }
        }
    } else {
        text::lemma_decimal_value(v as nat);
        assert(text::is_digit(s[0]));
    }
}

proof fn lemma_dots_at(s: Seq<char>, i: int, d: int)
    requires
        0 <= i <= d,
        d + 3 <= s.len(),
        s[d] == '.' && s[d + 1] == '.' && s[d + 2] == '.',
        forall|k: int| i <= k < d ==> #[trigger] s[k] != '.',
    ensures
        dots_at(s, i) == Some(d),
    decreases d - i,
{
    if i < d {
        lemma_dots_at(s, i + 1, d);
    }
}

proof fn lemma_closing_at(s: Seq<char>, i: int, c: int)
    requires
        0 <= i <= c < s.len(),
        s[c] == '}',
        forall|k: int| i <= k < c ==> #[trigger] s[k] != '}',
    ensures
        closing(s, i) == Some(c),
    decreases c - i,
{
    if i < c {
        lemma_closing_at(s, i + 1, c);
    }
}

proof fn lemma_range_at(s: Seq<char>, i: int, o: int)
    requires
        0 <= i <= o < s.len(),
        opens_range(s, o),
        forall|k: int| i <= k < o ==> !opens_range(s, k),
    ensures
        range_from(s, i) == Some((o, closing(s, o)->0)),
    decreases o - i,
{
    if i < o {
        assert(!opens_range(s, i));
        lemma_range_at(s, i + 1, o);
    }
}

/// A range of numbers behind a text without an opening brace expands, in order, to what the
/// text expands to with each of the numbers in its place, counting down where the first is
/// the greater.
pub proof fn law_numbers_are_counted_through(p: Seq<char>, a: i64, b: i64, q: Seq<char>)
    requires
        brace_free(p),
    ensures
        ({
            let labels = number_labels(a as int, b as int);
            expansion(number_pattern(p, a, b, q)) == expand_each(
                Seq::new(labels.len(), |i: int| p + labels[i] + q),
                labels.len(),
            )
        }),
{
    let x = text::decimal_int(a as int);
    let y = text::decimal_int(b as int);
    let dots = seq!['.', '.', '.'];
    let s = number_pattern(p, a, b, q);
    let inner = x + dots + y;
    lemma_decimal_int(a as int);
    lemma_decimal_int(b as int);
    let o = p.len() as int;
    let c = o + 1 + inner.len();
    assert(s =~= p + (seq!['{'] + inner + seq!['}'] + q));
    assert(s[o] == '{');
    assert(s[c] == '}');
    assert(s.subrange(o + 1, c) =~= inner);
    assert forall|k: int| 0 <= k < inner.len() implies #[trigger] inner[k] != '}' by {
        if k < x.len() {
            assert(inner[k] == x[k]);
        } else if k < x.len() + 3 {
            assert(inner[k] == dots[k - x.len()]);
        } else {
            assert(inner[k] == y[k - x.len() - 3]);
        }
    }
    assert forall|k: int| o <= k < c implies #[trigger] s[k] != '}' by {
        if k > o {
            assert(s[k] == inner[k - o - 1]);
        }
    }
    lemma_closing_at(s, o, c);
    assert forall|k: int| 0 <= k < x.len() implies #[trigger] inner[k] != '.' by {
        assert(inner[k] == x[k]);
    }
    let d = x.len() as int;
    assert(inner[d] == dots[0]);
    assert(inner[d + 1] == dots[1]);
    assert(inner[d + 2] == dots[2]);
    lemma_dots_at(inner, 0, d);
    assert(inner.take(d) =~= x);
    assert(inner.skip(d + 3) =~= y);
    assert(brace_labels(inner) == Some(number_labels(a as int, b as int)));
    assert(opens_range(s, o));
    assert forall|k: int| 0 <= k < o implies !opens_range(s, k) by {
        assert(s[k] == p[k]);
    }
    lemma_range_at(s, 0, o);
    law_range_is_a_concatenation(s);
    assert(s.take(o) =~= p);
    assert(s.skip(c + 1) =~= q);
    let labels = number_labels(a as int, b as int);
    assert(variants(s) =~= Seq::new(labels.len(), |i: int| p + labels[i] + q));
}

/// `prefix + label + tail` for the first `n` labels, each with every tail.
pub open spec fn combinations(
    prefix: Seq<char>,
    labels: Seq<Seq<char>>,
    n: nat,
    tails: Seq<Seq<char>>,
) -> Seq<Seq<char>>
    decreases n,
{
    if n == 0 {
        Seq::empty()
    } else {
        combinations(prefix, labels, (n - 1) as nat, tails) + Seq::new(
            tails.len(),
            |j: int| prefix + labels[n - 1] + tails[j],
        )
    }
}

/// `t` is made of the prefix, one of the first `n` labels and a tail.
pub open spec fn is_combination(
    prefix: Seq<char>,
    labels: Seq<Seq<char>>,
    n: nat,
    tails: Seq<Seq<char>>,
    t: Seq<char>,
) -> bool {
    exists|i: int, j: int|
        0 <= i < n && 0 <= j < tails.len() && t == #[trigger] (prefix + labels[i] + tails[j])
}

proof fn lemma_combinations(
    prefix: Seq<char>,
    labels: Seq<Seq<char>>,
    n: nat,
    tails: Seq<Seq<char>>,
)
    requires
        n <= labels.len(),
    ensures
        combinations(prefix, labels, n, tails).len() == n * tails.len(),
        forall|t: Seq<char>| #[trigger]
            combinations(prefix, labels, n, tails).contains(t) <==> is_combination(
                prefix,
                labels,
                n,
                tails,
                t,
            ),
    decreases n,
{
    if n > 0 {
        let m = (n - 1) as nat;
        lemma_combinations(prefix, labels, m, tails);
        let before = combinations(prefix, labels, m, tails);
        let row = Seq::new(tails.len(), |j: int| prefix + labels[n - 1] + tails[j]);
        let all = combinations(prefix, labels, n, tails);
        assert(all == before + row);
        assert(m * tails.len() + tails.len() == n * tails.len()) by (nonlinear_arith)
            requires
                m == n - 1,
        ;
        assert forall|t: Seq<char>| #[trigger] all.contains(t) <==> is_combination(
            prefix,
            labels,
            n,
            tails,
            t,
        ) by {
            if is_combination(prefix, labels, n, tails, t) {
                let (i, j) = choose|i: int, j: int|
                    0 <= i < n && 0 <= j < tails.len() && t == #[trigger] (prefix + labels[i]
                        + tails[j]);
                if i < m {
                    assert(is_combination(prefix, labels, m, tails, t));
                    assert(before.contains(t));
                    let k = choose|k: int| 0 <= k < before.len() && before[k] == t;
                    assert(all[k] == t);
                } else {
                    assert(all[before.len() + j] == row[j]);
                }
            }
            if all.contains(t) {
                let k = choose|k: int| 0 <= k < all.len() && all[k] == t;
                if k < before.len() {
                    assert(before[k] == t);
                    assert(before.contains(t));
                    let (i, j) = choose|i: int, j: int|
                        0 <= i < m && 0 <= j < tails.len() && t == #[trigger] (prefix + labels[i]
                            + tails[j]);
                    assert(t == prefix + labels[i] + tails[j]);
                } else {
                    let j = k - before.len();
                    assert(t == prefix + labels[n - 1] + tails[j]);
                }
            }
        }
    }
}

/// No opening brace stands in the text.
pub open spec fn brace_free(s: Seq<char>) -> bool {
    forall|i: int| 0 <= i < s.len() ==> #[trigger] s[i] != '{'
}

/// Every brace that is opened in the text is closed in it, and none opens a range.
pub open spec fn settled(s: Seq<char>) -> bool {
    forall|i: int|
        0 <= i < s.len() && #[trigger] s[i] == '{' ==> closing(s, i) is Some && !opens_range(s, i)
}

/// Every text of a list, behind the same lead.
pub open spec fn with_lead(lead: Seq<char>, list: Seq<Seq<char>>) -> Seq<Seq<char>> {
    Seq::new(list.len(), |i: int| lead + list[i])
}

/// A brace that is closed in a lead is closed there whatever follows.
proof fn lemma_closed_in_lead(lead: Seq<char>, s: Seq<char>, i: int)
    requires
        0 <= i < lead.len(),
        closing(lead, i) is Some,
    ensures
        closing(lead + s, i) == closing(lead, i),
        opens_range(lead + s, i) == opens_range(lead, i),
{
    lemma_closing(lead, i);
    let c = closing(lead, i)->0;
    let t = lead + s;
    assert forall|k: int| i <= k < c implies #[trigger] t[k] != '}' by {
        assert(t[k] == lead[k]);
    }
    lemma_closing_at(t, i, c);
    if lead[i] == '{' {
        assert(t.subrange(i + 1, c) =~= lead.subrange(i + 1, c));
    }
}

/// A brace behind a lead is closed where it is closed without the lead.
proof fn lemma_closed_behind_lead(lead: Seq<char>, s: Seq<char>, i: int)
    requires
        0 <= i < s.len(),
    ensures
        closing(lead + s, lead.len() + i) == (match closing(s, i) {
            Some(c) => Some(lead.len() + c),
            None => None,
        }),
        opens_range(lead + s, lead.len() + i) == opens_range(s, i),
{
    let t = lead + s;
    let n = lead.len() as int;
    lemma_closing(s, i);
    lemma_closing(t, n + i);
    match closing(s, i) {
        Some(c) => {
            assert forall|k: int| n + i <= k < n + c implies #[trigger] t[k] != '}' by {
                assert(t[k] == s[k - n]);
            }
            lemma_closing_at(t, n + i, n + c);
            if s[i] == '{' {
                assert(t.subrange(n + i + 1, n + c) =~= s.subrange(i + 1, c));
            }
        },
        None => {
            if closing(t, n + i) is Some {
                let c = closing(t, n + i)->0;
                assert(t[c] == s[c - n]);
            }
        },
    }
}

/// A settled lead has no part in the first range.
proof fn lemma_first_range_lead(lead: Seq<char>, s: Seq<char>)
    requires
        settled(lead),
    ensures
        first_range(lead + s) == (match first_range(s) {
            Some((o, c)) => Some((lead.len() + o, lead.len() + c)),
            None => None,
        }),
        first_labels(lead + s) == first_labels(s),
        forall|i: int|
            0 <= i < first_labels(s).len() ==> #[trigger] replaced(lead + s, i) == lead + replaced(
                s,
                i,
            ),
{
    let t = lead + s;
    let n = lead.len() as int;
    lemma_range_from(s, 0);
    lemma_range_from(t, 0);
    assert forall|k: int| 0 <= k < n implies !opens_range(t, k) by {
        assert(t[k] == lead[k]);
        if lead[k] == '{' {
            lemma_closed_in_lead(lead, s, k);
        }
    }
    match first_range(s) {
        Some((o, c)) => {
            lemma_closed_behind_lead(lead, s, o);
            assert forall|k: int| 0 <= k < n + o implies !opens_range(t, k) by {
                if k >= n {
                    lemma_closed_behind_lead(lead, s, k - n);
                    assert(!opens_range(s, k - n));
                }
            }
            lemma_range_at(t, 0, n + o);
            assert(t.subrange(n + o + 1, n + c) =~= s.subrange(o + 1, c));
            assert forall|i: int| 0 <= i < first_labels(s).len() implies #[trigger] replaced(t, i)
                == lead + replaced(s, i) by {
                assert(t.take(n + o) =~= lead + s.take(o));
                assert(t.skip(n + c + 1) =~= s.skip(c + 1));
                assert(replaced(t, i) =~= lead + replaced(s, i));
            }
        },
        None => {
            if first_range(t) is Some {
                let (o, c) = first_range(t)->0;
                assert(o >= n) by {
                    assert(opens_range(t, o));
                }
                lemma_closed_behind_lead(lead, s, o - n);
                assert(opens_range(s, o - n));
            }
        },
    }
}

/// A settled lead takes no part in the expansion.
proof fn lemma_expansion_lead(lead: Seq<char>, s: Seq<char>)
    requires
        settled(lead),
    ensures
        expansion(lead + s) == with_lead(lead, expansion(s)),
    decreases braces(s), 1nat, 0nat,
{
    lemma_first_range_lead(lead, s);
    if first_range(s) is Some {
        lemma_spread_lead(lead, s, first_labels(s).len());
    } else {
        assert(expansion(lead + s) =~= with_lead(lead, expansion(s)));
    }
}

proof fn lemma_spread_lead(lead: Seq<char>, s: Seq<char>, n: nat)
    requires
        settled(lead),
        n <= first_labels(s).len(),
    ensures
        spread(lead + s, n) == with_lead(lead, spread(s, n)),
    decreases braces(s), 0nat, n,
{
    lemma_first_range_lead(lead, s);
    if n > 0 {
        lemma_spread_lead(lead, s, (n - 1) as nat);
        lemma_fewer_braces(s, n - 1);
        let rest = replaced(s, n - 1);
        assert(replaced(lead + s, n - 1) == lead + rest);
        lemma_expansion_lead(lead, rest);
        let a = spread(s, (n - 1) as nat);
        let b = expansion(rest);
        assert(with_lead(lead, a + b) =~= with_lead(lead, a) + with_lead(lead, b));
    }
    assert(spread(lead + s, n) =~= with_lead(lead, spread(s, n)));
}

proof fn lemma_settled_sum(a: Seq<char>, b: Seq<char>)
    requires
        settled(a),
        brace_free(b),
    ensures
        settled(a + b),
{
    let t = a + b;
    assert forall|i: int| 0 <= i < t.len() && #[trigger] t[i] == '{' implies closing(t, i) is Some
        && !opens_range(t, i) by {
        if i < a.len() {
            assert(t[i] == a[i]);
            lemma_closed_in_lead(a, b, i);
        } else {
            assert(t[i] == b[i - a.len()]);
        }
    }
}

proof fn lemma_spread_combines(s: Seq<char>, n: nat)
    requires
        first_range(s) is Some,
        settled(s.take((first_range(s)->0).0)),
        n <= first_labels(s).len(),
    ensures
        ({
            let (open, close) = first_range(s)->0;
            spread(s, n) == combinations(
                s.take(open),
                first_labels(s),
                n,
                expansion(s.skip(close + 1)),
            )
        }),
    decreases n,
{
    if n > 0 {
        lemma_spread_combines(s, (n - 1) as nat);
        lemma_range_from(s, 0);
        let (o, c) = first_range(s)->0;
        let label = first_labels(s)[n - 1];
        let tails = expansion(s.skip(c + 1));
        lemma_labels_brace_free(s.subrange(o + 1, c), n - 1);
        lemma_settled_sum(s.take(o), label);
        lemma_expansion_lead(s.take(o) + label, s.skip(c + 1));
        let row = Seq::new(tails.len(), |j: int| s.take(o) + label + tails[j]);
        assert(with_lead(s.take(o) + label, tails) =~= row);
    }
}

/// A pattern whose first range has no brace left open before it stands for every combination
/// of a label of that range with a text that the rest stands for, and for nothing else.
pub proof fn law_ranges_give_all_combinations(s: Seq<char>, open: int, close: int, t: Seq<char>)
    requires
        first_range(s) == Some((open, close)),
        settled(s.take(open)),
    ensures
        ({
            let labels = first_labels(s);
            let tails = expansion(s.skip(close + 1));
            &&& expansion(s).len() == labels.len() * tails.len()
            &&& expansion(s).contains(t) <==> is_combination(
                s.take(open),
                labels,
                labels.len(),
                tails,
                t,
            )
        }),
{
    let labels = first_labels(s);
    lemma_spread_combines(s, labels.len());
    lemma_combinations(s.take(open), labels, labels.len(), expansion(s.skip(close + 1)));
}

proof fn lemma_labels_brace_free(inner: Seq<char>, i: int)
    requires
        brace_labels(inner) is Some,
        0 <= i < brace_labels(inner)->0.len(),
    ensures
        brace_free(brace_labels(inner)->0[i]),
{
    let d = dots_at(inner, 0)->0;
    let a = inner.take(d);
    let b = inner.skip(d + 3);
    if bound(a) is Some && bound(b) is Some {
        let x = bound(a)->0;
        let y = bound(b)->0;
        let v = if x <= y {
            x + i
        } else {
            x - i
        };
        reveal_strlit("-");
        if v < 0 {
            text::lemma_decimal_digits((-v) as nat);
            let w = text::decimal((-v) as nat);
            assert forall|k: int| 0 <= k < ("-"@ + w).len() implies #[trigger] ("-"@ + w)[k]
                != '{' by {
                if k > 0 {
                    assert(("-"@ + w)[k] == w[k - 1]);
                }
            }
        } else {
            text::lemma_decimal_digits(v as nat);
        }
    }
}

/// Expansion leaves no range behind.
proof fn lemma_final(s: Seq<char>, t: Seq<char>)
    requires
        expansion(s).contains(t),
    ensures
        first_range(t) is None,
    decreases braces(s), 1nat, 0nat,
{
    if first_range(s) is None {
        assert(t == s);
    } else {
        lemma_spread_final(s, first_labels(s).len(), t);
    }
}

proof fn lemma_spread_final(s: Seq<char>, n: nat, t: Seq<char>)
    requires
        n <= first_labels(s).len(),
        spread(s, n).contains(t),
    ensures
        first_range(t) is None,
    decreases braces(s), 0nat, n,
{
    if n > 0 {
        lemma_fewer_braces(s, n - 1);
        let before = spread(s, (n - 1) as nat);
        let last = expansion(replaced(s, n - 1));
        let k = choose|k: int| 0 <= k < spread(s, n).len() && spread(s, n)[k] == t;
        if k < before.len() {
            assert(before[k] == t);
            lemma_spread_final(s, (n - 1) as nat, t);
        } else {
            assert(last[k - before.len()] == t);
            lemma_final(replaced(s, n - 1), t);
        }
    }
}

/// Expansion is done in one step: what it gives stands for itself alone.
pub proof fn law_expansion_is_final(s: Seq<char>, t: Seq<char>)
    requires
        expansion(s).contains(t),
    ensures
        expansion(t) == seq![t],
{
    lemma_final(s, t);
}

/// Every text of the list stands for itself alone.
spec fn all_final(list: Seq<Seq<char>>) -> bool {
    forall|i: int| 0 <= i < list.len() ==> expansion(#[trigger] list[i]) == seq![list[i]]
}

proof fn lemma_each_final(patterns: Seq<Seq<char>>, n: nat)
    requires
        n <= patterns.len(),
    ensures
        all_final(expand_each(patterns, n)),
    decreases n,
{
    if n > 0 {
        lemma_each_final(patterns, (n - 1) as nat);
        let before = expand_each(patterns, (n - 1) as nat);
        let last = expansion(patterns[n - 1]);
        let all = expand_each(patterns, n);
        assert forall|i: int| 0 <= i < all.len() implies expansion(#[trigger] all[i])
            == seq![all[i]] by {
            if i < before.len() {
                assert(all[i] == before[i]);
            } else {
                assert(all[i] == last[i - before.len()]);
                assert(last.contains(all[i]));
                law_expansion_is_final(patterns[n - 1], all[i]);
            }
        }
    }
}

proof fn lemma_final_stay(list: Seq<Seq<char>>, n: nat)
    requires
        n <= list.len(),
        all_final(list),
    ensures
        expand_each(list, n) == list.take(n as int),
    decreases n,
{
    if n > 0 {
        lemma_final_stay(list, (n - 1) as nat);
        assert(expansion(list[n - 1]) == seq![list[n - 1]]);
        assert(list.take(n as int) =~= list.take(n - 1) + seq![list[n - 1]]);
    } else {
        assert(list.take(0) =~= Seq::empty());
    }
}

proof fn lemma_non_empty(list: Seq<Seq<char>>, n: nat)
    requires
        n <= list.len(),
    ensures
        non_empty(list, n).len() <= n,
        forall|i: int|
            0 <= i < non_empty(list, n).len() ==> (#[trigger] non_empty(list, n)[i]).len() > 0
                && list.contains(non_empty(list, n)[i]),
    decreases n,
{
    if n > 0 {
        lemma_non_empty(list, (n - 1) as nat);
        assert(list.contains(list[n - 1]));
    }
}

proof fn lemma_non_empty_stay(list: Seq<Seq<char>>, n: nat)
    requires
        n <= list.len(),
        forall|i: int| 0 <= i < list.len() ==> (#[trigger] list[i]).len() > 0,
    ensures
        non_empty(list, n) == list.take(n as int),
    decreases n,
{
    if n > 0 {
        lemma_non_empty_stay(list, (n - 1) as nat);
        assert(list.take(n as int) =~= list.take(n - 1).push(list[n - 1]));
    } else {
        assert(list.take(0) =~= Seq::empty());
    }
}

/// Expanding and validating a configuration that was expanded before changes nothing and
/// comes to the same result.
pub proof fn law_second_validation_changes_nothing(before: Config, after: Config, known: KnownPaths)
    requires
        order::views(after.volumes@) == before.wanted_volumes(),
        order::views(after.nodes@) == before.wanted_nodes(),
        after == (Config { volumes: after.volumes, nodes: after.nodes, ..before }),
    ensures
        after.wanted_volumes() == order::views(after.volumes@),
        after.wanted_nodes() == order::views(after.nodes@),
        config_error(after, after.wanted_volumes(), known) == config_error(
            before,
            before.wanted_volumes(),
            known,
        ),
{
    let v = order::views(after.volumes@);
    lemma_each_final(order::views(before.volumes@), before.volumes@.len());
    lemma_final_stay(v, v.len());
    assert(v.take(v.len() as int) =~= v);
    let all = expand_each(order::views(before.nodes@), before.nodes@.len());
    let n = order::views(after.nodes@);
    lemma_each_final(order::views(before.nodes@), before.nodes@.len());
    lemma_non_empty(all, all.len());
    assert(all_final(n)) by {
        assert forall|i: int| 0 <= i < n.len() implies expansion(#[trigger] n[i]) == seq![
            n[i],
        ] by {
            assert(all.contains(n[i]));
            let k = choose|k: int| 0 <= k < all.len() && all[k] == n[i];
            assert(expansion(all[k]) == seq![all[k]]);
        }
    }
    lemma_final_stay(n, n.len());
    assert(n.take(n.len() as int) =~= n);
    lemma_non_empty_stay(n, n.len());
}

} // verus!
