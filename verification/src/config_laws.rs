//! What holds of durations, ranges and the check of a configuration.

use vstd::prelude::*;
use vstd::string::*;

use crate::config;
use crate::config::{Config, KnownPaths};
use crate::order;
use crate::text;
use crate::text_laws;

verus! {

// ----------------------------------------------------------------- durations

/// The character is a unit of so many seconds.
pub open spec fn is_unit(c: char, secs: nat) -> bool {
    ||| c == 's' && secs == 1
    ||| c == 'm' && secs == 60
    ||| c == 'h' && secs == 60 * 60
    ||| c == 'd' && secs == 24 * 60 * 60
}

proof fn lemma_run(lead: Seq<char>, digits: Seq<char>, tail: Seq<char>, i: int)
    requires
        text::all_digits(digits),
        tail.len() == 0 || !text::is_digit(tail[0]),
        lead.len() <= i <= lead.len() + digits.len(),
    ensures
        config::digit_run(lead + digits + tail, i) == lead.len() + digits.len(),
    decreases lead.len() + digits.len() - i,
{
    let s = lead + digits + tail;
    if i < lead.len() + digits.len() {
        assert(s[i] == digits[i - lead.len()]);
        lemma_run(lead, digits, tail, i + 1);
    } else if tail.len() > 0 {
        assert(s[i] == tail[0]);
    }
}

/// A number with a unit adds so many seconds, and the rest of the text is read behind it.
proof fn lemma_step(lead: Seq<char>, n: u64, c: char, secs: nat, tail: Seq<char>, total: nat)
    requires
        is_unit(c, secs),
        total + n as nat * secs <= u64::MAX,
    ensures
        config::duration_from(
            lead + text::decimal(n as nat) + seq![c] + tail,
            lead.len() as int,
            total,
        ) == config::duration_from(
            lead + text::decimal(n as nat) + seq![c] + tail,
            lead.len() as int + text::decimal(n as nat).len() + 1,
            total + n as nat * secs,
        ),
{
    let d = text::decimal(n as nat);
    let s = lead + d + seq![c] + tail;
    text::lemma_decimal_digits(n as nat);
    text::lemma_decimal_value(n as nat);
    assert(s =~= lead + d + (seq![c] + tail));
    assert((seq![c] + tail)[0] == c);
    lemma_run(lead, d, seq![c] + tail, lead.len() as int);
    let k = lead.len() as int + d.len();
    assert(s.subrange(lead.len() as int, k) =~= d);
    assert(s[k] == c);
}

/// A duration is a number and its unit: seconds, minutes, hours or days.
pub proof fn law_duration_counts_its_unit(n: u64, c: char, secs: nat)
    requires
        is_unit(c, secs),
        0 < n * secs <= u64::MAX,
    ensures
        config::duration_secs(text::decimal(n as nat) + seq![c]) == Some((n * secs) as u64),
{
    let none = Seq::<char>::empty();
    let d = text::decimal(n as nat);
    let s = d + seq![c];
    assert(none + d + seq![c] + none =~= s);
    lemma_tight(n, s);
    lemma_step(none, n, c, secs, none, 0);
}

/// A text that begins with a number and ends with a unit is free of white space at its ends.
proof fn lemma_tight(n: u64, s: Seq<char>)
    requires
        s.len() > 0,
        s[0] == text::decimal(n as nat)[0],
        '!' <= s[s.len() - 1] <= '~',
    ensures
        text::trimmed(s) == s,
{
    let none = Seq::<char>::empty();
    text::lemma_decimal_digits(n as nat);
    assert(text::is_digit(text::decimal(n as nat)[0]));
    text_laws::law_blanks_are_cut_off(none, s, none);
    assert(none + s + none =~= s);
}

/// Numbers with units add up.
pub proof fn law_durations_add_up(a: u64, c: char, p: nat, b: u64, d: char, q: nat)
    requires
        is_unit(c, p),
        is_unit(d, q),
        0 < a * p + b * q <= u64::MAX,
    ensures
        config::duration_secs(
            text::decimal(a as nat) + seq![c] + text::decimal(b as nat) + seq![d],
        ) == Some((a * p + b * q) as u64),
{
    let none = Seq::<char>::empty();
    let x = text::decimal(a as nat);
    let y = text::decimal(b as nat);
    let s = x + seq![c] + y + seq![d];
    assert(a * p >= 0 && b * q >= 0) by (nonlinear_arith);
    assert(none + x + seq![c] + (y + seq![d]) =~= s);
    assert((x + seq![c]) + y + seq![d] + none =~= s);
    text::lemma_decimal_digits(a as nat);
    assert(s[0] == x[0]);
    lemma_tight(a, s);
    lemma_step(none, a, c, p, y + seq![d], 0);
    lemma_step(x + seq![c], b, d, q, none, a as nat * p);
    assert((x + seq![c]).len() == x.len() + 1);
}

/// A number without a unit is one of seconds.
pub proof fn law_bare_number_is_of_seconds(n: u64)
    requires
        n > 0,
    ensures
        config::duration_secs(text::decimal(n as nat)) == Some(n),
{
    let none = Seq::<char>::empty();
    let d = text::decimal(n as nat);
    text::lemma_decimal_digits(n as nat);
    text::lemma_decimal_value(n as nat);
    assert(text::is_digit(d[d.len() - 1]));
    lemma_tight(n, d);
    assert(none + d + none =~= d);
    lemma_run(none, d, none, 0);
    assert(d.subrange(0, d.len() as int) =~= d);
}

/// A text that does not begin with a number is no duration, nor is a number with another sign
/// behind it.
pub proof fn law_other_texts_are_no_durations(s: Seq<char>, n: u64, c: char)
    requires
        text_laws::tight(s),
        s.len() > 0,
        !text::is_digit(s[0]),
        '!' <= c <= '~',
        !text::is_digit(c),
        c != 's' && c != 'm' && c != 'h' && c != 'd',
    ensures
        config::duration_secs(s) is None,
        config::duration_secs(text::decimal(n as nat) + seq![c]) is None,
        config::duration_secs(Seq::empty()) is None,
{
    let none = Seq::<char>::empty();
    text_laws::law_blanks_are_cut_off(none, s, none);
    assert(none + s + none =~= s);
    text_laws::law_blanks_are_cut_off(none, none, none);
    assert(none + none + none =~= none);
    let d = text::decimal(n as nat);
    let t = d + seq![c];
    text::lemma_decimal_digits(n as nat);
    text::lemma_decimal_value(n as nat);
    assert(t[0] == d[0]);
    lemma_tight(n, t);
    assert(none + d + seq![c] =~= t);
    lemma_run(none, d, seq![c], 0);
    assert(t.subrange(0, d.len() as int) =~= d);
    assert(t[d.len() as int] == c);
}

// -------------------------------------------------------------------- ranges

/// A range of letters counts through from the smaller to the greater, whichever stands first.
pub proof fn law_letters_are_counted_through(a: char, b: char, k: int)
    requires
        config::is_letter(a),
        config::is_letter(b),
        a <= b,
        0 <= k <= b as int - a as int,
    ensures
        config::letter_labels(a, b).len() == b as int - a as int + 1,
        config::letter_labels(a, b)[k] == seq![(a as int + k) as char],
        config::letter_labels(b, a) == config::letter_labels(a, b),
{
    assert(config::letter_labels(b, a) =~= config::letter_labels(a, b));
}

/// Two ends that are numbers make a range of numbers, two that are letters one of letters, and
/// anything else is no range.
pub proof fn law_ends_make_the_range(a: Seq<char>, b: Seq<char>)
    ensures
        config::bound(a) is Some && config::bound(b) is Some ==> config::range_labels(a, b) == Some(
            config::number_labels(config::bound(a)->0, config::bound(b)->0),
        ),
        a.len() == 1 && b.len() == 1 && config::is_letter(a[0]) && config::is_letter(b[0])
            && config::bound(a) is None ==> config::range_labels(a, b) == Some(
            config::letter_labels(a[0], b[0]),
        ),
        (config::bound(a) is None || config::bound(b) is None) && (a.len() != 1 || b.len() != 1)
            ==> config::range_labels(a, b) is None,
{
}

/// Patterns are expanded one behind the other; the empty ones among the results are left out of
/// the nodes, and nothing else is.
pub proof fn law_patterns_are_expanded_in_order(patterns: Seq<Seq<char>>, p: Seq<char>)
    ensures
        config::expand_each(patterns.push(p), patterns.len() + 1) == config::expand_each(
            patterns,
            patterns.len(),
        ) + config::expansion(p),
        config::expand_each(patterns, 0).len() == 0,
{
    lemma_expand(patterns, p, patterns.len());
}

proof fn lemma_expand(patterns: Seq<Seq<char>>, p: Seq<char>, n: nat)
    requires
        n <= patterns.len(),
    ensures
        config::expand_each(patterns.push(p), n) == config::expand_each(patterns, n),
    decreases n,
{
    if n > 0 {
        lemma_expand(patterns, p, (n - 1) as nat);
        assert(patterns.push(p)[n - 1] == patterns[n - 1]);
    }
}

/// Exactly the texts that are not empty are kept, in their order.
pub proof fn law_only_empty_texts_are_dropped(s: Seq<Seq<char>>, n: nat)
    requires
        n <= s.len(),
    ensures
        config::non_empty(s, n) == s.take(n as int).filter(|t: Seq<char>| t.len() > 0),
    decreases n,
{
    reveal(Seq::filter);
    if n > 0 {
        law_only_empty_texts_are_dropped(s, (n - 1) as nat);
        assert(s.take(n as int).drop_last() =~= s.take(n - 1));
        assert(s.take(n as int).last() == s[n - 1]);
    }
}

// ---------------------------------------------------------------- validation

/// A path is missed exactly where it is no directory, and the first one is named.
pub proof fn law_first_missing_path_is_named(
    paths: Seq<Seq<char>>,
    dirs: Seq<Seq<char>>,
    i: int,
    m: int,
)
    requires
        0 <= i <= m <= paths.len(),
        forall|k: int| i <= k < m ==> dirs.contains(#[trigger] paths[k]),
    ensures
        m < paths.len() && !dirs.contains(paths[m]) ==> config::first_missing(paths, dirs, i)
            == Some(paths[m]),
        m == paths.len() ==> config::first_missing(paths, dirs, i) is None,
    decreases m - i,
{
    if i < m {
        assert(dirs.contains(paths[i]));
        law_first_missing_path_is_named(paths, dirs, i + 1, m);
    }
}

/// Certificate and key are given together, and both are files, or neither is given.
pub open spec fn tls_fits(c: Config, files: Seq<Seq<char>>) -> bool {
    ||| c.tls_cert is None && c.tls_key is None
    ||| c.tls_cert is Some && c.tls_key is Some && files.contains(c.tls_cert->0@)
        && files.contains(c.tls_key->0@)
}

/// The write tier is one of the four.
pub open spec fn tier_fits(c: Config) -> bool {
    ||| c.write_tier@ == "file"@
    ||| c.write_tier@ == "wal"@
    ||| c.write_tier@ == "log"@
    ||| c.write_tier@ == "pool"@
}

/// A configuration is accepted exactly where there is a volume, every volume is a directory, the
/// TLS paths fit, both intervals are durations and the write tier is known.
pub proof fn law_configuration_is_accepted(c: Config, volumes: Seq<Seq<char>>, known: KnownPaths)
    ensures
        config::config_error(c, volumes, known) is None <==> {
            &&& volumes.len() > 0
            &&& tls_fits(c, order::views(known.files@))
            &&& forall|i: int|
                0 <= i < volumes.len() ==> order::views(known.dirs@).contains(
                    #[trigger] volumes[i],
                )
            &&& config::duration_secs(c.scan_interval@) is Some
            &&& config::duration_secs(c.heal_interval@) is Some
            &&& tier_fits(c)
        },
{
    let dirs = order::views(known.dirs@);
    lemma_missing(volumes, dirs, 0);
    if forall|i: int| 0 <= i < volumes.len() ==> dirs.contains(#[trigger] volumes[i]) {
        law_first_missing_path_is_named(volumes, dirs, 0, volumes.len() as int);
    }
}

proof fn lemma_missing(paths: Seq<Seq<char>>, dirs: Seq<Seq<char>>, i: int)
    requires
        0 <= i <= paths.len(),
    ensures
        config::first_missing(paths, dirs, i) is None ==> forall|k: int|
            i <= k < paths.len() ==> dirs.contains(#[trigger] paths[k]),
    decreases paths.len() - i,
{
    if i < paths.len() {
        lemma_missing(paths, dirs, i + 1);
    }
}

/// The error names what is wrong: the interval or the tier that was given.
pub proof fn law_error_names_what_is_wrong(c: Config, volumes: Seq<Seq<char>>, known: KnownPaths)
    requires
        config::path_error(c, volumes, known) is None,
    ensures
        config::duration_secs(c.scan_interval@) is None ==> config::config_error(c, volumes, known)
            == Some("invalid scan_interval: "@ + c.scan_interval@),
        config::duration_secs(c.scan_interval@) is Some && config::duration_secs(
            c.heal_interval@,
        ) is None ==> config::config_error(c, volumes, known) == Some(
            "invalid heal_interval: "@ + c.heal_interval@,
        ),
{
}

} // verus!
