//! What holds of policies and of the decisions on requests.

use vstd::prelude::*;

use super::eval;
use super::eval::Args;
use super::glob;
use super::types;
use super::types::{Effect, Policy, Principal, Statement};
use crate::json;
use crate::json::Json;
use crate::order;
use crate::split;
use crate::text;

verus! {

// ------------------------------------------------------------------ requests

/// The name of what a request is about: the bucket, or the key in it where it names one.
pub open spec fn resource_of(args: Args) -> Seq<char> {
    if args.key is Some && args.key->0@.len() > 0 {
        "arn:aws:s3:::"@ + args.bucket@ + "/"@ + args.key->0@
    } else {
        "arn:aws:s3:::"@ + args.bucket@
    }
}

/// An entry is the ARN of the user with the key: whatever stands in front, a segment `user`
/// or `root`, a path, and the key as the last segment.
pub open spec fn arn_of(entry: Seq<char>, front: Seq<char>, path: Seq<char>, key: Seq<char>) -> bool {
    &&& entry == front + "user"@ + "/"@ + path + key || entry == front + "root"@ + "/"@ + path + key
    &&& split::free_of(front, '/')
    &&& front.len() == 0 || front.last() == ':'
    &&& path.len() == 0 || path.last() == '/'
    &&& split::free_of(key, '/')
}

/// An entry names the caller: everyone, the key itself, or the ARN of the user with the key.
pub open spec fn names(entry: Seq<char>, key: Seq<char>) -> bool {
    entry == "*"@ || entry == key || exists|front: Seq<char>, path: Seq<char>| #[trigger]
        arn_of(entry, front, path, key)
}

/// The principal takes the caller in: everyone, or an entry at any place names them.
pub open spec fn takes_in(p: Principal, key: Seq<char>) -> bool {
    p is Anyone || (p is Aws && exists|i: int|
        0 <= i < p->Aws_0@.len() && names((#[trigger] p->Aws_0@[i])@, key))
}

/// A pattern at some place of the list matches the text.
pub open spec fn one_matches(patterns: Vec<String>, t: Seq<char>) -> bool {
    exists|i: int| 0 <= i < patterns@.len() && glob::glob_spec((#[trigger] patterns@[i])@, t)
}

/// A statement speaks of a request: it has no condition, takes the caller in, and an action
/// pattern at some place and a resource pattern at some place match.
pub open spec fn speaks_of(s: Statement, args: Args) -> bool {
    &&& s.condition is None
    &&& takes_in(s.principal, args.access_key@)
    &&& one_matches(s.action, args.action@)
    &&& one_matches(s.resource, resource_of(args))
}

proof fn lemma_tail(s: Seq<char>, c: char)
    ensures
        ({
            let t = text::after_last(s, c);
            &&& t.len() <= s.len()
            &&& s.skip(s.len() - t.len()) == t
            &&& split::free_of(t, c)
            &&& t.len() == s.len() || s[s.len() - t.len() - 1] == c
        }),
    decreases s.len(),
{
    let t = text::after_last(s, c);
    if s.len() == 0 {
        assert(s.skip(0) =~= t);
    } else if s.last() == c {
        assert(s.skip(s.len() as int) =~= t);
    } else {
        lemma_tail(s.drop_last(), c);
        let d = s.drop_last();
        let u = text::after_last(d, c);
        assert(s.skip(s.len() - t.len()) =~= d.skip(d.len() - u.len()).push(s.last()));
    }
}

proof fn lemma_tail_is(s: Seq<char>, c: char, front: Seq<char>, t: Seq<char>)
    requires
        s == front + t,
        front.len() == 0 || front.last() == c,
        split::free_of(t, c),
    ensures
        text::after_last(s, c) == t,
    decreases t.len(),
{
    if t.len() == 0 {
        assert(s =~= front);
        if s.len() == 0 {
            assert(s =~= t);
        } else {
            assert(text::after_last(s, c) =~= t);
        }
    } else {
        assert(s.last() == t.last());
        assert(t[t.len() - 1] != c);
        assert(s.drop_last() =~= front + t.drop_last());
        lemma_tail_is(s.drop_last(), c, front, t.drop_last());
        assert(t =~= t.drop_last().push(t.last()));
    }
}

proof fn lemma_arn_read(entry: Seq<char>, key: Seq<char>)
    requires
        entry.len() <= usize::MAX,
        eval::arn_user(entry) == Some(key),
    ensures
        exists|front: Seq<char>, path: Seq<char>| #[trigger] arn_of(entry, front, path, key),
{
    text::lemma_first_index(entry, '/', 0);
    let i = text::first_index(entry, '/', 0)->0 as int;
    let head = entry.take(i);
    let rest = entry.skip(i + 1);
    let kind = text::after_last(head, ':');
    lemma_tail(head, ':');
    lemma_tail(rest, '/');
    let front = head.take(head.len() - kind.len());
    let path = rest.take(rest.len() - key.len());
    assert(head =~= front + kind);
    assert(rest =~= path + key);
    assert("/"@ =~= seq!['/']) by {
        reveal_strlit("/");
    }
    assert(entry =~= head + "/"@ + rest);
    assert(entry =~= front + kind + "/"@ + path + key);
    assert forall|k: int| 0 <= k < front.len() implies #[trigger] front[k] != '/' by {
        assert(front[k] == entry[k]);
    }
    assert(arn_of(entry, front, path, key));
}

proof fn lemma_arn_written(
    entry: Seq<char>,
    front: Seq<char>,
    kind: Seq<char>,
    path: Seq<char>,
    key: Seq<char>,
)
    requires
        entry.len() <= usize::MAX,
        entry == front + kind + "/"@ + path + key,
        kind == "user"@ || kind == "root"@,
        split::free_of(front, '/'),
        front.len() == 0 || front.last() == ':',
        path.len() == 0 || path.last() == '/',
        split::free_of(key, '/'),
    ensures
        eval::arn_user(entry) == Some(key),
{
    let head = front + kind;
    let rest = path + key;
    assert(split::free_of(kind, '/') && split::free_of(kind, ':')) by {
        reveal_strlit("user");
        reveal_strlit("root");
    }
    assert("/"@ =~= seq!['/']) by {
        reveal_strlit("/");
    }
    assert forall|k: int| 0 <= k < head.len() implies #[trigger] head[k] != '/' by {
        if k < front.len() {
            assert(head[k] == front[k]);
        } else {
            assert(head[k] == kind[k - front.len()]);
        }
    }
    assert(entry =~= head + seq!['/'] + rest);
    split::lemma_split_at(head, '/', rest);
    lemma_tail_is(head, ':', front, kind);
    lemma_tail_is(rest, '/', path, key);
}

proof fn lemma_arn(entry: Seq<char>, key: Seq<char>)
    requires
        entry.len() <= usize::MAX,
    ensures
        eval::arn_user(entry) == Some(key) <==> exists|front: Seq<char>, path: Seq<char>| #[trigger]
            arn_of(entry, front, path, key),
{
    if eval::arn_user(entry) == Some(key) {
        lemma_arn_read(entry, key);
    }
    if exists|front: Seq<char>, path: Seq<char>| #[trigger] arn_of(entry, front, path, key) {
        let (front, path) = choose|front: Seq<char>, path: Seq<char>| #[trigger]
            arn_of(entry, front, path, key);
        let kind = if entry == front + "user"@ + "/"@ + path + key {
            "user"@
        } else {
            "root"@
        };
        lemma_arn_written(entry, front, kind, path, key);
    }
}

proof fn lemma_speaks(s: Statement, args: Args)
    requires
        forall|i: int|
            s.principal is Aws && 0 <= i < s.principal->Aws_0@.len() ==> (
            #[trigger] s.principal->Aws_0@[i])@.len() <= usize::MAX,
    ensures
        eval::statement_matches(s, args) == speaks_of(s, args),
{
    let r = resource_of(args);
    assert(r == eval::resource_name(args.bucket@, args.key));
    lemma_lists(s.action, args.action@);
    lemma_lists(s.resource, r);
    if s.principal is Aws {
        let list = s.principal->Aws_0;
        let v = order::views(list@);
        let key = args.access_key@;
        if eval::some_entry_names(v, key) {
            let i = choose|i: int| 0 <= i < v.len() && eval::entry_names(#[trigger] v[i], key);
            lemma_arn(list@[i]@, key);
            assert(names(list@[i]@, key));
        }
        if takes_in(s.principal, key) {
            let i = choose|i: int| 0 <= i < list@.len() && names((#[trigger] list@[i])@, key);
            lemma_arn(list@[i]@, key);
            assert(eval::entry_names(v[i], key));
        }
    }
}

proof fn lemma_lists(patterns: Vec<String>, t: Seq<char>)
    ensures
        eval::any_glob(order::views(patterns@), t) == one_matches(patterns, t),
{
    let v = order::views(patterns@);
    if eval::any_glob(v, t) {
        let i = choose|i: int| 0 <= i < v.len() && glob::glob_spec(#[trigger] v[i], t);
        assert(glob::glob_spec(patterns@[i]@, t));
    }
    if one_matches(patterns, t) {
        let i = choose|i: int|
            0 <= i < patterns@.len() && glob::glob_spec((#[trigger] patterns@[i])@, t);
        assert(glob::glob_spec(v[i], t));
    }
}

/// The entries of a policy are texts that fit the machine.
pub open spec fn fits(list: Seq<Statement>) -> bool {
    forall|k: int, i: int|
        0 <= k < list.len() && list[k].principal is Aws && 0 <= i
            < list[k].principal->Aws_0@.len() ==> (
        #[trigger] list[k].principal->Aws_0@[i])@.len() <= usize::MAX
}

/// A request is refused where any statement that denies speaks of it, whoever asks. It is
/// granted where none does, and one that allows speaks of it or the owner asks.
pub proof fn law_statements_decide(list: Seq<Statement>, args: Args)
    requires
        fits(list),
    ensures
        (exists|k: int|
            0 <= k < list.len() && list[k].effect is Deny && speaks_of(#[trigger] list[k], args))
            ==> !eval::allowed(list, args),
        (forall|k: int|
            0 <= k < list.len() && list[k].effect is Deny ==> !speaks_of(
                #[trigger] list[k],
                args,
            )) ==> (eval::allowed(list, args) <==> args.is_owner || exists|k: int|
            0 <= k < list.len() && list[k].effect is Allow && speaks_of(#[trigger] list[k], args)),
{
    assert forall|k: int| 0 <= k < list.len() implies eval::statement_matches(
        #[trigger] list[k],
        args,
    ) == speaks_of(list[k], args) by {
        lemma_speaks(list[k], args);
    }
    if eval::some_statement(list, Effect::Allow, args) {
        let k = choose|k: int|
            0 <= k < list.len() && eval::statement_matches(#[trigger] list[k], args)
                && list[k].effect == Effect::Allow;
        assert(speaks_of(list[k], args));
    }
    if eval::some_statement(list, Effect::Deny, args) {
        let k = choose|k: int|
            0 <= k < list.len() && eval::statement_matches(#[trigger] list[k], args)
                && list[k].effect == Effect::Deny;
        assert(speaks_of(list[k], args));
    }
    if exists|k: int|
        0 <= k < list.len() && list[k].effect is Deny && speaks_of(#[trigger] list[k], args) {
        let k = choose|k: int|
            0 <= k < list.len() && list[k].effect is Deny && speaks_of(#[trigger] list[k], args);
        assert(eval::statement_matches(list[k], args));
    }
    if exists|k: int|
        0 <= k < list.len() && list[k].effect is Allow && speaks_of(#[trigger] list[k], args) {
        let k = choose|k: int|
            0 <= k < list.len() && list[k].effect is Allow && speaks_of(#[trigger] list[k], args);
        assert(eval::statement_matches(list[k], args));
    }
}

/// Every entry of a list counts: a statement without a condition that speaks of everyone
/// decides a request with an action pattern and a resource pattern at whatever places match
/// it. It denies the request, or allows it where no statement denies anything.
pub proof fn law_every_pattern_counts(
    list: Seq<Statement>,
    args: Args,
    k: int,
    a: int,
    r: int,
)
    requires
        0 <= k < list.len(),
        list[k].condition is None,
        list[k].principal is Anyone,
        0 <= a < list[k].action@.len(),
        0 <= r < list[k].resource@.len(),
        glob::glob_spec(list[k].action@[a]@, args.action@),
        glob::glob_spec(list[k].resource@[r]@, resource_of(args)),
    ensures
        list[k].effect is Deny ==> !eval::allowed(list, args),
        list[k].effect is Allow && (forall|d: int|
            0 <= d < list.len() && (#[trigger] list[d]).effect is Deny ==> forall|x: int, y: int|
                #![trigger list[d].action@[x], list[d].resource@[y]]
                0 <= x < list[d].action@.len() && 0 <= y < list[d].resource@.len() ==> !(
                glob::glob_spec(list[d].action@[x]@, args.action@) && glob::glob_spec(
                    list[d].resource@[y]@,
                    resource_of(args),
                ))) ==> eval::allowed(list, args),
{
    let s = list[k];
    lemma_lists(s.action, args.action@);
    lemma_lists(s.resource, resource_of(args));
    assert(one_matches(s.action, args.action@));
    assert(one_matches(s.resource, resource_of(args)));
    assert(resource_of(args) == eval::resource_name(args.bucket@, args.key));
    assert(eval::statement_matches(list[k], args));
    if eval::some_statement(list, Effect::Deny, args) {
        let d = choose|d: int|
            0 <= d < list.len() && eval::statement_matches(#[trigger] list[d], args)
                && list[d].effect == Effect::Deny;
        lemma_lists(list[d].action, args.action@);
        lemma_lists(list[d].resource, resource_of(args));
        let x = choose|x: int|
            0 <= x < list[d].action@.len() && glob::glob_spec(
                (#[trigger] list[d].action@[x])@,
                args.action@,
            );
        let y = choose|y: int|
            0 <= y < list[d].resource@.len() && glob::glob_spec(
                (#[trigger] list[d].resource@[y])@,
                resource_of(args),
            );
        assert(glob::glob_spec(list[d].action@[x]@, args.action@) && glob::glob_spec(
            list[d].resource@[y]@,
            resource_of(args),
        ));
    }
}

/// A list holds the texts of another one, at whatever places.
pub open spec fn holds_all(a: Vec<String>, b: Vec<String>) -> bool {
    forall|i: int|
        0 <= i < b@.len() ==> exists|j: int|
            0 <= j < a@.len() && (#[trigger] a@[j])@ == (#[trigger] b@[i])@
}

/// Neither the order of the patterns in a statement nor how often one stands there changes a
/// decision.
pub proof fn law_pattern_order_is_irrelevant(
    list: Seq<Statement>,
    k: int,
    s: Statement,
    args: Args,
)
    requires
        fits(list),
        0 <= k < list.len(),
        s.effect == list[k].effect,
        s.principal == list[k].principal,
        s.condition == list[k].condition,
        holds_all(s.action, list[k].action) && holds_all(list[k].action, s.action),
        holds_all(s.resource, list[k].resource) && holds_all(list[k].resource, s.resource),
    ensures
        eval::allowed(list, args) == eval::allowed(list.update(k, s), args),
{
    let other = list.update(k, s);
    lemma_held(s.action, list[k].action, args.action@);
    lemma_held(list[k].action, s.action, args.action@);
    lemma_held(s.resource, list[k].resource, resource_of(args));
    lemma_held(list[k].resource, s.resource, resource_of(args));
    lemma_speaks(list[k], args);
    lemma_speaks(s, args);
    lemma_same_decision(list, other, args);
}

proof fn lemma_held(a: Vec<String>, b: Vec<String>, t: Seq<char>)
    requires
        holds_all(a, b),
    ensures
        one_matches(b, t) ==> one_matches(a, t),
{
    if one_matches(b, t) {
        let i = choose|i: int| 0 <= i < b@.len() && glob::glob_spec((#[trigger] b@[i])@, t);
        let j = choose|j: int| 0 <= j < a@.len() && (#[trigger] a@[j])@ == b@[i]@;
        assert(glob::glob_spec(a@[j]@, t));
    }
}

proof fn lemma_same_decision(a: Seq<Statement>, b: Seq<Statement>, args: Args)
    requires
        a.len() == b.len(),
        forall|i: int|
            0 <= i < a.len() ==> (#[trigger] a[i]).effect == b[i].effect
                && eval::statement_matches(a[i], args) == eval::statement_matches(b[i], args),
    ensures
        eval::allowed(a, args) == eval::allowed(b, args),
{
    assert forall|e: Effect| #[trigger]
        eval::some_statement(a, e, args) == eval::some_statement(b, e, args) by {
        if eval::some_statement(a, e, args) {
            let i = choose|i: int|
                0 <= i < a.len() && eval::statement_matches(#[trigger] a[i], args) && a[i].effect
                    == e;
            assert(eval::statement_matches(b[i], args) && b[i].effect == e);
        }
        if eval::some_statement(b, e, args) {
            let i = choose|i: int|
                0 <= i < b.len() && eval::statement_matches(#[trigger] b[i], args) && b[i].effect
                    == e;
            assert(eval::statement_matches(a[i], args) && a[i].effect == e);
        }
    }
}

/// A statement is another one for one of its actions and one of its resources.
pub open spec fn is_part(part: Statement, s: Statement, a: int, r: int) -> bool {
    &&& 0 <= a < s.action@.len()
    &&& 0 <= r < s.resource@.len()
    &&& part.effect == s.effect
    &&& part.principal == s.principal
    &&& part.condition == s.condition
    &&& part.action@.len() == 1
    &&& part.action@[0]@ == s.action@[a]@
    &&& part.resource@.len() == 1
    &&& part.resource@[0]@ == s.resource@[r]@
}

/// A statement is another one for some of its actions and some of its resources.
pub open spec fn is_some_part(part: Statement, s: Statement) -> bool {
    exists|a: int, r: int| #[trigger] is_part(part, s, a, r)
}

/// Some statement is the one for an action and a resource.
pub open spec fn has_part(parts: Seq<Statement>, s: Statement, a: int, r: int) -> bool {
    exists|p: int| 0 <= p < parts.len() && #[trigger] is_part(parts[p], s, a, r)
}

/// The statements are another one split up: every pair of an action and a resource of it has
/// its statement, and there are no others.
pub open spec fn split_up(parts: Seq<Statement>, s: Statement) -> bool {
    &&& forall|p: int| 0 <= p < parts.len() ==> is_some_part(#[trigger] parts[p], s)
    &&& forall|a: int, r: int|
        0 <= a < s.action@.len() && 0 <= r < s.resource@.len() ==> #[trigger] has_part(
            parts,
            s,
            a,
            r,
        )
}

proof fn lemma_part_within(parts: Seq<Statement>, s: Statement, args: Args, p: int)
    requires
        split_up(parts, s),
        0 <= p < parts.len(),
        eval::statement_matches(parts[p], args),
    ensures
        eval::statement_matches(s, args),
        parts[p].effect == s.effect,
{
    lemma_lists(parts[p].action, args.action@);
    lemma_lists(parts[p].resource, resource_of(args));
    lemma_lists(s.action, args.action@);
    lemma_lists(s.resource, resource_of(args));
    assert(is_some_part(parts[p], s));
    let (x, y) = choose|x: int, y: int| #[trigger] is_part(parts[p], s, x, y);
    assert(glob::glob_spec(s.action@[x]@, args.action@));
    assert(glob::glob_spec(s.resource@[y]@, resource_of(args)));
}

proof fn lemma_part_found(parts: Seq<Statement>, s: Statement, args: Args) -> (p: int)
    requires
        split_up(parts, s),
        eval::statement_matches(s, args),
    ensures
        0 <= p < parts.len(),
        eval::statement_matches(parts[p], args),
        parts[p].effect == s.effect,
{
    lemma_lists(s.action, args.action@);
    lemma_lists(s.resource, resource_of(args));
    let x = choose|x: int|
        0 <= x < s.action@.len() && glob::glob_spec((#[trigger] s.action@[x])@, args.action@);
    let y = choose|y: int|
        0 <= y < s.resource@.len() && glob::glob_spec(
            (#[trigger] s.resource@[y])@,
            resource_of(args),
        );
    assert(has_part(parts, s, x, y));
    let p = choose|p: int| 0 <= p < parts.len() && #[trigger] is_part(parts[p], s, x, y);
    lemma_lists(parts[p].action, args.action@);
    lemma_lists(parts[p].resource, resource_of(args));
    assert(glob::glob_spec(parts[p].action@[0]@, args.action@));
    assert(glob::glob_spec(parts[p].resource@[0]@, resource_of(args)));
    p
}

proof fn lemma_split_search(
    list: Seq<Statement>,
    s: Statement,
    parts: Seq<Statement>,
    args: Args,
    e: Effect,
)
    requires
        split_up(parts, s),
    ensures
        eval::some_statement(list.push(s), e, args) == eval::some_statement(
            list + parts,
            e,
            args,
        ),
{
    let a = list.push(s);
    let b = list + parts;
    if eval::some_statement(a, e, args) {
        let i = choose|i: int|
            0 <= i < a.len() && eval::statement_matches(#[trigger] a[i], args) && a[i].effect == e;
        if i < list.len() {
            assert(b[i] == a[i]);
        } else {
            let p = lemma_part_found(parts, s, args);
            assert(b[list.len() + p] == parts[p]);
        }
    }
    if eval::some_statement(b, e, args) {
        let i = choose|i: int|
            0 <= i < b.len() && eval::statement_matches(#[trigger] b[i], args) && b[i].effect == e;
        if i < list.len() {
            assert(a[i] == b[i]);
        } else {
            assert(parts[i - list.len()] == b[i]);
            lemma_part_within(parts, s, args, i - list.len());
            assert(a[list.len() as int] == s);
        }
    }
}

/// Splitting a statement into one for each action and resource changes no decision.
pub proof fn law_splitting_changes_nothing(
    list: Seq<Statement>,
    s: Statement,
    parts: Seq<Statement>,
    args: Args,
)
    requires
        split_up(parts, s),
    ensures
        eval::allowed(list.push(s), args) == eval::allowed(list + parts, args),
{
    lemma_split_search(list, s, parts, args, Effect::Allow);
    lemma_split_search(list, s, parts, args, Effect::Deny);
}

/// A statement with a condition changes no decision.
pub proof fn law_conditional_statement_is_ignored(
    list: Seq<Statement>,
    s: Statement,
    args: Args,
)
    requires
        s.condition is Some,
    ensures
        eval::allowed(list.push(s), args) == eval::allowed(list, args),
{
    let a = list.push(s);
    assert forall|e: Effect| #[trigger]
        eval::some_statement(a, e, args) == eval::some_statement(list, e, args) by {
        if eval::some_statement(a, e, args) {
            let i = choose|i: int|
                0 <= i < a.len() && eval::statement_matches(#[trigger] a[i], args) && a[i].effect
                    == e;
            assert(i < list.len());
            assert(list[i] == a[i]);
        }
        if eval::some_statement(list, e, args) {
            let i = choose|i: int|
                0 <= i < list.len() && eval::statement_matches(#[trigger] list[i], args)
                    && list[i].effect == e;
            assert(a[i] == list[i]);
        }
    }
}

// ----------------------------------------------------------------- documents

/// A JSON value is a list of texts, or one text that stands for the list with it.
pub open spec fn lists_texts(v: Json, texts: Seq<Seq<char>>) -> bool {
    ||| v is Text && texts == seq![v->Text_0@]
    ||| v is Array && v->Array_0@.len() == texts.len() && forall|i: int|
        0 <= i < texts.len() ==> (#[trigger] v->Array_0@[i]) is Text && v->Array_0@[i]->Text_0@
            == texts[i]
}

/// An object gives the value for a name: the first field with it.
pub open spec fn gives(v: Json, name: Seq<char>, value: Json) -> bool {
    v is Object && exists|i: int|
        {
            &&& 0 <= i < v->Object_0@.len()
            &&& (#[trigger] v->Object_0@[i]).0@ == name
            &&& v->Object_0@[i].1 == value
            &&& forall|j: int| 0 <= j < i ==> (#[trigger] v->Object_0@[j]).0@ != name
        }
}

/// An object has no field with a name.
pub open spec fn lacks(v: Json, name: Seq<char>) -> bool {
    v is Object && forall|i: int|
        0 <= i < v->Object_0@.len() ==> (#[trigger] v->Object_0@[i]).0@ != name
}

proof fn lemma_field(f: Seq<(String, Json)>, name: Seq<char>, i: int)
    requires
        0 <= i <= f.len(),
        forall|j: int| 0 <= j < i ==> (#[trigger] f[j]).0@ != name,
    ensures
        i < f.len() && f[i].0@ == name ==> json::field(f, name) == Some(f[i].1),
        i == f.len() ==> json::field(f, name) is None,
    decreases f.len(),
{
    if f.len() > 0 && i > 0 {
        assert(f[0].0@ != name);
        let t = f.drop_first();
        assert forall|j: int| 0 <= j < i - 1 implies (#[trigger] t[j]).0@ != name by {
            assert(t[j] == f[j + 1]);
        }
        lemma_field(t, name, i - 1);
        if i < f.len() {
            assert(t[i - 1] == f[i]);
        }
    }
}

proof fn lemma_gives(v: Json, name: Seq<char>, value: Json)
    requires
        gives(v, name, value),
    ensures
        json::field(v->Object_0@, name) == Some(value),
{
    let f = v->Object_0@;
    let i = choose|i: int|
        {
            &&& 0 <= i < f.len()
            &&& (#[trigger] f[i]).0@ == name
            &&& f[i].1 == value
            &&& forall|j: int| 0 <= j < i ==> (#[trigger] f[j]).0@ != name
        };
    lemma_field(f, name, i);
}

proof fn lemma_lacks(v: Json, name: Seq<char>)
    requires
        lacks(v, name),
    ensures
        json::field(v->Object_0@, name) is None,
{
    lemma_field(v->Object_0@, name, v->Object_0@.len() as int);
}

proof fn lemma_texts(v: Json, texts: Seq<Seq<char>>)
    requires
        lists_texts(v, texts),
    ensures
        types::names_in(Some(v)) == texts,
{
    if v is Array {
        lemma_all_texts(v->Array_0@, texts, texts.len());
        assert(texts.take(texts.len() as int) =~= texts);
    }
}

proof fn lemma_all_texts(items: Seq<Json>, texts: Seq<Seq<char>>, n: nat)
    requires
        n <= items.len() == texts.len(),
        forall|i: int|
            0 <= i < texts.len() ==> (#[trigger] items[i]) is Text && items[i]->Text_0@ == texts[i],
    ensures
        json::texts(items, n) == texts.take(n as int),
    decreases n,
{
    if n == 0 {
        assert(texts.take(0) =~= Seq::empty());
    } else {
        lemma_all_texts(items, texts, (n - 1) as nat);
        assert(items[n - 1] is Text);
        assert(texts.take(n as int) =~= texts.take(n - 1).push(texts[n - 1]));
    }
}

/// A statement is read as it is written: what it states as its effect, every action and every
/// resource in its order whether one stands alone or in a list, everyone where it names no
/// principal or `*`, and otherwise the listed ones.
pub proof fn law_statement_is_read_as_written(
    s: Statement,
    v: Json,
    effect: Json,
    action: Json,
    resource: Json,
    actions: Seq<Seq<char>>,
    resources: Seq<Seq<char>>,
)
    requires
        gives(v, "Effect"@, effect),
        effect is Text,
        gives(v, "Action"@, action),
        lists_texts(action, actions),
        gives(v, "Resource"@, resource),
        lists_texts(resource, resources),
        types::is_statement(s, v),
    ensures
        effect->Text_0@ == "Allow"@ ==> s.effect is Allow,
        effect->Text_0@ == "Deny"@ ==> s.effect is Deny,
        s.action@.len() == actions.len(),
        forall|i: int| 0 <= i < actions.len() ==> (#[trigger] s.action@[i])@ == actions[i],
        s.resource@.len() == resources.len(),
        forall|i: int| 0 <= i < resources.len() ==> (#[trigger] s.resource@[i])@ == resources[i],
        lacks(v, "Principal"@) ==> s.principal is Anyone,
        forall|p: Json| #[trigger]
            gives(v, "Principal"@, p) && p is Text ==> p->Text_0@ == "*"@ && s.principal is Anyone,
        forall|p: Json, l: Json, entries: Seq<Seq<char>>|
            #![trigger gives(v, "Principal"@, p), gives(p, "AWS"@, l), lists_texts(l, entries)]
            gives(v, "Principal"@, p) && gives(p, "AWS"@, l) && lists_texts(l, entries)
                ==> s.principal is Aws && s.principal->Aws_0@.len() == entries.len() && forall|
                i: int,
            |
                0 <= i < entries.len() ==> (#[trigger] s.principal->Aws_0@[i])@ == entries[i],
        lacks(v, "Condition"@) ==> s.condition is None,
        forall|c: Json| #[trigger]
            gives(v, "Condition"@, c) ==> (s.condition is None <==> c is Null),
{
    lemma_gives(v, "Effect"@, effect);
    lemma_gives(v, "Action"@, action);
    lemma_gives(v, "Resource"@, resource);
    lemma_texts(action, actions);
    lemma_texts(resource, resources);
    reveal_strlit("Allow");
    reveal_strlit("Deny");
    assert("Allow"@.len() != "Deny"@.len());
    assert(order::views(s.action@).len() == s.action@.len());
    assert(order::views(s.resource@).len() == s.resource@.len());
    assert forall|i: int| 0 <= i < actions.len() implies (#[trigger] s.action@[i])@
        == actions[i] by {
        assert(order::views(s.action@)[i] == actions[i]);
    }
    assert forall|i: int| 0 <= i < resources.len() implies (#[trigger] s.resource@[i])@
        == resources[i] by {
        assert(order::views(s.resource@)[i] == resources[i]);
    }
    if lacks(v, "Principal"@) {
        lemma_lacks(v, "Principal"@);
    }
    if lacks(v, "Condition"@) {
        lemma_lacks(v, "Condition"@);
    }
    assert forall|p: Json| #[trigger] gives(v, "Principal"@, p) && p is Text implies p->Text_0@
        == "*"@ && s.principal is Anyone by {
        lemma_gives(v, "Principal"@, p);
    }
    assert forall|c: Json| #[trigger] gives(v, "Condition"@, c) implies (s.condition is None <==> c
        is Null) by {
        lemma_gives(v, "Condition"@, c);
    }
    assert forall|p: Json, l: Json, entries: Seq<Seq<char>>|
        #![trigger gives(v, "Principal"@, p), gives(p, "AWS"@, l), lists_texts(l, entries)]
        gives(v, "Principal"@, p) && gives(p, "AWS"@, l) && lists_texts(l, entries) implies s.principal
        is Aws && s.principal->Aws_0@.len() == entries.len() && forall|i: int|
        0 <= i < entries.len() ==> (#[trigger] s.principal->Aws_0@[i])@ == entries[i] by {
        lemma_gives(v, "Principal"@, p);
        lemma_gives(p, "AWS"@, l);
        lemma_texts(l, entries);
        let w = order::views(s.principal->Aws_0@);
        assert(w.len() == s.principal->Aws_0@.len());
        assert forall|i: int| 0 <= i < entries.len() implies (
        #[trigger] s.principal->Aws_0@[i])@ == entries[i] by {
            assert(w[i] == entries[i]);
        }
    }
}

/// A statement that names an effect, an action and a resource, and no principal, can be used.
pub proof fn law_plain_statement_is_usable(
    v: Json,
    effect: Json,
    action: Json,
    resource: Json,
    actions: Seq<Seq<char>>,
    resources: Seq<Seq<char>>,
)
    requires
        gives(v, "Effect"@, effect),
        effect is Text,
        effect->Text_0@ == "Allow"@ || effect->Text_0@ == "Deny"@,
        gives(v, "Action"@, action),
        lists_texts(action, actions),
        actions.len() > 0,
        gives(v, "Resource"@, resource),
        lists_texts(resource, resources),
        resources.len() > 0,
        lacks(v, "Principal"@) || exists|p: Json| #[trigger]
            gives(v, "Principal"@, p) && (p is Object || (p is Text && p->Text_0@ == "*"@)),
    ensures
        types::usable_statement(v),
{
    lemma_gives(v, "Effect"@, effect);
    lemma_gives(v, "Action"@, action);
    lemma_gives(v, "Resource"@, resource);
    lemma_texts(action, actions);
    lemma_texts(resource, resources);
    if lacks(v, "Principal"@) {
        lemma_lacks(v, "Principal"@);
    } else {
        let p = choose|p: Json| #[trigger]
            gives(v, "Principal"@, p) && (p is Object || (p is Text && p->Text_0@ == "*"@));
        lemma_gives(v, "Principal"@, p);
    }
}

proof fn lemma_usable(items: Seq<Json>, n: nat, i: int)
    requires
        n <= items.len(),
        0 <= i < n,
    ensures
        types::usable_statement(items[i]) ==> types::usable(items, n).contains(items[i]),
        forall|k: int|
            0 <= k < types::usable(items, n).len() ==> types::usable_statement(
                #[trigger] types::usable(items, n)[k],
            ),
    decreases n,
{
    let m = (n - 1) as nat;
    let u = types::usable(items, n);
    let b = types::usable(items, m);
    if m > 0 {
        lemma_usable(items, m, if i < m {
            i
        } else {
            0
        });
    } else {
        assert(b.len() == 0);
    }
    if types::usable_statement(items[i]) {
        if i < m {
            let k = choose|k: int| 0 <= k < b.len() && b[k] == items[i];
            assert(u[k] == items[i]);
        } else {
            assert(u[u.len() - 1] == items[i]);
        }
    }
    assert forall|k: int| 0 <= k < u.len() implies types::usable_statement(#[trigger] u[k]) by {
        if k < b.len() {
            assert(u[k] == b[k]);
        }
    }
}

/// Every usable statement of a document counts, whether it stands alone or at any place of a
/// list, and nothing else does.
pub proof fn law_every_usable_statement_is_read(
    p: Policy,
    doc: Json,
    stated: Json,
    v: Json,
)
    requires
        gives(doc, "Statement"@, stated),
        types::is_policy(doc),
        types::is_reading(p, doc),
        types::usable_statement(v),
        stated == v || (stated is Array && stated->Array_0@.contains(v)),
    ensures
        exists|i: int|
            0 <= i < p.statements@.len() && types::is_statement(#[trigger] p.statements@[i], v),
{
    lemma_gives(doc, "Statement"@, stated);
    let all = types::statements_in(Some(stated));
    if stated is Array {
        let items = stated->Array_0@;
        let k = choose|k: int| 0 <= k < items.len() && items[k] == v;
        lemma_usable(items, items.len(), k);
    } else {
        assert(all[0] == v);
    }
    assert(all.contains(v));
    let i = choose|i: int| 0 <= i < all.len() && all[i] == v;
    assert(types::is_statement(p.statements@[i], v));
}

} // verus!
