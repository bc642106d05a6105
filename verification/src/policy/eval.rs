//! Policy evaluator. Goes through the statements against the request: an explicit
//! deny wins, a matched allow allows, and otherwise the caller's ownership decides
//! (the authenticated bucket owner keeps access outside of an explicit deny).

use vstd::prelude::*;
use vstd::string::*;

use super::glob;
use super::types::{Effect, Policy, Principal, Statement};
use crate::order;
use crate::split;
use crate::text;

verus! {

/// What the evaluator reads of a request.
#[derive(Clone, Debug)]
pub struct Args<'a> {
    pub bucket: &'a str,
    pub key: Option<&'a str>,
    /// S3 action string (such as `s3:GetObject`).
    pub action: &'a str,
    /// Authenticated access key; empty for an anonymous caller.
    pub access_key: &'a str,
    /// The caller holds the cluster's root credentials.
    pub is_owner: bool,
}

/// The resource name of a bucket, or of a key in it.
pub open spec fn resource_name(bucket: Seq<char>, key: Option<&str>) -> Seq<char> {
    match key {
        Some(k) => if k@.len() > 0 {
            "arn:aws:s3:::"@ + bucket + "/"@ + k@
        } else {
            "arn:aws:s3:::"@ + bucket
        },
        None => "arn:aws:s3:::"@ + bucket,
    }
}

impl<'a> Args<'a> {
    /// The resource name that the request is about.
    pub fn resource(&self) -> (r: String)
        ensures
            r@ == resource_name(self.bucket@, self.key),
    {
        let mut out = "arn:aws:s3:::".to_owned();
        out.append(self.bucket);
        if let Some(k) = self.key {
            if !k.is_empty() {
                out.append("/");
                out.append(k);
            }
        }
        out
    }
}

/// The user that an entry in the shape of an ARN names: the tail segment after `user/` or
/// `root/`. An entry for anything else, such as a role, names no user.
pub open spec fn arn_user(entry: Seq<char>) -> Option<Seq<char>> {
    match split::split_pair(entry, '/') {
        Some((head, path)) => {
            let kind = text::after_last(head, ':');
            if kind == "user"@ || kind == "root"@ {
                Some(text::after_last(path, '/'))
            } else {
                None
            }
        },
        None => None,
    }
}

/// A principal entry names the caller: everyone, the key itself, or the ARN of the user with
/// that key.
pub open spec fn entry_names(entry: Seq<char>, access_key: Seq<char>) -> bool {
    entry == "*"@ || entry == access_key || arn_user(entry) == Some(access_key)
}

/// Some entry of the list names the caller.
pub open spec fn some_entry_names(list: Seq<Seq<char>>, access_key: Seq<char>) -> bool {
    exists|i: int| 0 <= i < list.len() && entry_names(#[trigger] list[i], access_key)
}

/// A principal covers the caller.
pub open spec fn principal_covers(
    entries: Option<Seq<Seq<char>>>,
    access_key: Seq<char>,
) -> bool {
    match entries {
        None => true,
        Some(list) => some_entry_names(list, access_key),
    }
}

/// Some pattern of the list matches.
pub open spec fn any_glob(patterns: Seq<Seq<char>>, s: Seq<char>) -> bool {
    exists|i: int| 0 <= i < patterns.len() && glob::glob_spec(#[trigger] patterns[i], s)
}

/// A statement speaks of the request. A statement with a condition never does.
pub open spec fn statement_matches(s: Statement, args: Args) -> bool {
    &&& s.condition is None
    &&& principal_covers(s.principal.entries(), args.access_key@)
    &&& any_glob(order::views(s.action@), args.action@)
    &&& any_glob(order::views(s.resource@), resource_name(args.bucket@, args.key))
}

/// Some statement with the given effect speaks of the request.
pub open spec fn some_statement(list: Seq<Statement>, effect: Effect, args: Args) -> bool {
    exists|i: int|
        0 <= i < list.len() && statement_matches(#[trigger] list[i], args) && list[i].effect
            == effect
}

/// The decision on a request.
pub open spec fn allowed(list: Seq<Statement>, args: Args) -> bool {
    !some_statement(list, Effect::Deny, args) && (some_statement(list, Effect::Allow, args)
        || args.is_owner)
}

impl Policy {
    /// Evaluates the policy: true to allow the request, false to deny it.
    pub fn is_allowed(&self, args: &Args) -> (r: bool)
        ensures
            r == allowed(self.statements@, *args),
    {
        let mut any_allow = false;
        let resource = args.resource();
        let mut i: usize = 0;
        while i < self.statements.len()
            invariant
                i <= self.statements@.len(),
                resource@ == resource_name(args.bucket@, args.key),
                forall|k: int|
                    0 <= k < i && statement_matches(#[trigger] self.statements@[k], *args)
                        ==> self.statements@[k].effect == Effect::Allow,
                any_allow <==> exists|k: int|
                    0 <= k < i && statement_matches(#[trigger] self.statements@[k], *args)
                        && self.statements@[k].effect == Effect::Allow,
            decreases self.statements@.len() - i,
        {
            let stmt = &self.statements[i];
            if stmt_matches(stmt, args, resource.as_str()) {
                match stmt.effect {
                    Effect::Deny => {
                        return false;
                    },
                    Effect::Allow => {
                        any_allow = true;
                    },
                }
            }
            i = i + 1;
        }
        any_allow || args.is_owner
    }
}

fn stmt_matches(stmt: &Statement, args: &Args, resource: &str) -> (r: bool)
    requires
        resource@ == resource_name(args.bucket@, args.key),
    ensures
        r == statement_matches(*stmt, *args),
{
    if stmt.condition.is_some() {
        return false;
    }
    if !principal_matches(&stmt.principal, args.access_key) {
        return false;
    }
    if !any_glob_match(&stmt.action, args.action) {
        return false;
    }
    any_glob_match(&stmt.resource, resource)
}

fn any_glob_match(patterns: &Vec<String>, s: &str) -> (r: bool)
    ensures
        r == any_glob(order::views(patterns@), s@),
{
    let mut i: usize = 0;
    while i < patterns.len()
        invariant
            i <= patterns@.len(),
            forall|k: int|
                0 <= k < i ==> !glob::glob_spec(#[trigger] order::views(patterns@)[k], s@),
        decreases patterns@.len() - i,
    {
        if glob::glob_match(patterns[i].as_str(), s) {
            assert(glob::glob_spec(order::views(patterns@)[i as int], s@));
            return true;
        }
        i = i + 1;
    }
    false
}

fn principal_matches(principal: &Principal, access_key: &str) -> (r: bool)
    ensures
        r == principal_covers(principal.entries(), access_key@),
{
    match principal {
        Principal::Anyone => true,
        Principal::Aws(list) => {
            let mut i: usize = 0;
            while i < list.len()
                invariant
                    i <= list@.len(),
                    principal.entries() == Some(order::views(list@)),
                    forall|k: int|
                        0 <= k < i ==> !entry_names(
                            #[trigger] order::views(list@)[k],
                            access_key@,
                        ),
                decreases list@.len() - i,
            {
                if principal_entry_matches(list[i].as_str(), access_key) {
                    assert(entry_names(order::views(list@)[i as int], access_key@));
                    return true;
                }
                i = i + 1;
            }
            false
        },
    }
}

/// Whether a principal entry names the caller.
pub fn principal_entry_matches(entry: &str, access_key: &str) -> (r: bool)
    ensures
        r == entry_names(entry@, access_key@),
{
    if text::str_eq(entry, "*") || text::str_eq(entry, access_key) {
        return true;
    }
    match split::split_once(entry, '/') {
        Some((head, path)) => {
            let kind = text::tail_after_last(head.as_str(), ':');
            (text::str_eq(kind, "user") || text::str_eq(kind, "root")) && text::str_eq(
                text::tail_after_last(path.as_str(), '/'),
                access_key,
            )
        },
        None => false,
    }
}

/// An explicit deny that speaks of the request wins, whatever else is stated and
/// whoever asks.
pub proof fn law_deny_overrides(list: Seq<Statement>, args: Args, i: int)
    requires
        0 <= i < list.len(),
        list[i].effect == Effect::Deny,
        statement_matches(list[i], args),
    ensures
        !allowed(list, args),
{
}

/// Where no statement speaks of the request, ownership decides.
pub proof fn law_unmatched_defers_to_owner(list: Seq<Statement>, args: Args)
    requires
        forall|i: int| 0 <= i < list.len() ==> !statement_matches(#[trigger] list[i], args),
    ensures
        allowed(list, args) == args.is_owner,
{
}

/// The order of the statements plays no part in the decision.
pub proof fn law_order_is_irrelevant(a: Seq<Statement>, b: Seq<Statement>, args: Args)
    requires
        forall|s: Statement| #[trigger] a.contains(s) <==> b.contains(s),
    ensures
        allowed(a, args) == allowed(b, args),
{
    assert forall|effect: Effect| #[trigger] some_statement(a, effect, args) implies some_statement(
        b,
        effect,
        args,
    ) by {
        let i = choose|i: int|
            0 <= i < a.len() && statement_matches(#[trigger] a[i], args) && a[i].effect == effect;
        assert(a.contains(a[i]));
        assert(b.contains(a[i]));
        let j = choose|j: int| 0 <= j < b.len() && b[j] == a[i];
        assert(statement_matches(b[j], args));
    }
    assert forall|effect: Effect| #[trigger] some_statement(b, effect, args) implies some_statement(
        a,
        effect,
        args,
    ) by {
        let i = choose|i: int|
            0 <= i < b.len() && statement_matches(#[trigger] b[i], args) && b[i].effect == effect;
        assert(b.contains(b[i]));
        assert(a.contains(b[i]));
        let j = choose|j: int| 0 <= j < a.len() && a[j] == b[i];
        assert(statement_matches(a[j], args));
    }
    assert(some_statement(a, Effect::Deny, args) == some_statement(b, Effect::Deny, args));
    assert(some_statement(a, Effect::Allow, args) == some_statement(b, Effect::Allow, args));
}

} // verus!
