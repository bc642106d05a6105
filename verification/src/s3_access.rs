//! Who may do what: bucket policies in front of the S3 layer.

use vstd::prelude::*;
use vstd::string::*;

use crate::json;
use crate::json::Json;
use crate::policy::action;
use crate::policy::eval;
use crate::policy::eval::Args;
use crate::policy::types;
use crate::policy::types::{Effect, Policy, Statement};
use crate::storage::BucketSettings;
use crate::text;

verus! {

/// The access rule of a server.
#[derive(Clone, Debug)]
pub struct AbixioAccess {
    /// Root access key. Requests with this key are allowed unless a policy denies them.
    pub owner_access_key: String,
}

/// What becomes of a request.
#[derive(Clone, Copy, Debug, PartialEq, Eq, Structural)]
pub enum Access {
    Allowed,
    /// The node serves no data now.
    Unavailable,
    /// The bucket policy cannot be read.
    Unreadable,
    /// The bucket policy does not allow it.
    Denied,
}

/// A request, as far as access goes by it.
#[derive(Clone, Debug)]
pub struct AccessRequest<'a> {
    pub bucket: Option<&'a str>,
    pub key: Option<&'a str>,
    pub operation: &'a str,
    /// Authenticated access key; empty for an anonymous caller.
    pub access_key: &'a str,
}

/// The caller is the owner: everybody where no owner is configured, and otherwise who holds
/// the owner's key.
pub open spec fn owns(owner: Seq<char>, access_key: Seq<char>) -> bool {
    owner.len() == 0 || (access_key.len() > 0 && access_key == owner)
}

/// The policy that a bucket has, if it has one.
pub open spec fn policy_of(settings: Option<BucketSettings>) -> Option<Json> {
    match settings {
        Some(s) => match s.policy {
            Some(Json::Null) => None,
            p => p,
        },
        None => None,
    }
}

/// The arguments say what the request asks for.
pub open spec fn asks(args: Args, req: AccessRequest, bucket: &str, owner: Seq<char>) -> bool {
    &&& args.bucket@ == bucket@
    &&& args.key == req.key
    &&& args.action@ == action::action_of(req.operation@)
    &&& args.access_key@ == req.access_key@
    &&& args.is_owner == owns(owner, req.access_key@)
}

/// A policy that the document states allows what the request asks for.
pub open spec fn permits(doc: Json, req: AccessRequest, bucket: &str, owner: Seq<char>) -> bool {
    exists|p: Policy, args: Args| #[trigger]
        types::is_reading(p, doc) && #[trigger] asks(args, req, bucket, owner) && eval::allowed(
            p.statements@,
            args,
        )
}

proof fn lemma_same_statement(
    s: Statement,
    t: Statement,
    v: Json,
    a: Args,
    b: Args,
)
    requires
        types::is_statement(s, v),
        types::is_statement(t, v),
        eval::resource_name(a.bucket@, a.key) == eval::resource_name(b.bucket@, b.key),
        a.action@ == b.action@,
        a.access_key@ == b.access_key@,
    ensures
        s.effect == t.effect,
        eval::statement_matches(s, a) == eval::statement_matches(t, b),
{
}

/// What a policy document allows does not depend on how it is read: any two readings of it
/// decide alike on the same request.
pub proof fn law_document_decides(
    doc: Json,
    p: Policy,
    q: Policy,
    req: AccessRequest,
    bucket: &str,
    owner: Seq<char>,
    a: Args,
    b: Args,
)
    requires
        types::is_reading(p, doc),
        types::is_reading(q, doc),
        asks(a, req, bucket, owner),
        asks(b, req, bucket, owner),
    ensures
        eval::allowed(p.statements@, a) == eval::allowed(q.statements@, b),
{
    let stated = types::statements_in(json::field(doc->Object_0@, "Statement"@));
    assert forall|i: int| 0 <= i < stated.len() implies {
        &&& (#[trigger] p.statements@[i]).effect == q.statements@[i].effect
        &&& eval::statement_matches(p.statements@[i], a) == eval::statement_matches(
            q.statements@[i],
            b,
        )
    } by {
        lemma_same_statement(p.statements@[i], q.statements@[i], stated[i], a, b);
    }
    lemma_same_search(p.statements@, q.statements@, Effect::Deny, a, b);
    lemma_same_search(q.statements@, p.statements@, Effect::Deny, b, a);
    lemma_same_search(p.statements@, q.statements@, Effect::Allow, a, b);
    lemma_same_search(q.statements@, p.statements@, Effect::Allow, b, a);
}

proof fn lemma_same_search(
    s: Seq<Statement>,
    t: Seq<Statement>,
    effect: Effect,
    a: Args,
    b: Args,
)
    requires
        s.len() == t.len(),
        forall|i: int|
            0 <= i < s.len() ==> (#[trigger] s[i]).effect == t[i].effect && eval::statement_matches(
                s[i],
                a,
            ) == eval::statement_matches(t[i], b),
    ensures
        eval::some_statement(s, effect, a) ==> eval::some_statement(t, effect, b),
{
    if eval::some_statement(s, effect, a) {
        let i = choose|i: int|
            0 <= i < s.len() && eval::statement_matches(#[trigger] s[i], a) && s[i].effect
                == effect;
        assert(eval::statement_matches(t[i], b));
    }
}

impl AbixioAccess {
    /// The rule for the given owner.
    pub fn new(owner_access_key: String) -> (r: Self)
        ensures
            r.owner_access_key == owner_access_key,
    {
        AbixioAccess { owner_access_key }
    }

    /// Decides whether a request goes on. The settings are missing where the bucket is.
    pub fn check(&self, blocked: bool, req: &AccessRequest, settings: &Option<BucketSettings>) -> (r:
        Access)
        ensures
            blocked ==> r == Access::Unavailable,
            !blocked ==> match (req.bucket, policy_of(*settings)) {
                (Some(bucket), Some(doc)) => {
                    if !types::is_policy(doc) {
                        r == Access::Unreadable
                    } else if permits(doc, *req, bucket, self.owner_access_key@) {
                        r == Access::Allowed
                    } else {
                        r == Access::Denied
                    }
                },
                _ => r == Access::Allowed,
            },
    {
        if blocked {
            return Access::Unavailable;
        }
        let bucket = match req.bucket {
            Some(b) => b,
            None => {
                return Access::Allowed;
            },
        };
        let doc = match settings {
            Some(s) => match &s.policy {
                Some(Json::Null) => {
                    return Access::Allowed;
                },
                Some(d) => d,
                None => {
                    return Access::Allowed;
                },
            },
            None => {
                return Access::Allowed;
            },
        };
        let policy = match Policy::from_json(doc) {
            Some(p) => p,
            None => {
                return Access::Unreadable;
            },
        };
        let is_owner = self.owner_access_key.as_str().is_empty() || (!req.access_key.is_empty()
            && text::str_eq(req.access_key, self.owner_access_key.as_str()));
        let args = Args {
            bucket,
            key: req.key,
            action: action::op_to_action(req.operation),
            access_key: req.access_key,
            is_owner,
        };
        assert(asks(args, *req, bucket, self.owner_access_key@));
        if policy.is_allowed(&args) {
            Access::Allowed
        } else {
            proof {
                let owner = self.owner_access_key@;
                if permits(*doc, *req, bucket, owner) {
                    let (q, b) = choose|q: Policy, b: Args| #[trigger]
                        types::is_reading(q, *doc) && #[trigger] asks(b, *req, bucket, owner)
                            && eval::allowed(q.statements@, b);
                    law_document_decides(*doc, policy, q, *req, bucket, owner, args, b);
                }
            }
            Access::Denied
        }
    }
}

} // verus!
