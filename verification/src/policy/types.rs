//! Typed view of a bucket policy. The wire format is AWS's standard policy
//! document; the typed view is intentionally minimal and drops what is not
//! enforced (NotAction, NotResource, NotPrincipal, condition values, policy
//! variables).

use vstd::prelude::*;

use crate::json;
use crate::json::Json;
use crate::order;
use crate::text;

verus! {

/// A parsed bucket policy.
#[derive(Clone, Debug)]
pub struct Policy {
    pub version: String,
    pub statements: Vec<Statement>,
}

/// One statement of a policy.
#[derive(Clone, Debug)]
pub struct Statement {
    pub sid: Option<String>,
    pub effect: Effect,
    pub principal: Principal,
    pub action: Vec<String>,
    pub resource: Vec<String>,
    /// Raw condition block, unparsed. Presence means that the statement cannot be
    /// evaluated safely, so it matches nothing.
    pub condition: Option<Json>,
}

/// What a matching statement does.
#[derive(Clone, Copy, Debug, PartialEq, Eq, Structural)]
pub enum Effect {
    Allow,
    Deny,
}

/// Who a statement speaks of.
#[derive(Clone, Debug)]
pub enum Principal {
    /// `"Principal": "*"`: everyone, including anonymous callers.
    Anyone,
    /// `{"AWS": ["...", "..."]}`: an explicit list. Entries match literally or, for ARN
    /// shapes, by the tail segment after `user/` or `root/`.
    Aws(Vec<String>),
}

/// The names that a policy field lists: one string, or the strings of an array.
pub open spec fn names_in(v: Option<Json>) -> Seq<Seq<char>> {
    match v {
        Some(Json::Text(s)) => seq![s@],
        Some(Json::Array(items)) => json::texts(items@, items@.len()),
        _ => Seq::empty(),
    }
}

/// A mathematical principal: everyone (`None`) or the listed entries.
pub open spec fn principal_in(v: Option<Json>) -> Option<Option<Seq<Seq<char>>>> {
    match v {
        None => Some(None),
        Some(Json::Text(s)) => if s@ == "*"@ {
            Some(None)
        } else {
            None
        },
        Some(Json::Object(fields)) => Some(Some(names_in(json::field(fields@, "AWS"@)))),
        _ => None,
    }
}

impl Principal {
    /// The principal as a mathematical value.
    pub open spec fn entries(&self) -> Option<Seq<Seq<char>>> {
        match self {
            Principal::Anyone => None,
            Principal::Aws(list) => Some(order::views(list@)),
        }
    }
}

/// The effect named by a statement.
pub open spec fn effect_in(v: Option<Json>) -> Option<Effect> {
    match v {
        Some(Json::Text(s)) => if s@ == "Allow"@ {
            Some(Effect::Allow)
        } else if s@ == "Deny"@ {
            Some(Effect::Deny)
        } else {
            None
        },
        _ => None,
    }
}

/// The value is a statement that can be used.
pub open spec fn usable_statement(v: Json) -> bool {
    v matches Json::Object(fields) && {
        &&& effect_in(json::field(fields@, "Effect"@)) is Some
        &&& principal_in(json::field(fields@, "Principal"@)) is Some
        &&& names_in(json::field(fields@, "Action"@)).len() > 0
        &&& names_in(json::field(fields@, "Resource"@)).len() > 0
    }
}

/// `s` is the typed form of the statement `v`.
pub open spec fn is_statement(s: Statement, v: Json) -> bool {
    v matches Json::Object(fields) && {
        &&& s.sid matches Some(sid) ==> json::field(fields@, "Sid"@) matches Some(
            Json::Text(t),
        ) && t@ == sid@
        &&& s.sid is None ==> !(json::field(fields@, "Sid"@) matches Some(Json::Text(_)))
        &&& Some(s.effect) == effect_in(json::field(fields@, "Effect"@))
        &&& Some(s.principal.entries()) == principal_in(json::field(fields@, "Principal"@))
        &&& order::views(s.action@) == names_in(json::field(fields@, "Action"@))
        &&& order::views(s.resource@) == names_in(json::field(fields@, "Resource"@))
        &&& match json::field(fields@, "Condition"@) {
            None => s.condition is None,
            Some(Json::Null) => s.condition is None,
            Some(c) => s.condition matches Some(d) && json::same(c, d),
        }
    }
}

/// The usable statements among the first `n` values.
pub open spec fn usable(items: Seq<Json>, n: nat) -> Seq<Json>
    decreases n,
{
    if n == 0 {
        Seq::empty()
    } else if usable_statement(items[n - 1]) {
        usable(items, (n - 1) as nat).push(items[n - 1])
    } else {
        usable(items, (n - 1) as nat)
    }
}

/// The statements that a policy document lists: those of an array, or a single one.
pub open spec fn statements_in(v: Option<Json>) -> Seq<Json> {
    match v {
        Some(Json::Array(items)) => usable(items@, items@.len()),
        Some(Json::Object(fields)) => if usable_statement(v->0) {
            seq![v->0]
        } else {
            Seq::empty()
        },
        _ => Seq::empty(),
    }
}

/// The version that a policy document names, empty where it names none.
pub open spec fn version_in(fields: Seq<(String, Json)>) -> Seq<char> {
    match json::field(fields, "Version"@) {
        Some(Json::Text(s)) => s@,
        _ => Seq::empty(),
    }
}

/// The document is a policy: it names a version and holds a usable statement.
pub open spec fn is_policy(v: Json) -> bool {
    v matches Json::Object(fields) && version_in(fields@).len() > 0 && statements_in(
        json::field(fields@, "Statement"@),
    ).len() > 0
}

/// The policy is what the document states.
pub open spec fn is_reading(p: Policy, v: Json) -> bool {
    let fields = v->Object_0@;
    let stated = statements_in(json::field(fields, "Statement"@));
    &&& p.version@ == version_in(fields)
    &&& p.statements@.len() == stated.len()
    &&& forall|i: int|
        0 <= i < stated.len() ==> is_statement(#[trigger] p.statements@[i], stated[i])
}

impl Policy {
    /// Parses a stored policy document. `None` for null, empty and unrecognised
    /// documents, so that callers fall through to owner-only access.
    pub fn from_json(value: &Json) -> (r: Option<Policy>)
        ensures
            r is Some <==> is_policy(*value),
            r matches Some(p) ==> is_reading(p, *value),
    {
        let fields = match value {
            Json::Object(fields) => fields,
            _ => {
                return None;
            },
        };
        let version = match json::get(fields, "Version") {
            Some(Json::Text(s)) => s.clone(),
            _ => String::new(),
        };
        if version.as_str().is_empty() {
            return None;
        }
        let mut statements: Vec<Statement> = Vec::new();
        match json::get(fields, "Statement") {
            Some(Json::Array(items)) => {
                let mut i: usize = 0;
                while i < items.len()
                    invariant
                        i <= items@.len(),
                        statements@.len() == usable(items@, i as nat).len(),
                        forall|k: int|
                            0 <= k < statements@.len() ==> is_statement(
                                #[trigger] statements@[k],
                                usable(items@, i as nat)[k],
                            ),
                    decreases items@.len() - i,
                {
                    if let Some(s) = Self::parse_statement(&items[i]) {
                        statements.push(s);
                    }
                    i = i + 1;
                }
            },
            Some(single) => {
                match single {
                    Json::Object(_) => {
                        if let Some(s) = Self::parse_statement(single) {
                            statements.push(s);
                        }
                    },
                    _ => {
                        return None;
                    },
                }
            },
            None => {
                return None;
            },
        }
        if statements.is_empty() {
            return None;
        }
        Some(Policy { version, statements })
    }

    fn parse_statement(v: &Json) -> (r: Option<Statement>)
        ensures
            r is Some <==> usable_statement(*v),
            r matches Some(s) ==> is_statement(s, *v),
    {
        let fields = match v {
            Json::Object(fields) => fields,
            _ => {
                return None;
            },
        };
        let sid = match json::get(fields, "Sid") {
            Some(Json::Text(s)) => Some(s.clone()),
            _ => None,
        };
        let effect = match json::get(fields, "Effect") {
            Some(Json::Text(s)) => if text::str_eq(s.as_str(), "Allow") {
                Effect::Allow
            } else if text::str_eq(s.as_str(), "Deny") {
                Effect::Deny
            } else {
                return None;
            },
            _ => {
                return None;
            },
        };
        let principal = match parse_principal(json::get(fields, "Principal")) {
            Some(p) => p,
            None => {
                return None;
            },
        };
        let action = string_or_array(json::get(fields, "Action"));
        let resource = string_or_array(json::get(fields, "Resource"));
        if action.is_empty() || resource.is_empty() {
            return None;
        }
        let condition = match json::get(fields, "Condition") {
            None => None,
            Some(Json::Null) => None,
            Some(c) => Some(json::copy(c)),
        };
        Some(Statement { sid, effect, principal, action, resource, condition })
    }
}

fn parse_principal(v: Option<&Json>) -> (r: Option<Principal>)
    ensures
        r is Some <==> principal_in(json::deref(v)) is Some,
        r matches Some(p) ==> Some(p.entries()) == principal_in(json::deref(v)),
{
    match v {
        None => Some(Principal::Anyone),
        Some(Json::Text(s)) => if text::str_eq(s.as_str(), "*") {
            Some(Principal::Anyone)
        } else {
            None
        },
        Some(Json::Object(fields)) => Some(Principal::Aws(string_or_array(json::get(fields, "AWS")))),
        Some(_) => None,
    }
}

fn string_or_array(v: Option<&Json>) -> (r: Vec<String>)
    ensures
        order::views(r@) == names_in(json::deref(v)),
{
    let mut out: Vec<String> = Vec::new();
    match v {
        Some(Json::Text(s)) => {
            out.push(s.clone());
            assert(order::views(out@) =~= seq![s@]);
        },
        Some(Json::Array(items)) => {
            let mut i: usize = 0;
            assert(order::views(out@) =~= Seq::<Seq<char>>::empty());
            while i < items.len()
                invariant
                    i <= items@.len(),
                    order::views(out@) == json::texts(items@, i as nat),
                decreases items@.len() - i,
            {
                if let Json::Text(s) = &items[i] {
                    let ghost before = order::views(out@);
                    out.push(s.clone());
                    assert(order::views(out@) =~= before.push(s@));
                }
                i = i + 1;
            }
        },
        _ => {
            assert(order::views(out@) =~= Seq::<Seq<char>>::empty());
        },
    }
    out
}

} // verus!
