//! Conditional requests.

use vstd::prelude::*;
use vstd::string::*;

use super::dates;
use super::request;
use super::request::Header;
use crate::split;
use crate::text;

verus! {

/// What the conditions of a request come to.
#[derive(Clone, Copy, Debug, PartialEq, Eq, Structural)]
pub enum Verdict {
    /// The request goes on.
    Proceed,
    /// The client has the object already.
    NotModified,
    /// A condition does not hold.
    Failed,
}

/// A text in quotation marks.
pub open spec fn quoted(s: Seq<char>) -> Seq<char> {
    "\""@ + s + "\""@
}

/// Puts a text in quotation marks.
pub fn quote(s: &str) -> (r: String)
    ensures
        r@ == quoted(s@),
{
    let mut out = "\"".to_owned();
    out.append(s);
    out.append("\"");
    out
}

/// The value of `If-Match` or `If-None-Match` covers the object: it names its tag, or any.
pub open spec fn covers(v: Seq<char>, etag: Seq<char>) -> bool {
    let w = split::stripped(text::trimmed(v), '"');
    w == etag || w == quoted(etag) || w == "*"@
}

fn tag_covers(v: &str, etag: &str) -> (r: bool)
    ensures
        r == covers(v@, etag@),
{
    let w = split::trim_char(text::trim(v), '"');
    text::str_eq(w, etag) || text::str_eq(w, quote(etag).as_str()) || text::str_eq(w, "*")
}

/// The moment in a header, where one is there and can be read.
pub open spec fn date_in(
    headers: Seq<(Seq<char>, Option<Seq<char>>)>,
    name: Seq<char>,
) -> Option<u64> {
    match request::value(headers, name) {
        Some(v) => dates::http_seconds(v),
        None => None,
    }
}

fn header_date(headers: &Vec<Header>, name: &str) -> (r: Option<u64>)
    ensures
        r == date_in(request::header_views(headers@), name@),
{
    match request::header_value(headers, name) {
        Some(v) => dates::parse_http_date(v),
        None => None,
    }
}

/// What the conditional headers come to, for an object with the given tag and date. They
/// are looked at in this order, and the first that decides does.
pub open spec fn verdict(
    headers: Seq<(Seq<char>, Option<Seq<char>>)>,
    etag: Seq<char>,
    last_modified: u64,
) -> Verdict {
    if request::value(headers, "if-none-match"@) matches Some(v) && covers(v, etag) {
        Verdict::NotModified
    } else if date_in(headers, "if-modified-since"@) matches Some(since) && last_modified <= since {
        Verdict::NotModified
    } else if request::value(headers, "if-match"@) matches Some(v) && !covers(v, etag) {
        Verdict::Failed
    } else if date_in(headers, "if-unmodified-since"@) matches Some(since) && last_modified
        > since {
        Verdict::Failed
    } else {
        Verdict::Proceed
    }
}

/// Evaluates the conditional headers of a request.
pub fn check_preconditions(headers: &Vec<Header>, etag: &str, last_modified: u64) -> (r: Verdict)
    ensures
        r == verdict(request::header_views(headers@), etag@, last_modified),
{
    if let Some(v) = request::header_value(headers, "if-none-match") {
        if tag_covers(v, etag) {
            return Verdict::NotModified;
        }
    }
    if let Some(since) = header_date(headers, "if-modified-since") {
        if last_modified <= since {
            return Verdict::NotModified;
        }
    }
    if let Some(v) = request::header_value(headers, "if-match") {
        if !tag_covers(v, etag) {
            return Verdict::Failed;
        }
    }
    if let Some(since) = header_date(headers, "if-unmodified-since") {
        if last_modified > since {
            return Verdict::Failed;
        }
    }
    Verdict::Proceed
}

/// A request without conditional headers always goes on.
pub proof fn law_unconditional_request_proceeds(
    headers: Seq<(Seq<char>, Option<Seq<char>>)>,
    etag: Seq<char>,
    last_modified: u64,
)
    requires
        request::value(headers, "if-none-match"@) is None,
        request::value(headers, "if-modified-since"@) is None,
        request::value(headers, "if-match"@) is None,
        request::value(headers, "if-unmodified-since"@) is None,
    ensures
        verdict(headers, etag, last_modified) == Verdict::Proceed,
{
}

} // verus!
