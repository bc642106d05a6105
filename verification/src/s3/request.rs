//! An HTTP request as the rules read it.

use vstd::prelude::*;
use vstd::string::*;

use crate::text;

verus! {

/// The method of a request.
#[derive(Clone, Copy, Debug, PartialEq, Eq, Structural)]
pub enum Method {
    Get,
    Put,
    Post,
    Delete,
    Head,
    Other,
}

/// A header; its value is missing where it is no readable text.
#[derive(Clone, Debug)]
pub struct Header {
    pub name: String,
    pub value: Option<String>,
}

/// A request without its body.
#[derive(Clone, Debug)]
pub struct Request {
    /// The method as it was sent.
    pub verb: String,
    /// The path, with its leading slash.
    pub path: String,
    /// The query, without its question mark.
    pub query: String,
    pub headers: Vec<Header>,
}

/// Headers as mathematical values.
pub open spec fn header_views(h: Seq<Header>) -> Seq<(Seq<char>, Option<Seq<char>>)> {
    h.map_values(
        |x: Header|
            (
                x.name@,
                match x.value {
                    Some(v) => Some(v@),
                    None => None,
                },
            ),
    )
}

/// The method that a word names.
pub open spec fn method_of(verb: Seq<char>) -> Method {
    if verb == "GET"@ {
        Method::Get
    } else if verb == "PUT"@ {
        Method::Put
    } else if verb == "POST"@ {
        Method::Post
    } else if verb == "DELETE"@ {
        Method::Delete
    } else if verb == "HEAD"@ {
        Method::Head
    } else {
        Method::Other
    }
}

/// Reads the method.
pub fn parse_method(verb: &str) -> (r: Method)
    ensures
        r == method_of(verb@),
{
    if text::str_eq(verb, "GET") {
        Method::Get
    } else if text::str_eq(verb, "PUT") {
        Method::Put
    } else if text::str_eq(verb, "POST") {
        Method::Post
    } else if text::str_eq(verb, "DELETE") {
        Method::Delete
    } else if text::str_eq(verb, "HEAD") {
        Method::Head
    } else {
        Method::Other
    }
}

/// The value of the first header with a name: nothing where there is no such header, or
/// where its value is no readable text.
pub open spec fn value(headers: Seq<(Seq<char>, Option<Seq<char>>)>, name: Seq<char>) -> Option<
    Seq<char>,
>
    decreases headers.len(),
{
    if headers.len() == 0 {
        None
    } else if headers[0].0 == name {
        headers[0].1
    } else {
        value(headers.drop_first(), name)
    }
}

/// A header with the name is there.
pub open spec fn named(headers: Seq<(Seq<char>, Option<Seq<char>>)>, name: Seq<char>) -> bool {
    exists|i: int| 0 <= i < headers.len() && (#[trigger] headers[i]).0 == name
}

/// Where the first header with a name stands.
fn position(headers: &Vec<Header>, name: &str) -> (r: Option<usize>)
    ensures
        match r {
            Some(i) => i < headers@.len() && headers@[i as int].name@ == name@ && value(
                header_views(headers@),
                name@,
            ) == header_views(headers@)[i as int].1,
            None => value(header_views(headers@), name@) is None && !named(
                header_views(headers@),
                name@,
            ),
        },
{
    let ghost all = header_views(headers@);
    let mut i: usize = 0;
    assert(all.skip(0) =~= all);
    while i < headers.len()
        invariant
            i <= headers@.len(),
            all == header_views(headers@),
            value(all, name@) == value(all.skip(i as int), name@),
            forall|j: int| 0 <= j < i ==> (#[trigger] all[j]).0 != name@,
        decreases headers@.len() - i,
    {
        if text::str_eq(headers[i].name.as_str(), name) {
            assert(all.skip(i as int)[0] == all[i as int]);
            return Some(i);
        }
        assert(all[i as int].0 == headers@[i as int].name@);
        assert(all.skip(i as int).drop_first() =~= all.skip(i + 1));
        i = i + 1;
    }
    None
}

/// The value of the first header with a name, where it is readable.
pub fn header_value<'a>(headers: &'a Vec<Header>, name: &str) -> (r: Option<&'a str>)
    ensures
        match r {
            Some(v) => value(header_views(headers@), name@) == Some(v@),
            None => value(header_views(headers@), name@) is None,
        },
{
    match position(headers, name) {
        Some(i) => match &headers[i].value {
            Some(v) => Some(v.as_str()),
            None => None,
        },
        None => None,
    }
}

/// Whether a header with the name is there.
pub fn has_header(headers: &Vec<Header>, name: &str) -> (r: bool)
    ensures
        r == named(header_views(headers@), name@),
{
    match position(headers, name) {
        Some(i) => {
            assert(header_views(headers@)[i as int].0 == name@);
            true
        },
        None => false,
    }
}

/// The value under a name, or another text where there is none.
pub open spec fn value_or(
    headers: Seq<(Seq<char>, Option<Seq<char>>)>,
    name: Seq<char>,
    other: Seq<char>,
) -> Seq<char> {
    match value(headers, name) {
        Some(v) => v,
        None => other,
    }
}

} // verus!
