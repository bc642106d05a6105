//! What holds of the requests that read, write and delete objects.

use vstd::prelude::*;
use vstd::string::*;

use super::conditions;
use super::conditions::Verdict;
use super::objects;
use super::objects::{DeletePlan, Versioning};
use super::range;
use super::request;
use super::request::Header;
use super::settings;
use crate::split;
use crate::storage::{InfoModel, MetaModel, ObjectMeta};
use crate::text;
use crate::text_laws;

verus! {

// ------------------------------------------------------------------- headers

/// A request has a header with a value: the first one with the name has it, and it can be
/// read.
pub open spec fn has_value(
    headers: Seq<(Seq<char>, Option<Seq<char>>)>,
    name: Seq<char>,
    value: Seq<char>,
) -> bool {
    exists|i: int|
        {
            &&& 0 <= i < headers.len()
            &&& (#[trigger] headers[i]).0 == name
            &&& headers[i].1 == Some(value)
            &&& forall|j: int| 0 <= j < i ==> (#[trigger] headers[j]).0 != name
        }
}

/// A request has no header with a name.
pub open spec fn lacks(headers: Seq<(Seq<char>, Option<Seq<char>>)>, name: Seq<char>) -> bool {
    forall|i: int| 0 <= i < headers.len() ==> (#[trigger] headers[i]).0 != name
}

proof fn lemma_value(headers: Seq<(Seq<char>, Option<Seq<char>>)>, name: Seq<char>, i: int)
    requires
        0 <= i <= headers.len(),
        forall|j: int| 0 <= j < i ==> (#[trigger] headers[j]).0 != name,
    ensures
        i == headers.len() ==> request::value(headers, name) is None,
        i < headers.len() && headers[i].0 == name ==> request::value(headers, name)
            == headers[i].1,
    decreases headers.len(),
{
    if headers.len() > 0 && i > 0 {
        assert(headers[0].0 != name);
        let t = headers.drop_first();
        assert forall|j: int| 0 <= j < i - 1 implies (#[trigger] t[j]).0 != name by {
            assert(t[j] == headers[j + 1]);
        }
        lemma_value(t, name, i - 1);
        if i < headers.len() {
            assert(t[i - 1] == headers[i]);
        }
    }
}

proof fn lemma_no_value(headers: Seq<(Seq<char>, Option<Seq<char>>)>, name: Seq<char>)
    ensures
        request::value(headers, name) matches Some(v) ==> has_value(headers, name, v),
    decreases headers.len(),
{
    if headers.len() > 0 && headers[0].0 == name {
        if headers[0].1 is Some {
            assert(has_value(headers, name, headers[0].1->0));
        }
    } else if headers.len() > 0 {
        let t = headers.drop_first();
        lemma_no_value(t, name);
        if request::value(t, name) is Some {
            let v = request::value(t, name)->0;
            let i = choose|i: int|
                {
                    &&& 0 <= i < t.len()
                    &&& (#[trigger] t[i]).0 == name
                    &&& t[i].1 == Some(v)
                    &&& forall|j: int| 0 <= j < i ==> (#[trigger] t[j]).0 != name
                };
            assert(headers[i + 1] == t[i]);
            assert forall|j: int| 0 <= j < i + 1 implies (#[trigger] headers[j]).0 != name by {
                if j > 0 {
                    assert(t[j - 1] == headers[j]);
                }
            }
            assert(has_value(headers, name, v));
        }
    }
}

/// The value of a header is that of the first one with its name, and a header that is not
/// there has none.
pub proof fn law_first_header_counts(
    headers: Seq<(Seq<char>, Option<Seq<char>>)>,
    name: Seq<char>,
    value: Seq<char>,
)
    ensures
        request::value(headers, name) == Some(value) <==> has_value(headers, name, value),
        lacks(headers, name) ==> request::value(headers, name) is None,
        request::named(headers, name) <==> !lacks(headers, name),
{
    lemma_no_value(headers, name);
    if has_value(headers, name, value) {
        let i = choose|i: int|
            {
                &&& 0 <= i < headers.len()
                &&& (#[trigger] headers[i]).0 == name
                &&& headers[i].1 == Some(value)
                &&& forall|j: int| 0 <= j < i ==> (#[trigger] headers[j]).0 != name
            };
        lemma_value(headers, name, i);
    }
    if lacks(headers, name) {
        lemma_value(headers, name, headers.len() as int);
    }
}

/// Headers are judged by the names and values that they were sent with.
pub proof fn law_headers_are_taken_as_sent(h: Seq<Header>, i: int)
    requires
        0 <= i < h.len(),
    ensures
        request::header_views(h).len() == h.len(),
        request::header_views(h)[i].0 == h[i].name@,
        h[i].value is None ==> request::header_views(h)[i].1 is None,
        h[i].value is Some ==> request::header_views(h)[i].1 == Some(h[i].value->0@),
{
}

// ---------------------------------------------------------------- conditions

proof fn lemma_strip_lead(q: Seq<char>, s: Seq<char>)
    requires
        forall|i: int| 0 <= i < q.len() ==> #[trigger] q[i] == '"',
        s.len() == 0 || s[0] != '"',
    ensures
        split::without_leading(q + s, '"') == s,
    decreases q.len(),
{
    if q.len() == 0 {
        assert(q + s =~= s);
    } else {
        assert(q[0] == '"');
        let t = q.drop_first();
        assert forall|i: int| 0 <= i < t.len() implies #[trigger] t[i] == '"' by {
            assert(t[i] == q[i + 1]);
        }
        assert((q + s).drop_first() =~= t + s);
        lemma_strip_lead(t, s);
    }
}

proof fn lemma_strip_trail(s: Seq<char>, q: Seq<char>)
    requires
        forall|i: int| 0 <= i < q.len() ==> #[trigger] q[i] == '"',
        s.len() == 0 || s[s.len() - 1] != '"',
    ensures
        text::without_trailing(s + q, '"') == s,
    decreases q.len(),
{
    if q.len() == 0 {
        assert(s + q =~= s);
    } else {
        assert(q[q.len() - 1] == '"');
        let t = q.drop_last();
        assert forall|i: int| 0 <= i < t.len() implies #[trigger] t[i] == '"' by {
            assert(t[i] == q[i]);
        }
        assert((s + q).drop_last() =~= s + t);
        lemma_strip_trail(s, t);
    }
}

/// A tag: a text that is not empty and neither begins nor ends with white space or a quotation
/// mark.
pub open spec fn is_tag(s: Seq<char>) -> bool {
    s.len() > 0 && text_laws::tight(s) && s[0] != '"' && s[s.len() - 1] != '"'
}

/// A header that names a tag, with or without quotation marks and blanks around it, covers
/// the object with this tag and no other; one that names `*` covers every object.
pub proof fn law_tag_header_covers_its_object(
    before: Seq<char>,
    tag: Seq<char>,
    after: Seq<char>,
    etag: Seq<char>,
    quotes: bool,
)
    requires
        text_laws::blank(before),
        text_laws::blank(after),
        is_tag(tag),
        is_tag(etag),
    ensures
        conditions::covers(
            before + (if quotes {
                seq!['"'] + tag + seq!['"']
            } else {
                tag
            }) + after,
            etag,
        ) <==> tag == etag || tag == "*"@,
{
    let inner = if quotes {
        seq!['"'] + tag + seq!['"']
    } else {
        tag
    };
    assert(text_laws::tight(inner));
    text_laws::law_blanks_are_cut_off(before, inner, after);
    if quotes {
        assert(inner =~= seq!['"'] + (tag + seq!['"']));
        lemma_strip_lead(seq!['"'], tag + seq!['"']);
        lemma_strip_trail(tag, seq!['"']);
    } else {
        lemma_strip_lead(Seq::empty(), tag);
        assert(Seq::<char>::empty() + tag =~= tag);
        lemma_strip_trail(tag, Seq::empty());
        assert(tag + Seq::<char>::empty() =~= tag);
    }
    reveal_strlit("\"");
    assert(conditions::quoted(etag)[0] == '"');
}

/// A request is answered that nothing was modified only where the client's copy is current: a
/// header covers the object's tag, or names a moment at or after the object's date.
pub proof fn law_not_modified_means_a_current_copy(
    headers: Seq<(Seq<char>, Option<Seq<char>>)>,
    etag: Seq<char>,
    last_modified: u64,
)
    requires
        conditions::verdict(headers, etag, last_modified) is NotModified,
    ensures
        (exists|v: Seq<char>| #[trigger]
            has_value(headers, "if-none-match"@, v) && conditions::covers(v, etag)) || (exists|
            v: Seq<char>,
        | #[trigger]
            has_value(headers, "if-modified-since"@, v) && (super::dates::http_seconds(
                v,
            ) matches Some(since) && last_modified <= since)),
{
    lemma_no_value(headers, "if-none-match"@);
    lemma_no_value(headers, "if-modified-since"@);
}

/// A request fails its preconditions only where a header names another tag, or a moment before
/// the object's date.
pub proof fn law_failure_means_another_object(
    headers: Seq<(Seq<char>, Option<Seq<char>>)>,
    etag: Seq<char>,
    last_modified: u64,
)
    requires
        conditions::verdict(headers, etag, last_modified) is Failed,
    ensures
        (exists|v: Seq<char>| #[trigger]
            has_value(headers, "if-match"@, v) && !conditions::covers(v, etag)) || (exists|
            v: Seq<char>,
        | #[trigger]
            has_value(headers, "if-unmodified-since"@, v) && (super::dates::http_seconds(
                v,
            ) matches Some(since) && since < last_modified)),
{
    lemma_no_value(headers, "if-match"@);
    lemma_no_value(headers, "if-unmodified-since"@);
}

/// A client whose only condition is the date of its copy is sent the object exactly where the
/// object was modified since; one whose only condition is that it was not modified after a
/// date, exactly where it was not.
pub proof fn law_dates_alone_decide(
    headers: Seq<(Seq<char>, Option<Seq<char>>)>,
    etag: Seq<char>,
    last_modified: u64,
    v: Seq<char>,
    since: u64,
)
    requires
        lacks(headers, "if-none-match"@),
        lacks(headers, "if-match"@),
        super::dates::http_seconds(v) == Some(since),
    ensures
        has_value(headers, "if-modified-since"@, v) && lacks(headers, "if-unmodified-since"@) ==> (
        conditions::verdict(headers, etag, last_modified) == (if since < last_modified {
            Verdict::Proceed
        } else {
            Verdict::NotModified
        })),
        has_value(headers, "if-unmodified-since"@, v) && lacks(headers, "if-modified-since"@) ==> (
        conditions::verdict(headers, etag, last_modified) == (if since < last_modified {
            Verdict::Failed
        } else {
            Verdict::Proceed
        })),
{
    law_first_header_counts(headers, "if-none-match"@, v);
    law_first_header_counts(headers, "if-match"@, v);
    law_first_header_counts(headers, "if-modified-since"@, v);
    law_first_header_counts(headers, "if-unmodified-since"@, v);
}

/// A client whose only condition is a tag is served by it: `If-Match` lets it pass exactly
/// where the header covers the object, `If-None-Match` exactly where it does not.
pub proof fn law_tags_alone_decide(
    headers: Seq<(Seq<char>, Option<Seq<char>>)>,
    etag: Seq<char>,
    last_modified: u64,
    v: Seq<char>,
)
    requires
        lacks(headers, "if-modified-since"@),
        lacks(headers, "if-unmodified-since"@),
    ensures
        has_value(headers, "if-match"@, v) && lacks(headers, "if-none-match"@) ==> (
        conditions::verdict(headers, etag, last_modified) == (if conditions::covers(v, etag) {
            Verdict::Proceed
        } else {
            Verdict::Failed
        })),
        has_value(headers, "if-none-match"@, v) && lacks(headers, "if-match"@) ==> (
        conditions::verdict(headers, etag, last_modified) == (if conditions::covers(v, etag) {
            Verdict::NotModified
        } else {
            Verdict::Proceed
        })),
{
    law_first_header_counts(headers, "if-none-match"@, v);
    law_first_header_counts(headers, "if-match"@, v);
    law_first_header_counts(headers, "if-modified-since"@, v);
    law_first_header_counts(headers, "if-unmodified-since"@, v);
}

// -------------------------------------------------------------------- ranges

proof fn lemma_range_header(left: Seq<char>, right: Seq<char>)
    requires
        split::free_of(left, '-'),
        left.len() <= usize::MAX,
    ensures
        ({
            let h = "bytes="@ + left + seq!['-'] + right;
            &&& text::has_prefix(h, "bytes="@)
            &&& split::split_pair(h.skip("bytes="@.len() as int), '-') == Some((left, right))
        }),
{
    let h = "bytes="@ + left + seq!['-'] + right;
    assert(h.take("bytes="@.len() as int) =~= "bytes="@);
    assert(h.skip("bytes="@.len() as int) =~= left + seq!['-'] + right);
    split::lemma_split_at(left, '-', right);
}

proof fn lemma_plain_number(n: u64)
    ensures
        split::free_of(text::decimal(n as nat), '-'),
        text::decimal(n as nat).len() > 0,
        text::u64_value(text::decimal(n as nat)) == Some(n),
        text::decimal(n as nat).len() <= usize::MAX,
{
    text_laws::law_numbers_are_read_back(n);
    let d = text::decimal(n as nat);
    assert forall|i: int| 0 <= i < d.len() implies #[trigger] d[i] != '-' by {
        assert('0' <= d[i]);
    }
    assert(n < vstd::arithmetic::power::pow(10, 20)) by {
        reveal_with_fuel(vstd::arithmetic::power::pow, 22);
    }
    lemma_short_decimal(n as nat, 20);
}

proof fn lemma_short_decimal(n: nat, k: nat)
    requires
        k > 0,
        n < vstd::arithmetic::power::pow(10, k),
    ensures
        text::decimal(n).len() <= k,
    decreases k,
{
    reveal(vstd::arithmetic::power::pow);
    if n >= 10 {
        if k == 1 {
            assert(vstd::arithmetic::power::pow(10, 1) == 10) by {
                reveal_with_fuel(vstd::arithmetic::power::pow, 3);
            }
        } else {
            assert(n / 10 < vstd::arithmetic::power::pow(10, (k - 1) as nat)) by {
                assert(vstd::arithmetic::power::pow(10, k) == 10 * vstd::arithmetic::power::pow(
                    10,
                    (k - 1) as nat,
                ));
            }
            lemma_short_decimal(n / 10, (k - 1) as nat);
        }
    }
}

/// A request for the bytes from one number to another is given these, as far as they are
/// there. There is nothing for it where the first stands behind the last or behind the end.
pub proof fn law_stretch_is_found(first: u64, last: u64, total: int)
    requires
        total > 0,
    ensures
        range::range_of(
            "bytes="@ + text::decimal(first as nat) + seq!['-'] + text::decimal(last as nat),
            total,
        ) == (if first <= last && first < total {
            Some((first as int, if last < total {
                last as int
            } else {
                total - 1
            }))
        } else {
            None
        }),
{
    lemma_plain_number(first);
    lemma_plain_number(last);
    lemma_range_header(text::decimal(first as nat), text::decimal(last as nat));
}

/// A request for the bytes from a number on is given all from there; there is nothing for it
/// behind the end.
pub proof fn law_rest_is_found(first: u64, total: int)
    requires
        total > 0,
    ensures
        range::range_of("bytes="@ + text::decimal(first as nat) + seq!['-'], total) == (if first
            < total {
            Some((first as int, total - 1))
        } else {
            None
        }),
{
    lemma_plain_number(first);
    lemma_range_header(text::decimal(first as nat), Seq::empty());
    assert("bytes="@ + text::decimal(first as nat) + seq!['-'] + Seq::<char>::empty() =~= "bytes="@
        + text::decimal(first as nat) + seq!['-']);
}

/// A request for so many bytes at the end is given these, or the whole object where it has not
/// so many; there is nothing for no bytes.
pub proof fn law_tail_is_found(length: u64, total: int)
    requires
        total > 0,
    ensures
        range::range_of("bytes="@ + seq!['-'] + text::decimal(length as nat), total) == (if length
            == 0 {
            None
        } else if length < total {
            Some((total - length, total - 1))
        } else {
            Some((0, total - 1))
        }),
{
    lemma_plain_number(length);
    lemma_range_header(Seq::empty(), text::decimal(length as nat));
    assert("bytes="@ + Seq::<char>::empty() + seq!['-'] + text::decimal(length as nat)
        =~= "bytes="@ + seq!['-'] + text::decimal(length as nat));
}

// ------------------------------------------------------------------- answers

/// A pair stands among headers.
pub open spec fn tells(
    headers: Seq<(Seq<char>, Seq<char>)>,
    name: Seq<char>,
    value: Seq<char>,
) -> bool {
    headers.contains((name, value))
}

/// What is sent of an object are the bytes between the first and the last, both included, and
/// the answer tells how many they are, which they are of how many, and the object's tag, type
/// and date. Its metadata and its version come along.
pub proof fn law_part_is_sent_with_its_description(
    data: Seq<u8>,
    info: InfoModel,
    first: int,
    last: int,
    k: int,
)
    requires
        0 <= first <= last < data.len(),
        0 <= k < info.user_metadata.len(),
    ensures
        ({
            let r = objects::sent(data, info, Some((first, last)));
            &&& r.status == 206
            &&& r.body.len() == last - first + 1
            &&& forall|i: int| 0 <= i < r.body.len() ==> #[trigger] r.body[i] == data[first + i]
            &&& tells(r.headers, "Content-Length"@, text::decimal((last - first + 1) as nat))
            &&& tells(
                r.headers,
                "Content-Range"@,
                "bytes "@ + text::decimal(first as nat) + "-"@ + text::decimal(last as nat) + "/"@
                    + text::decimal(data.len()),
            )
            &&& tells(r.headers, "ETag"@, seq!['"'] + info.etag + seq!['"'])
            &&& tells(r.headers, "Content-Type"@, info.content_type)
            &&& tells(
                r.headers,
                "Last-Modified"@,
                super::dates::http_date(info.created_at as int),
            )
            &&& tells(r.headers, info.user_metadata[k].0, info.user_metadata[k].1)
            &&& info.version_id.len() > 0 ==> tells(
                r.headers,
                "x-amz-version-id"@,
                info.version_id,
            )
        }),
{
    lemma_description(data, info, Some((first, last)), k);
}

/// The whole of an object is sent as it is stored, with its length, tag, type, date, metadata
/// and version.
pub proof fn law_whole_is_sent_with_its_description(data: Seq<u8>, info: InfoModel, k: int)
    requires
        0 <= k < info.user_metadata.len(),
    ensures
        ({
            let r = objects::sent(data, info, None);
            &&& r.status == 200
            &&& r.body == data
            &&& tells(r.headers, "Content-Length"@, text::decimal(data.len()))
            &&& tells(r.headers, "ETag"@, seq!['"'] + info.etag + seq!['"'])
            &&& tells(r.headers, "Content-Type"@, info.content_type)
            &&& tells(
                r.headers,
                "Last-Modified"@,
                super::dates::http_date(info.created_at as int),
            )
            &&& tells(r.headers, info.user_metadata[k].0, info.user_metadata[k].1)
            &&& info.version_id.len() > 0 ==> tells(
                r.headers,
                "x-amz-version-id"@,
                info.version_id,
            )
        }),
{
    lemma_description(data, info, None, k);
}

proof fn lemma_quoted(s: Seq<char>)
    ensures
        conditions::quoted(s) == seq!['"'] + s + seq!['"'],
{
    reveal_strlit("\"");
    assert("\""@ =~= seq!['"']);
}

proof fn lemma_description(data: Seq<u8>, info: InfoModel, part: Option<(int, int)>, k: int)
    requires
        0 <= k < info.user_metadata.len(),
    ensures
        ({
            let r = objects::sent(data, info, part);
            &&& tells(r.headers, "Content-Length"@, text::decimal(r.body.len()))
            &&& tells(r.headers, "ETag"@, seq!['"'] + info.etag + seq!['"'])
            &&& tells(r.headers, "Content-Type"@, info.content_type)
            &&& tells(
                r.headers,
                "Last-Modified"@,
                super::dates::http_date(info.created_at as int),
            )
            &&& tells(r.headers, info.user_metadata[k].0, info.user_metadata[k].1)
            &&& info.version_id.len() > 0 ==> tells(
                r.headers,
                "x-amz-version-id"@,
                info.version_id,
            )
            &&& part matches Some((a, b)) ==> tells(
                r.headers,
                "Content-Range"@,
                objects::content_range(a, b, data.len() as int),
            )
        }),
{
    lemma_quoted(info.etag);
    let r = objects::sent(data, info, part);
    let base = objects::describing(info, r.body.len() as int);
    let ranged = match part {
        Some((a, b)) => seq![
            ("Content-Range"@, objects::content_range(a, b, data.len() as int)),
        ],
        None => Seq::empty(),
    };
    let versioned = if info.version_id.len() > 0 {
        seq![("x-amz-version-id"@, info.version_id)]
    } else {
        Seq::empty()
    };
    let m = info.user_metadata;
    let all = base + ranged + versioned + m;
    assert(r.headers == all);
    assert(base[0] == ("Content-Type"@, info.content_type));
    assert(base[1] == ("Content-Length"@, text::decimal(r.body.len())));
    assert(base[2] == ("ETag"@, seq!['"'] + info.etag + seq!['"']));
    assert(base[3] == ("Last-Modified"@, super::dates::http_date(info.created_at as int)));
    assert(all[0] == base[0] && all[1] == base[1] && all[2] == base[2] && all[3] == base[3]);
    assert(all[base.len() + ranged.len() + versioned.len() + k] == m[k]);
    if info.version_id.len() > 0 {
        assert(versioned[0] == ("x-amz-version-id"@, info.version_id));
        assert(all[base.len() + ranged.len() as int] == versioned[0]);
    }
    if part is Some {
        assert(all[base.len() as int] == ranged[0]);
    }
}

/// A request for the headers of an object is answered with the size, tag, type and date of the
/// object and all of its metadata, and without its bytes.
pub proof fn law_head_describes_the_object(
    headers: Seq<(Seq<char>, Option<Seq<char>>)>,
    info: InfoModel,
    k: int,
)
    requires
        lacks(headers, "if-none-match"@),
        lacks(headers, "if-match"@),
        lacks(headers, "if-modified-since"@),
        lacks(headers, "if-unmodified-since"@),
        0 <= k < info.user_metadata.len(),
    ensures
        objects::head_reply(headers, info) matches Ok(r) && {
            &&& r.status == 200
            &&& r.body.len() == 0
            &&& tells(r.headers, "Content-Length"@, text::decimal(info.size as nat))
            &&& tells(r.headers, "ETag"@, seq!['"'] + info.etag + seq!['"'])
            &&& tells(r.headers, "Content-Type"@, info.content_type)
            &&& tells(
                r.headers,
                "Last-Modified"@,
                super::dates::http_date(info.created_at as int),
            )
            &&& tells(r.headers, info.user_metadata[k].0, info.user_metadata[k].1)
        },
{
    lemma_unconditional(headers, info);
    lemma_quoted(info.etag);
    let base = objects::describing(info, info.size as int);
    let all = base + info.user_metadata;
    assert(base[0] == ("Content-Type"@, info.content_type));
    assert(base[1] == ("Content-Length"@, text::decimal(info.size as nat)));
    assert(base[2] == ("ETag"@, seq!['"'] + info.etag + seq!['"']));
    assert(base[3] == ("Last-Modified"@, super::dates::http_date(info.created_at as int)));
    assert(all[0] == base[0] && all[1] == base[1] && all[2] == base[2] && all[3] == base[3]);
    assert(all[base.len() + k] == info.user_metadata[k]);
}

proof fn lemma_unconditional(headers: Seq<(Seq<char>, Option<Seq<char>>)>, info: InfoModel)
    requires
        lacks(headers, "if-none-match"@),
        lacks(headers, "if-match"@),
        lacks(headers, "if-modified-since"@),
        lacks(headers, "if-unmodified-since"@),
    ensures
        conditions::verdict(headers, info.etag, info.created_at) is Proceed,
{
    let v = Seq::<char>::empty();
    law_first_header_counts(headers, "if-none-match"@, v);
    law_first_header_counts(headers, "if-match"@, v);
    law_first_header_counts(headers, "if-modified-since"@, v);
    law_first_header_counts(headers, "if-unmodified-since"@, v);
}

/// A read without conditions sends the whole object where it asks for no range, and otherwise
/// the stretch that it asks for, or the error that there is none.
pub proof fn law_read_sends_what_is_asked(
    headers: Seq<(Seq<char>, Option<Seq<char>>)>,
    data: Seq<u8>,
    info: InfoModel,
    first: u64,
    last: u64,
)
    requires
        lacks(headers, "if-none-match"@),
        lacks(headers, "if-match"@),
        lacks(headers, "if-modified-since"@),
        lacks(headers, "if-unmodified-since"@),
        data.len() > 0,
    ensures
        lacks(headers, "range"@) ==> (objects::get_reply(headers, data, info) matches Ok(r)
            && r.status == 200 && r.body == data),
        has_value(
            headers,
            "range"@,
            "bytes="@ + text::decimal(first as nat) + seq!['-'] + text::decimal(last as nat),
        ) ==> if first <= last && first < data.len() {
            objects::get_reply(headers, data, info) matches Ok(r) && r.status == 206 && r.body
                == data.subrange(first as int, if last < data.len() {
                last + 1
            } else {
                data.len() as int
            })
        } else {
            objects::get_reply(headers, data, info) matches Err(e) && e
                == super::errors::invalid_range()
        },
{
    lemma_unconditional(headers, info);
    let v = "bytes="@ + text::decimal(first as nat) + seq!['-'] + text::decimal(last as nat);
    law_first_header_counts(headers, "range"@, v);
    law_stretch_is_found(first, last, data.len() as int);
}

// ------------------------------------------------------------------- writing

/// The metadata of an object are the headers of the write whose lower-case names begin with
/// `x-amz-meta-`, as far as their values can be read, but for the two that choose the code.
pub proof fn law_metadata_is_what_the_headers_say(
    headers: Seq<(Seq<char>, Option<Seq<char>>)>,
    name: Seq<char>,
    value: Seq<char>,
)
    ensures
        objects::metadata(headers).contains((name, value)) <==> {
            &&& text::has_prefix(name, "x-amz-meta-"@)
            &&& name != "x-amz-meta-ec-data"@
            &&& name != "x-amz-meta-ec-parity"@
            &&& exists|i: int|
                0 <= i < headers.len() && text::lower_case((#[trigger] headers[i]).0) == name
                    && headers[i].1 == Some(value)
        },
    decreases headers.len(),
{
    if headers.len() > 0 {
        let d = headers.drop_last();
        law_metadata_is_what_the_headers_say(d, name, value);
        let before = objects::metadata(d);
        let now = objects::metadata(headers);
        let n = headers.len() - 1;
        if now.contains((name, value)) {
            let i = choose|i: int| 0 <= i < now.len() && now[i] == (name, value);
            if i < before.len() {
                assert(before[i] == (name, value));
                assert(before.contains((name, value)));
                let k = choose|k: int|
                    0 <= k < d.len() && text::lower_case((#[trigger] d[k]).0) == name && d[k].1
                        == Some(value);
                assert(headers[k] == d[k]);
            } else {
                assert(text::lower_case(headers[n].0) == name && headers[n].1 == Some(value));
            }
        }
        if text::has_prefix(name, "x-amz-meta-"@) && name != "x-amz-meta-ec-data"@ && name
            != "x-amz-meta-ec-parity"@ && exists|i: int|
            0 <= i < headers.len() && text::lower_case((#[trigger] headers[i]).0) == name
                && headers[i].1 == Some(value) {
            let i = choose|i: int|
                0 <= i < headers.len() && text::lower_case((#[trigger] headers[i]).0) == name
                    && headers[i].1 == Some(value);
            if i < n {
                assert(d[i] == headers[i]);
                assert(before.contains((name, value)));
                let k = choose|k: int| 0 <= k < before.len() && before[k] == (name, value);
                assert(now[k] == (name, value));
            } else {
                assert(now[now.len() - 1] == (name, value));
            }
        }
    }
}

/// A code is refused exactly where both of its counts are stated and there are no data shards,
/// or more shards than disks.
pub proof fn law_code_has_to_fit_the_disks(data: Option<usize>, parity: Option<usize>, disks: int)
    ensures
        objects::bad_code(data, parity, disks) <==> data is Some && parity is Some && (data->0 == 0
            || data->0 + parity->0 > disks),
{
}

/// A write is answered with the tag in quotation marks; where versions are kept, with the id
/// of the version, and where they no longer are, with the id `null`.
pub proof fn law_write_is_answered(mode: Versioning, version_id: Seq<char>, etag: Seq<char>)
    ensures
        ({
            let r = objects::put_reply(mode, version_id, etag);
            &&& r.status == 200
            &&& r.body.len() == 0
            &&& tells(r.headers, "ETag"@, seq!['"'] + etag + seq!['"'])
            &&& mode is Enabled ==> tells(r.headers, "x-amz-version-id"@, version_id)
            &&& mode is Suspended ==> tells(r.headers, "x-amz-version-id"@, "null"@)
            &&& mode is Off ==> r.headers.len() == 1
        }),
{
    lemma_quoted(etag);
    let r = objects::put_reply(mode, version_id, etag);
    assert(r.headers[0] == ("ETag"@, seq!['"'] + etag + seq!['"']));
    if !(mode is Off) {
        assert(r.headers[1].0 == "x-amz-version-id"@);
        assert(r.headers.contains(r.headers[1]));
    }
}

// ------------------------------------------------------------------ deleting

/// A delete marker on top leaves every version below as it was, but that none is the latest.
/// The marker itself holds nothing.
pub proof fn law_marker_leaves_the_versions(
    v: Seq<MetaModel>,
    marker_id: Seq<char>,
    now: u64,
    i: int,
)
    requires
        0 <= i < v.len(),
    ensures
        ({
            let w = objects::marked(v, marker_id, now);
            &&& w.len() == v.len() + 1
            &&& w[0].is_delete_marker && w[0].is_latest && w[0].version_id == marker_id
                && w[0].created_at == now && w[0].size == 0
            &&& w[i + 1].size == v[i].size
            &&& w[i + 1].etag == v[i].etag
            &&& w[i + 1].content_type == v[i].content_type
            &&& w[i + 1].created_at == v[i].created_at
            &&& w[i + 1].version_id == v[i].version_id
            &&& w[i + 1].is_delete_marker == v[i].is_delete_marker
            &&& w[i + 1].erasure == v[i].erasure
            &&& w[i + 1].checksum == v[i].checksum
            &&& w[i + 1].user_metadata == v[i].user_metadata
            &&& w[i + 1].tags == v[i].tags
            &&& !w[i + 1].is_latest
        }),
{
}

/// A read without a version id gets the newest version that is no delete marker and has an id.
pub proof fn law_newest_version_is_found(list: Seq<ObjectMeta>, i: int)
    requires
        0 <= i < list.len(),
        !list[i].is_delete_marker,
        list[i].version_id@.len() > 0,
        forall|j: int|
            0 <= j < i ==> (#[trigger] list[j]).is_delete_marker || list[j].version_id@.len() == 0,
    ensures
        objects::newest(list) == Some(list[i].version_id@),
    decreases list.len(),
{
    if i > 0 {
        assert(list[0].is_delete_marker || list[0].version_id@.len() == 0);
        let t = list.drop_first();
        assert forall|j: int| 0 <= j < i - 1 implies (#[trigger] t[j]).is_delete_marker
            || t[j].version_id@.len() == 0 by {
            assert(t[j] == list[j + 1]);
        }
        law_newest_version_is_found(t, i - 1);
        assert(t[i - 1] == list[i]);
    }
}

// ------------------------------------------------------------------- copying

/// The place of a copy names a bucket and a key, with or without slashes in front; the key
/// keeps its own.
pub proof fn law_copy_source_is_bucket_and_key(
    slashes: Seq<char>,
    bucket: Seq<char>,
    key: Seq<char>,
)
    requires
        forall|i: int| 0 <= i < slashes.len() ==> #[trigger] slashes[i] == '/',
        bucket.len() > 0,
        bucket.len() <= usize::MAX,
        split::free_of(bucket, '/'),
    ensures
        objects::source_of(slashes + bucket + seq!['/'] + key) == Some((bucket, key)),
{
    let rest = bucket + seq!['/'] + key;
    assert(bucket[0] != '/');
    assert(rest[0] == bucket[0]);
    lemma_slashes(slashes, rest);
    assert(slashes + bucket + seq!['/'] + key =~= slashes + rest);
    split::lemma_split_at(bucket, '/', key);
}

proof fn lemma_slashes(q: Seq<char>, s: Seq<char>)
    requires
        forall|i: int| 0 <= i < q.len() ==> #[trigger] q[i] == '/',
        s.len() > 0 && s[0] != '/',
    ensures
        split::without_leading(q + s, '/') == s,
    decreases q.len(),
{
    if q.len() == 0 {
        assert(q + s =~= s);
    } else {
        assert(q[0] == '/');
        let t = q.drop_first();
        assert forall|i: int| 0 <= i < t.len() implies #[trigger] t[i] == '/' by {
            assert(t[i] == q[i + 1]);
        }
        assert((q + s).drop_first() =~= t + s);
        lemma_slashes(t, s);
    }
}

/// A status that turns versioning on or off is one that means something, and the other way
/// round; no two statuses mean the same.
pub proof fn law_status_means_a_mode(status: Seq<char>)
    ensures
        settings::is_status(status) <==> objects::versioning_of(Some(status)) != Versioning::Off,
        objects::versioning_of(Some(status)) == Versioning::Enabled <==> status == "Enabled"@,
        objects::versioning_of(Some(status)) == Versioning::Suspended <==> status == "Suspended"@,
        objects::versioning_of(None) == Versioning::Off,
{
    reveal_strlit("Enabled");
    reveal_strlit("Suspended");
    assert("Enabled"@.len() == 7 && "Suspended"@.len() == 9);
}

/// A delete is answered without a body: with the version that was removed, or with the marker
/// that was put in its place.
pub proof fn law_delete_is_answered(v: String, marker_id: Seq<char>)
    ensures
        ({
            let r = objects::delete_reply(DeletePlan::Version(v), marker_id);
            r.status == 204 && r.body.len() == 0 && r.headers == seq![
                ("x-amz-version-id"@, v@),
            ]
        }),
        ({
            let r = objects::delete_reply(DeletePlan::Marker, marker_id);
            r.status == 204 && r.body.len() == 0 && r.headers == seq![
                ("x-amz-delete-marker"@, "true"@),
                ("x-amz-version-id"@, marker_id),
            ]
        }),
        ({
            let r = objects::delete_reply(DeletePlan::Remove, marker_id);
            r.status == 204 && r.body.len() == 0 && r.headers.len() == 0
        }),
{
}

} // verus!
