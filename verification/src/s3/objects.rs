//! Requests on objects: what they ask of the store, and what they are answered.

use vstd::prelude::*;
use vstd::string::*;

use super::conditions;
use super::conditions::Verdict;
use super::dates;
use super::errors;
use super::errors::{ErrorModel, S3Error};
use super::range;
use super::request;
use super::request::Header;
use crate::query;
use crate::split;
use crate::storage;
use crate::storage::{ErasureMeta, ErasureModel, InfoModel, MetaModel, ObjectInfo, ObjectMeta};
use crate::strmap::StringMap;
use crate::text;

verus! {

/// A response.
#[derive(Debug)]
pub struct Reply {
    pub status: u16,
    pub headers: Vec<(String, String)>,
    pub body: Vec<u8>,
}

/// A response as a mathematical value.
pub struct ReplyModel {
    pub status: u16,
    pub headers: Seq<(Seq<char>, Seq<char>)>,
    pub body: Seq<u8>,
}

impl View for Reply {
    type V = ReplyModel;

    open spec fn view(&self) -> ReplyModel {
        ReplyModel {
            status: self.status,
            headers: storage::pair_views(self.headers@),
            body: self.body@,
        }
    }
}

/// A response or an error, as a mathematical value.
pub open spec fn outcome(r: Result<Reply, S3Error>) -> Result<ReplyModel, ErrorModel> {
    match r {
        Ok(x) => Ok(x@),
        Err(e) => Err(e@),
    }
}

/// A response without a body.
pub open spec fn bare(status: u16, headers: Seq<(Seq<char>, Seq<char>)>) -> ReplyModel {
    ReplyModel { status, headers, body: Seq::empty() }
}

// ------------------------------------------------------------------- writing

/// How an object is to be stored.
#[derive(Debug)]
pub struct PutOptions {
    pub content_type: String,
    pub user_metadata: StringMap<String>,
    pub ec_data: Option<usize>,
    pub ec_parity: Option<usize>,
}

/// What a `PUT` of an object asks for.
pub enum PutPlan {
    /// A copy of the object at this place.
    Copy(String),
    /// An object with the body of the request.
    Store(PutOptions),
}

/// The metadata in the headers: every header `x-amz-meta-...` with a readable value, but
/// for the two that choose the erasure code.
pub open spec fn metadata(headers: Seq<(Seq<char>, Option<Seq<char>>)>) -> Seq<
    (Seq<char>, Seq<char>),
>
    decreases headers.len(),
{
    if headers.len() == 0 {
        Seq::empty()
    } else {
        let before = metadata(headers.drop_last());
        let name = text::lower_case(headers.last().0);
        if name == "x-amz-meta-ec-data"@ || name == "x-amz-meta-ec-parity"@ || !text::has_prefix(
            name,
            "x-amz-meta-"@,
        ) {
            before
        } else {
            match headers.last().1 {
                Some(v) => before.push((name, v)),
                None => before,
            }
        }
    }
}

/// The number in the last header with a name, whatever its case.
pub open spec fn number(
    headers: Seq<(Seq<char>, Option<Seq<char>>)>,
    name: Seq<char>,
) -> Option<usize>
    decreases headers.len(),
{
    if headers.len() == 0 {
        None
    } else if text::lower_case(headers.last().0) == name {
        match headers.last().1 {
            Some(v) => text::usize_value(v),
            None => None,
        }
    } else {
        number(headers.drop_last(), name)
    }
}

/// The erasure code that a request chooses does not fit the disks.
pub open spec fn bad_code(data: Option<usize>, parity: Option<usize>, disks: int) -> bool {
    match (data, parity) {
        (Some(d), Some(p)) => d == 0 || d + p > disks,
        _ => false,
    }
}

/// The place in an `x-amz-copy-source` header, decoded.
pub open spec fn copy_place(
    decoded: Seq<(Seq<char>, Seq<char>)>,
    source: Seq<char>,
) -> Seq<char> {
    if decoded.len() > 0 {
        decoded[0].0
    } else {
        source
    }
}

/// What the metadata headers of a request come to.
pub struct Choices {
    pub user_metadata: StringMap<String>,
    pub ec_data: Option<usize>,
    pub ec_parity: Option<usize>,
}

/// Reads the metadata headers of a request.
pub fn read_metadata(headers: &Vec<Header>) -> (r: Choices)
    ensures
        query::texts(r.user_metadata@) == query::by_name(
            metadata(request::header_views(headers@)),
        ),
        r.ec_data == number(request::header_views(headers@), "x-amz-meta-ec-data"@),
        r.ec_parity == number(request::header_views(headers@), "x-amz-meta-ec-parity"@),
{
    let ghost all = request::header_views(headers@);
    let mut pairs: Vec<(String, String)> = Vec::new();
    let mut ec_data: Option<usize> = None;
    let mut ec_parity: Option<usize> = None;
    let mut i: usize = 0;
    proof {
        assert(all.take(0) =~= Seq::empty());
        assert(storage::pair_views(pairs@) =~= Seq::empty());
        lemma_ec_names();
    }
    while i < headers.len()
        invariant
            i <= headers@.len(),
            all == request::header_views(headers@),
            storage::pair_views(pairs@) == metadata(all.take(i as int)),
            ec_data == number(all.take(i as int), "x-amz-meta-ec-data"@),
            ec_parity == number(all.take(i as int), "x-amz-meta-ec-parity"@),
            "x-amz-meta-ec-data"@ != "x-amz-meta-ec-parity"@,
        decreases headers@.len() - i,
    {
        proof {
            assert(all.take(i + 1).drop_last() =~= all.take(i as int));
            assert(all.take(i + 1).last() == all[i as int]);
        }
        let h = &headers[i];
        let name = text::to_lowercase(h.name.as_str());
        let amount: Option<usize> = match &h.value {
            Some(v) => text::parse_usize(v.as_str()),
            None => None,
        };
        if text::str_eq(name.as_str(), "x-amz-meta-ec-data") {
            ec_data = amount;
        } else if text::str_eq(name.as_str(), "x-amz-meta-ec-parity") {
            ec_parity = amount;
        } else if text::starts_with(name.as_str(), "x-amz-meta-") {
            if let Some(v) = &h.value {
                storage::push_pair(&mut pairs, name.as_str(), v.as_str());
            }
        }
        i = i + 1;
    }
    assert(all.take(i as int) =~= all);
    Choices { user_metadata: query::collect_pairs(pairs), ec_data, ec_parity }
}

proof fn lemma_ec_names()
    ensures
        "x-amz-meta-ec-data"@ != "x-amz-meta-ec-parity"@,
{
    reveal_strlit("x-amz-meta-ec-data");
    reveal_strlit("x-amz-meta-ec-parity");
    assert("x-amz-meta-ec-data"@.len() != "x-amz-meta-ec-parity"@.len());
}

/// The place that a copy takes its object from, before it is cut into bucket and key.
pub fn decode_copy_source(source: &str) -> (r: String)
    ensures
        r@ == copy_place(query::form_decoded(source@), source@),
{
    let pairs = query::form_pairs(source);
    let ghost pv = storage::pair_views(pairs@);
    if pairs.len() > 0 {
        assert(pv[0].0 == pairs@[0].0@);
        pairs[0].0.clone()
    } else {
        source.to_owned()
    }
}

/// Decides what a `PUT` of an object asks for.
pub fn plan_put(headers: &Vec<Header>, disks: usize) -> (r: Result<PutPlan, S3Error>)
    ensures
        ({
            let h = request::header_views(headers@);
            let data = number(h, "x-amz-meta-ec-data"@);
            let parity = number(h, "x-amz-meta-ec-parity"@);
            let source = request::value_or(h, "x-amz-copy-source"@, Seq::empty());
            match r {
                Ok(PutPlan::Copy(place)) => request::named(h, "x-amz-copy-source"@) && place@
                    == copy_place(query::form_decoded(source), source),
                Ok(PutPlan::Store(o)) => !request::named(h, "x-amz-copy-source"@) && !bad_code(
                    data,
                    parity,
                    disks as int,
                ) && o.content_type@ == request::value_or(
                    h,
                    "content-type"@,
                    "application/octet-stream"@,
                ) && query::texts(o.user_metadata@) == query::by_name(metadata(h))
                    && o.ec_data == data && o.ec_parity == parity,
                Err(e) => !request::named(h, "x-amz-copy-source"@) && bad_code(
                    data,
                    parity,
                    disks as int,
                ) && e@ == errors::invalid_request(),
            }
        }),
{
    if request::has_header(headers, "x-amz-copy-source") {
        let source = match request::header_value(headers, "x-amz-copy-source") {
            Some(v) => v.to_owned(),
            None => {
                let none = String::new();
                assert(none@ =~= Seq::<char>::empty());
                none
            },
        };
        return Ok(PutPlan::Copy(decode_copy_source(source.as_str())));
    }
    let content_type = match request::header_value(headers, "content-type") {
        Some(v) => v.to_owned(),
        None => "application/octet-stream".to_owned(),
    };
    let choices = read_metadata(headers);
    if let (Some(d), Some(p)) = (choices.ec_data, choices.ec_parity) {
        if d == 0 || d > disks || p > disks - d {
            return Err(S3Error::invalid_request());
        }
    }
    Ok(
        PutPlan::Store(
            PutOptions {
                content_type,
                user_metadata: choices.user_metadata,
                ec_data: choices.ec_data,
                ec_parity: choices.ec_parity,
            },
        ),
    )
}

/// What an upload in parts begins with.
#[derive(Debug)]
pub struct UploadOptions {
    pub content_type: String,
    pub user_metadata: StringMap<String>,
}

/// Every header `x-amz-meta-...` with a readable value.
pub open spec fn all_metadata(headers: Seq<(Seq<char>, Option<Seq<char>>)>) -> Seq<
    (Seq<char>, Seq<char>),
>
    decreases headers.len(),
{
    if headers.len() == 0 {
        Seq::empty()
    } else {
        let before = all_metadata(headers.drop_last());
        let name = text::lower_case(headers.last().0);
        match headers.last().1 {
            Some(v) => if text::has_prefix(name, "x-amz-meta-"@) {
                before.push((name, v))
            } else {
                before
            },
            None => before,
        }
    }
}

/// Reads what an upload in parts begins with.
pub fn plan_upload(headers: &Vec<Header>) -> (r: UploadOptions)
    ensures
        r.content_type@ == request::value_or(
            request::header_views(headers@),
            "content-type"@,
            "application/octet-stream"@,
        ),
        query::texts(r.user_metadata@) == query::by_name(
            all_metadata(request::header_views(headers@)),
        ),
{
    let ghost all = request::header_views(headers@);
    let mut pairs: Vec<(String, String)> = Vec::new();
    let mut i: usize = 0;
    proof {
        assert(all.take(0) =~= Seq::empty());
        assert(storage::pair_views(pairs@) =~= Seq::empty());
    }
    while i < headers.len()
        invariant
            i <= headers@.len(),
            all == request::header_views(headers@),
            storage::pair_views(pairs@) == all_metadata(all.take(i as int)),
        decreases headers@.len() - i,
    {
        proof {
            assert(all.take(i + 1).drop_last() =~= all.take(i as int));
            assert(all.take(i + 1).last() == all[i as int]);
        }
        let h = &headers[i];
        let name = text::to_lowercase(h.name.as_str());
        if let Some(v) = &h.value {
            if text::starts_with(name.as_str(), "x-amz-meta-") {
                storage::push_pair(&mut pairs, name.as_str(), v.as_str());
            }
        }
        i = i + 1;
    }
    assert(all.take(i as int) =~= all);
    let content_type = match request::header_value(headers, "content-type") {
        Some(v) => v.to_owned(),
        None => "application/octet-stream".to_owned(),
    };
    UploadOptions { content_type, user_metadata: query::collect_pairs(pairs) }
}

/// How a bucket keeps versions.
#[derive(Clone, Copy, Debug, PartialEq, Eq, Structural)]
pub enum Versioning {
    /// Every write makes a version.
    Enabled,
    /// Writes replace the version without a name.
    Suspended,
    /// There are no versions.
    Off,
}

/// What a versioning status means.
pub open spec fn versioning_of(status: Option<Seq<char>>) -> Versioning {
    if status == Some("Enabled"@) {
        Versioning::Enabled
    } else if status == Some("Suspended"@) {
        Versioning::Suspended
    } else {
        Versioning::Off
    }
}

/// Reads a versioning status.
pub fn read_versioning(status: &Option<String>) -> (r: Versioning)
    ensures
        r == versioning_of(storage::opt_view(*status)),
{
    match status {
        Some(s) => if text::str_eq(s.as_str(), "Enabled") {
            Versioning::Enabled
        } else if text::str_eq(s.as_str(), "Suspended") {
            Versioning::Suspended
        } else {
            Versioning::Off
        },
        None => Versioning::Off,
    }
}

/// The answer to a write.
pub open spec fn put_reply(
    mode: Versioning,
    version_id: Seq<char>,
    etag: Seq<char>,
) -> ReplyModel {
    let tag = seq![("ETag"@, conditions::quoted(etag))];
    bare(
        200,
        match mode {
            Versioning::Enabled => tag.push(("x-amz-version-id"@, version_id)),
            Versioning::Suspended => tag.push(("x-amz-version-id"@, "null"@)),
            Versioning::Off => tag,
        },
    )
}

/// Answers a write that the store has done.
pub fn answer_put(mode: Versioning, version_id: &str, etag: &str) -> (r: Reply)
    ensures
        r@ == put_reply(mode, version_id@, etag@),
{
    let mut headers: Vec<(String, String)> = Vec::new();
    assert(storage::pair_views(headers@) =~= Seq::empty());
    storage::push_pair(&mut headers, "ETag", conditions::quote(etag).as_str());
    assert(storage::pair_views(headers@) =~= seq![("ETag"@, conditions::quoted(etag@))]);
    match mode {
        Versioning::Enabled => storage::push_pair(&mut headers, "x-amz-version-id", version_id),
        Versioning::Suspended => storage::push_pair(&mut headers, "x-amz-version-id", "null"),
        Versioning::Off => {},
    }
    let r = Reply { status: 200, headers, body: Vec::new() };
    assert(r.body@ =~= Seq::<u8>::empty());
    r
}

// ------------------------------------------------------------------- reading

/// The newest version in a list that is an object: no delete marker, and with an id.
pub open spec fn newest(list: Seq<ObjectMeta>) -> Option<Seq<char>>
    decreases list.len(),
{
    if list.len() == 0 {
        None
    } else if !list[0].is_delete_marker && list[0].version_id@.len() > 0 {
        Some(list[0].version_id@)
    } else {
        newest(list.drop_first())
    }
}

/// The newest version that is an object, by the first disk that knows any version.
pub open spec fn latest(disks: Seq<Vec<ObjectMeta>>) -> Option<Seq<char>>
    decreases disks.len(),
{
    if disks.len() == 0 {
        None
    } else if disks[0]@.len() > 0 {
        newest(disks[0]@)
    } else {
        latest(disks.drop_first())
    }
}

fn find_newest(list: &Vec<ObjectMeta>) -> (r: Option<String>)
    ensures
        storage::opt_view(r) == newest(list@),
{
    let mut i: usize = 0;
    assert(list@.skip(0) =~= list@);
    while i < list.len()
        invariant
            i <= list@.len(),
            newest(list@) == newest(list@.skip(i as int)),
        decreases list@.len() - i,
    {
        if !list[i].is_delete_marker && !list[i].version_id.as_str().is_empty() {
            return Some(list[i].version_id.clone());
        }
        assert(list@.skip(i as int).drop_first() =~= list@.skip(i + 1));
        i = i + 1;
    }
    None
}

/// Finds the version that a read without a version id is answered from.
pub fn find_latest_version(disks: &Vec<Vec<ObjectMeta>>) -> (r: Option<String>)
    ensures
        storage::opt_view(r) == latest(disks@),
{
    let mut i: usize = 0;
    assert(disks@.skip(0) =~= disks@);
    while i < disks.len()
        invariant
            i <= disks@.len(),
            latest(disks@) == latest(disks@.skip(i as int)),
        decreases disks@.len() - i,
    {
        if disks[i].len() > 0 {
            return find_newest(&disks[i]);
        }
        assert(disks@.skip(i as int).drop_first() =~= disks@.skip(i + 1));
        i = i + 1;
    }
    None
}

/// The headers that describe an object, for a body of the given length.
pub open spec fn describing(info: InfoModel, length: int) -> Seq<(Seq<char>, Seq<char>)> {
    seq![
        ("Content-Type"@, info.content_type),
        ("Content-Length"@, text::decimal(length as nat)),
        ("ETag"@, conditions::quoted(info.etag)),
        ("Last-Modified"@, dates::http_date(info.created_at as int)),
        ("Accept-Ranges"@, "bytes"@),
    ]
}

fn describe(info: &ObjectInfo, length: u64) -> (r: Vec<(String, String)>)
    ensures
        storage::pair_views(r@) == describing(info@, length as int),
{
    let mut out: Vec<(String, String)> = Vec::new();
    assert(storage::pair_views(out@) =~= Seq::empty());
    storage::push_pair(&mut out, "Content-Type", info.content_type.as_str());
    storage::push_pair(&mut out, "Content-Length", text::decimal_u64(length).as_str());
    storage::push_pair(&mut out, "ETag", conditions::quote(info.etag.as_str()).as_str());
    storage::push_pair(
        &mut out,
        "Last-Modified",
        dates::format_http_date(info.created_at).as_str(),
    );
    storage::push_pair(&mut out, "Accept-Ranges", "bytes");
    assert(storage::pair_views(out@) =~= describing(info@, length as int));
    out
}

/// Which part of how much is sent.
pub open spec fn content_range(first: int, last: int, total: int) -> Seq<char> {
    "bytes "@ + text::decimal(first as nat) + "-"@ + text::decimal(last as nat) + "/"@
        + text::decimal(total as nat)
}

/// Writes down which part of how much is sent.
pub fn write_content_range(first: u64, last: u64, total: u64) -> (r: String)
    ensures
        r@ == content_range(first as int, last as int, total as int),
{
    let mut out = "bytes ".to_owned();
    out.append(text::decimal_u64(first).as_str());
    out.append("-");
    out.append(text::decimal_u64(last).as_str());
    out.append("/");
    out.append(text::decimal_u64(total).as_str());
    out
}

/// The answer that sends an object, or the part of it between two bytes.
pub open spec fn sent(
    data: Seq<u8>,
    info: InfoModel,
    part: Option<(int, int)>,
) -> ReplyModel {
    let body = match part {
        Some((a, b)) => data.subrange(a, b + 1),
        None => data,
    };
    let versioned = if info.version_id.len() > 0 {
        seq![("x-amz-version-id"@, info.version_id)]
    } else {
        Seq::empty()
    };
    let ranged = match part {
        Some((a, b)) => seq![("Content-Range"@, content_range(a, b, data.len() as int))],
        None => Seq::empty(),
    };
    ReplyModel {
        status: if part is Some {
            206
        } else {
            200
        },
        headers: describing(info, body.len() as int) + ranged + versioned + info.user_metadata,
        body,
    }
}

/// The answer to a read of an object.
pub open spec fn get_reply(
    headers: Seq<(Seq<char>, Option<Seq<char>>)>,
    data: Seq<u8>,
    info: InfoModel,
) -> Result<ReplyModel, ErrorModel> {
    match conditions::verdict(headers, info.etag, info.created_at) {
        Verdict::NotModified => Ok(
            bare(304, seq![("ETag"@, conditions::quoted(info.etag))]),
        ),
        Verdict::Failed => Err(errors::precondition_failed()),
        Verdict::Proceed => {
            let asked = request::value_or(headers, "range"@, Seq::empty());
            if asked.len() == 0 {
                Ok(sent(data, info, None))
            } else {
                match range::range_of(asked, data.len() as int) {
                    Some(part) => Ok(sent(data, info, Some(part))),
                    None => Err(errors::invalid_range()),
                }
            }
        },
    }
}

fn not_modified(etag: &str) -> (r: Reply)
    ensures
        r@ == bare(304, seq![("ETag"@, conditions::quoted(etag@))]),
{
    let mut headers: Vec<(String, String)> = Vec::new();
    assert(storage::pair_views(headers@) =~= Seq::empty());
    storage::push_pair(&mut headers, "ETag", conditions::quote(etag).as_str());
    assert(storage::pair_views(headers@) =~= seq![("ETag"@, conditions::quoted(etag@))]);
    let r = Reply { status: 304, headers, body: Vec::new() };
    assert(r.body@ =~= Seq::<u8>::empty());
    r
}

fn send(data: Vec<u8>, info: &ObjectInfo, part: Option<(u64, u64)>) -> (r: Reply)
    requires
        part matches Some((a, b)) ==> a <= b < data@.len(),
    ensures
        r@ == sent(
            data@,
            info@,
            match part {
                Some((a, b)) => Some((a as int, b as int)),
                None => None,
            },
        ),
{
    let total: u64 = data.len() as u64;
    assert(data.len() == data@.len());
    let ghost whole = data@;
    let (status, body): (u16, Vec<u8>) = match part {
        Some((a, b)) => {
            let mut cut: Vec<u8> = Vec::new();
            let mut i: usize = a as usize;
            while i <= b as usize
                invariant
                    a <= i <= b + 1,
                    b < data@.len(),
                    data@.len() <= usize::MAX,
                    cut@ == data@.subrange(a as int, i as int),
                decreases b + 1 - i,
            {
                cut.push(data[i]);
                i = i + 1;
                assert(cut@ =~= data@.subrange(a as int, i as int));
            }
            (206, cut)
        },
        None => (200, data),
    };
    assert(body.len() == body@.len());
    let mut headers = describe(info, body.len() as u64);
    let ghost base = describing(info@, body@.len() as int);
    if let Some((a, b)) = part {
        let text = write_content_range(a, b, total);
        storage::push_pair(&mut headers, "Content-Range", text.as_str());
    }
    let ghost ranged = match part {
        Some((a, b)) => seq![
            ("Content-Range"@, content_range(a as int, b as int, whole.len() as int)),
        ],
        None => Seq::empty(),
    };
    assert(storage::pair_views(headers@) =~= base + ranged);
    if !info.version_id.as_str().is_empty() {
        storage::push_pair(&mut headers, "x-amz-version-id", info.version_id.as_str());
    }
    let ghost versioned = if info@.version_id.len() > 0 {
        seq![("x-amz-version-id"@, info@.version_id)]
    } else {
        Seq::empty()
    };
    assert(storage::pair_views(headers@) =~= base + ranged + versioned);
    storage::push_pairs(&mut headers, &info.user_metadata);
    Reply { status, headers, body }
}

/// Answers a read of an object that the store has found.
pub fn answer_get(headers: &Vec<Header>, data: Vec<u8>, info: &ObjectInfo) -> (r: Result<
    Reply,
    S3Error,
>)
    ensures
        outcome(r) == get_reply(request::header_views(headers@), data@, info@),
{
    match conditions::check_preconditions(headers, info.etag.as_str(), info.created_at) {
        Verdict::NotModified => {
            return Ok(not_modified(info.etag.as_str()));
        },
        Verdict::Failed => {
            return Err(S3Error::precondition_failed());
        },
        Verdict::Proceed => {},
    }
    assert(data.len() == data@.len());
    match request::header_value(headers, "range") {
        Some(asked) => {
            if asked.is_empty() {
                return Ok(send(data, info, None));
            }
            match range::parse_range(asked, data.len() as u64) {
                Some(part) => {
                    proof {
                        range::law_range_is_inside(asked@, data@.len() as int);
                    }
                    Ok(send(data, info, Some(part)))
                },
                None => Err(S3Error::invalid_range()),
            }
        },
        None => Ok(send(data, info, None)),
    }
}

/// The answer to a request for the headers of an object.
pub open spec fn head_reply(
    headers: Seq<(Seq<char>, Option<Seq<char>>)>,
    info: InfoModel,
) -> Result<ReplyModel, ErrorModel> {
    match conditions::verdict(headers, info.etag, info.created_at) {
        Verdict::NotModified => Ok(
            bare(304, seq![("ETag"@, conditions::quoted(info.etag))]),
        ),
        Verdict::Failed => Err(errors::precondition_failed()),
        Verdict::Proceed => Ok(
            bare(200, describing(info, info.size as int) + info.user_metadata),
        ),
    }
}

/// Answers a request for the headers of an object.
pub fn answer_head(headers: &Vec<Header>, info: &ObjectInfo) -> (r: Result<Reply, S3Error>)
    ensures
        outcome(r) == head_reply(request::header_views(headers@), info@),
{
    match conditions::check_preconditions(headers, info.etag.as_str(), info.created_at) {
        Verdict::NotModified => Ok(not_modified(info.etag.as_str())),
        Verdict::Failed => Err(S3Error::precondition_failed()),
        Verdict::Proceed => {
            let mut list = describe(info, info.size);
            storage::push_pairs(&mut list, &info.user_metadata);
            let r = Reply { status: 200, headers: list, body: Vec::new() };
            assert(r.body@ =~= Seq::<u8>::empty());
            Ok(r)
        },
    }
}

// ------------------------------------------------------------------ deleting

/// What a `DELETE` of an object does.
#[derive(Debug, PartialEq, Eq)]
pub enum DeletePlan {
    /// It removes this version for good.
    Version(String),
    /// It puts a delete marker on top.
    Marker,
    /// It removes the object for good.
    Remove,
}

/// Decides what a `DELETE` of an object does, by the version that the request names and
/// the versioning of the bucket.
pub fn plan_delete(version_id: Option<&str>, mode: Versioning) -> (r: DeletePlan)
    ensures
        match r {
            DeletePlan::Version(v) => version_id matches Some(w) && v@ == w@,
            DeletePlan::Marker => version_id is None && mode != Versioning::Off,
            DeletePlan::Remove => version_id is None && mode == Versioning::Off,
        },
{
    match version_id {
        Some(v) => DeletePlan::Version(v.to_owned()),
        None => if mode == Versioning::Off {
            DeletePlan::Remove
        } else {
            DeletePlan::Marker
        },
    }
}

/// The answer to a delete.
pub open spec fn delete_reply(plan: DeletePlan, marker_id: Seq<char>) -> ReplyModel {
    bare(
        204,
        match plan {
            DeletePlan::Version(v) => seq![("x-amz-version-id"@, v@)],
            DeletePlan::Marker => seq![
                ("x-amz-delete-marker"@, "true"@),
                ("x-amz-version-id"@, marker_id),
            ],
            DeletePlan::Remove => Seq::empty(),
        },
    )
}

/// Answers a delete that the store has done.
pub fn answer_delete(plan: &DeletePlan, marker_id: &str) -> (r: Reply)
    ensures
        r@ == delete_reply(*plan, marker_id@),
{
    let mut headers: Vec<(String, String)> = Vec::new();
    assert(storage::pair_views(headers@) =~= Seq::empty());
    match plan {
        DeletePlan::Version(v) => {
            storage::push_pair(&mut headers, "x-amz-version-id", v.as_str());
        },
        DeletePlan::Marker => {
            storage::push_pair(&mut headers, "x-amz-delete-marker", "true");
            storage::push_pair(&mut headers, "x-amz-version-id", marker_id);
        },
        DeletePlan::Remove => {},
    }
    let r = Reply { status: 204, headers, body: Vec::new() };
    assert(r.body@ =~= Seq::<u8>::empty());
    assert(r@.headers =~= delete_reply(*plan, marker_id@).headers);
    r
}

/// The metadata of a delete marker.
pub open spec fn marker(marker_id: Seq<char>, now: u64) -> MetaModel {
    MetaModel {
        size: 0,
        etag: Seq::empty(),
        content_type: Seq::empty(),
        created_at: now,
        version_id: marker_id,
        is_latest: true,
        is_delete_marker: true,
        erasure: ErasureModel {
            data: 0,
            parity: 0,
            index: 0,
            distribution: Seq::empty(),
            epoch_id: 0,
            volume_ids: Seq::empty(),
        },
        checksum: Seq::empty(),
        user_metadata: Seq::empty(),
        tags: Seq::empty(),
    }
}

/// A version that is no longer the latest.
pub open spec fn outdated(m: MetaModel) -> MetaModel {
    MetaModel { is_latest: false, ..m }
}

/// The versions of an object as mathematical values.
pub open spec fn version_views(v: Seq<ObjectMeta>) -> Seq<MetaModel> {
    v.map_values(|m: ObjectMeta| m@)
}

/// The versions with a delete marker on top.
pub open spec fn marked(v: Seq<MetaModel>, marker_id: Seq<char>, now: u64) -> Seq<MetaModel> {
    seq![marker(marker_id, now)] + v.map_values(|m: MetaModel| outdated(m))
}

fn make_marker(marker_id: &str, now: u64) -> (r: ObjectMeta)
    ensures
        r@ == marker(marker_id@, now),
{
    let r = ObjectMeta {
        size: 0,
        etag: String::new(),
        content_type: String::new(),
        created_at: now,
        version_id: marker_id.to_owned(),
        is_latest: true,
        is_delete_marker: true,
        erasure: ErasureMeta {
            data: 0,
            parity: 0,
            index: 0,
            distribution: Vec::new(),
            epoch_id: 0,
            volume_ids: Vec::new(),
        },
        checksum: String::new(),
        user_metadata: Vec::new(),
        tags: Vec::new(),
    };
    proof {
        let want = marker(marker_id@, now);
        assert(r@.etag =~= want.etag);
        assert(r@.content_type =~= want.content_type);
        assert(r@.checksum =~= want.checksum);
        assert(r@.user_metadata =~= want.user_metadata);
        assert(r@.tags =~= want.tags);
        assert(r@.erasure.distribution =~= want.erasure.distribution);
        assert(r@.erasure.volume_ids =~= want.erasure.volume_ids);
    }
    r
}

/// Puts a delete marker on top of the versions of an object.
pub fn add_delete_marker(versions: &Vec<ObjectMeta>, marker_id: &str, now: u64) -> (r: Vec<
    ObjectMeta,
>)
    ensures
        version_views(r@) == marked(version_views(versions@), marker_id@, now),
{
    let mut out: Vec<ObjectMeta> = Vec::new();
    out.push(make_marker(marker_id, now));
    let ghost want = marked(version_views(versions@), marker_id@, now);
    let mut i: usize = 0;
    while i < versions.len()
        invariant
            i <= versions@.len(),
            out@.len() == i + 1,
            want == marked(version_views(versions@), marker_id@, now),
            forall|k: int| 0 <= k < out@.len() ==> (#[trigger] out@[k])@ == want[k],
        decreases versions@.len() - i,
    {
        let v = &versions[i];
        let next = ObjectMeta {
            size: v.size,
            etag: v.etag.clone(),
            content_type: v.content_type.clone(),
            created_at: v.created_at,
            version_id: v.version_id.clone(),
            is_latest: false,
            is_delete_marker: v.is_delete_marker,
            erasure: v.erasure.clone(),
            checksum: v.checksum.clone(),
            user_metadata: storage::clone_pairs(&v.user_metadata),
            tags: storage::clone_pairs(&v.tags),
        };
        assert(want[i + 1] == outdated(v@));
        out.push(next);
        i = i + 1;
    }
    assert(version_views(out@) =~= want);
    out
}

/// Under a delete marker no version is the latest, and the marker is.
pub proof fn law_marker_is_the_only_latest(v: Seq<MetaModel>, marker_id: Seq<char>, now: u64)
    ensures
        ({
            let w = marked(v, marker_id, now);
            &&& w.len() == v.len() + 1
            &&& forall|i: int| 0 <= i < w.len() ==> ((#[trigger] w[i]).is_latest <==> i == 0)
            &&& w[0].is_delete_marker
        }),
{
}

// ------------------------------------------------------------------- copying

/// Bucket and key of the place that a copy takes its object from.
pub open spec fn source_of(place: Seq<char>) -> Option<(Seq<char>, Seq<char>)> {
    split::split_pair(split::without_leading(place, '/'), '/')
}

/// Cuts the place that a copy takes its object from into bucket and key.
pub fn parse_copy_source(place: &str) -> (r: Result<(String, String), S3Error>)
    ensures
        match r {
            Ok(p) => source_of(place@) == Some((p.0@, p.1@)),
            Err(e) => source_of(place@) is None && e@ == errors::no_such_key(),
        },
{
    match split::split_once(split::trim_start_char(place, '/'), '/') {
        Some(p) => Ok(p),
        None => Err(S3Error::no_such_key()),
    }
}

} // verus!
