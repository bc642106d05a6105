//! What the S3 service asks of the store and answers, operation by operation.

use vstd::prelude::*;
use vstd::string::*;

use crate::json;
use crate::json::Json;
use crate::order;
use crate::query;
use crate::s3::listing;
use crate::s3::listing::KeyVersions;
use crate::s3::objects;
use crate::s3::objects::Versioning;
use crate::s3::settings;
use crate::storage;
use crate::storage::{
    BucketSettings, ListOptions, MetaModel, ObjectInfo, ObjectMeta, StorageError,
};
use crate::strmap::StringMap;
use crate::text;

verus! {

/// Accepts every bucket name that is not empty; the storage layer has rules of its own.
#[derive(Clone, Copy, Debug)]
pub struct RelaxedNameValidation;

impl RelaxedNameValidation {
    /// Whether a bucket name is accepted.
    pub fn validate_bucket_name(&self, name: &str) -> (r: bool)
        ensures
            r == (name@.len() > 0),
    {
        !name.is_empty()
    }
}

// -------------------------------------------------------------------- errors

/// An error of the service: its code, and a message where there is more to say.
#[derive(Debug, PartialEq, Eq)]
pub struct ServiceError {
    pub code: &'static str,
    pub message: Option<String>,
}

/// An error as a mathematical value.
pub struct FaultModel {
    pub code: Seq<char>,
    pub message: Option<Seq<char>>,
}

impl View for ServiceError {
    type V = FaultModel;

    open spec fn view(&self) -> FaultModel {
        FaultModel { code: self.code@, message: storage::opt_view(self.message) }
    }
}

/// An error without a message.
pub open spec fn plain_fault(code: Seq<char>) -> FaultModel {
    FaultModel { code, message: None }
}

/// An error with a message.
pub open spec fn fault(code: Seq<char>, message: Seq<char>) -> FaultModel {
    FaultModel { code, message: Some(message) }
}

fn plain(code: &'static str) -> (r: ServiceError)
    ensures
        r@ == plain_fault(code@),
{
    ServiceError { code, message: None }
}

fn telling(code: &'static str, message: &str) -> (r: ServiceError)
    ensures
        r@ == fault(code@, message@),
{
    ServiceError { code, message: Some(message.to_owned()) }
}

/// The error that reports a storage error.
pub open spec fn fault_of(e: StorageError) -> FaultModel {
    match e {
        StorageError::BucketNotFound => plain_fault("NoSuchBucket"@),
        StorageError::ObjectNotFound => plain_fault("NoSuchKey"@),
        StorageError::BucketExists => plain_fault("BucketAlreadyOwnedByYou"@),
        StorageError::BucketNotEmpty => plain_fault("BucketNotEmpty"@),
        StorageError::WriteQuorum => fault("ServiceUnavailable"@, "write quorum not met"@),
        StorageError::ReadQuorum => fault("ServiceUnavailable"@, "read quorum not met"@),
        StorageError::Bitrot => fault("InternalError"@, "data integrity error"@),
        StorageError::InvalidConfig(m) => fault("InvalidArgument"@, m@),
        StorageError::Io(_) => plain_fault("InternalError"@),
        StorageError::InvalidBucketName(m) => fault("InvalidBucketName"@, m@),
        StorageError::InvalidObjectKey(m) => fault("InvalidArgument"@, m@),
        StorageError::InvalidVersionId(m) => fault("InvalidArgument"@, m@),
        StorageError::InvalidUploadId(m) => fault("NoSuchUpload"@, m@),
        StorageError::Internal(m) => fault("InternalError"@, m@),
    }
}

/// The error that reports a storage error.
pub fn map_err(e: &StorageError) -> (r: ServiceError)
    ensures
        r@ == fault_of(*e),
{
    match e {
        StorageError::BucketNotFound => plain("NoSuchBucket"),
        StorageError::ObjectNotFound => plain("NoSuchKey"),
        StorageError::BucketExists => plain("BucketAlreadyOwnedByYou"),
        StorageError::BucketNotEmpty => plain("BucketNotEmpty"),
        StorageError::WriteQuorum => telling("ServiceUnavailable", "write quorum not met"),
        StorageError::ReadQuorum => telling("ServiceUnavailable", "read quorum not met"),
        StorageError::Bitrot => telling("InternalError", "data integrity error"),
        StorageError::InvalidConfig(m) => telling("InvalidArgument", m.as_str()),
        StorageError::Io(_) => plain("InternalError"),
        StorageError::InvalidBucketName(m) => telling("InvalidBucketName", m.as_str()),
        StorageError::InvalidObjectKey(m) => telling("InvalidArgument", m.as_str()),
        StorageError::InvalidVersionId(m) => telling("InvalidArgument", m.as_str()),
        StorageError::InvalidUploadId(m) => telling("NoSuchUpload", m.as_str()),
        StorageError::Internal(m) => telling("InternalError", m.as_str()),
    }
}

/// Whether a bucket that was asked for is there.
pub fn require_bucket(exists: bool) -> (r: Result<(), ServiceError>)
    ensures
        match r {
            Ok(_) => exists,
            Err(e) => !exists && e@ == plain_fault("NoSuchBucket"@),
        },
{
    if exists {
        Ok(())
    } else {
        Err(plain("NoSuchBucket"))
    }
}

// ---------------------------------------------------------------- conditions

/// What an `If-Match` or `If-None-Match` header asks for.
#[derive(Debug, PartialEq, Eq)]
pub enum TagCondition {
    Any,
    Tag(String),
}

/// The condition covers an object with the given tag.
pub open spec fn covers(c: TagCondition, etag: Seq<char>) -> bool {
    match c {
        TagCondition::Any => true,
        TagCondition::Tag(t) => t@ == etag,
    }
}

fn tag_covers(c: &TagCondition, etag: &str) -> (r: bool)
    ensures
        r == covers(*c, etag@),
{
    match c {
        TagCondition::Any => true,
        TagCondition::Tag(t) => text::str_eq(t.as_str(), etag),
    }
}

/// The conditions of a request; moments are in seconds since the epoch.
#[derive(Debug)]
pub struct Conditionals {
    pub if_match: Option<TagCondition>,
    pub if_none_match: Option<TagCondition>,
    pub if_modified_since: Option<i64>,
    pub if_unmodified_since: Option<i64>,
}

/// The error that the conditions of a request come to, if they do, for an object with the
/// given tag and date. A condition on the tag takes the place of the one on the date:
/// `If-Unmodified-Since` counts only without `If-Match`, and `If-Modified-Since` only without
/// `If-None-Match`. The first pair comes before the second.
pub open spec fn stopped(c: Conditionals, etag: Seq<char>, last_modified: int) -> Option<
    FaultModel,
> {
    if c.if_match matches Some(t) && !covers(t, etag) {
        Some(plain_fault("PreconditionFailed"@))
    } else if c.if_match is None && (c.if_unmodified_since matches Some(since) && last_modified
        > since) {
        Some(plain_fault("PreconditionFailed"@))
    } else if c.if_none_match matches Some(t) && covers(t, etag) {
        Some(plain_fault("NotModified"@))
    } else if c.if_none_match is None && (c.if_modified_since matches Some(since) && last_modified
        <= since) {
        Some(plain_fault("NotModified"@))
    } else {
        None
    }
}

/// Evaluates the conditions of a request.
pub fn check_conditionals(c: &Conditionals, etag: &str, last_modified: u64) -> (r: Result<
    (),
    ServiceError,
>)
    ensures
        match r {
            Ok(_) => stopped(*c, etag@, last_modified as int) is None,
            Err(e) => stopped(*c, etag@, last_modified as int) == Some(e@),
        },
{
    if let Some(t) = &c.if_match {
        if !tag_covers(t, etag) {
            return Err(plain("PreconditionFailed"));
        }
    } else if let Some(since) = c.if_unmodified_since {
        if last_modified as i128 > since as i128 {
            return Err(plain("PreconditionFailed"));
        }
    }
    if let Some(t) = &c.if_none_match {
        if tag_covers(t, etag) {
            return Err(plain("NotModified"));
        }
    } else if let Some(since) = c.if_modified_since {
        if last_modified as i128 <= since as i128 {
            return Err(plain("NotModified"));
        }
    }
    Ok(())
}

/// A failed precondition is reported before an object that was not modified.
pub proof fn law_failure_comes_first(c: Conditionals, etag: Seq<char>, last_modified: int)
    requires
        (c.if_match matches Some(t) && !covers(t, etag)) || (c.if_match is None
            && (c.if_unmodified_since matches Some(since) && last_modified > since)),
    ensures
        stopped(c, etag, last_modified) == Some(plain_fault("PreconditionFailed"@)),
{
}

/// Where a request states a condition on the tag, the condition of the same pair on the date
/// plays no part.
pub proof fn law_tags_outweigh_dates(
    a: Conditionals,
    b: Conditionals,
    etag: Seq<char>,
    last_modified: int,
)
    requires
        a.if_match == b.if_match,
        a.if_none_match == b.if_none_match,
        a.if_match is Some || a.if_unmodified_since == b.if_unmodified_since,
        a.if_none_match is Some || a.if_modified_since == b.if_modified_since,
    ensures
        stopped(a, etag, last_modified) == stopped(b, etag, last_modified),
{
}

// -------------------------------------------------------------------- ranges

/// The part of an object that a request asks for.
#[derive(Clone, Copy, Debug)]
pub enum ByteRange {
    /// From one byte to another, or to the end.
    Between { first: u64, last: Option<u64> },
    /// So many bytes at the end.
    Suffix { length: u64 },
}

/// First and last byte of what is sent. A range that begins behind the end sends the whole.
pub open spec fn part_of(range: ByteRange, total: int) -> Option<(int, int)> {
    match range {
        ByteRange::Between { first, last } => if first >= total {
            None
        } else {
            match last {
                Some(l) => Some((first as int, if l < total {
                    l as int
                } else {
                    total - 1
                })),
                None => Some((first as int, total - 1)),
            }
        },
        ByteRange::Suffix { length } => if length == 0 || total == 0 {
            None
        } else {
            Some((if length < total {
                total - length
            } else {
                0
            }, total - 1))
        },
    }
}

/// The range can be cut out of an object of the given size: it begins behind the end, or it
/// does not end before the byte in front of its first.
pub open spec fn readable(range: ByteRange, total: int) -> bool {
    match range {
        ByteRange::Between { first, last: Some(l) } => first >= total || first <= l + 1,
        _ => true,
    }
}

/// First and last byte of what is sent of an object of the given size.
pub fn resolve_range(range: ByteRange, total: u64) -> (r: Option<(u64, u64)>)
    requires
        readable(range, total as int),
    ensures
        match r {
            Some((a, b)) => part_of(range, total as int) == Some((a as int, b as int)) && a <= b + 1
                && b < total,
            None => part_of(range, total as int) is None,
        },
{
    match range {
        ByteRange::Between { first, last } => {
            if first >= total {
                return None;
            }
            let end: u64 = match last {
                Some(l) => if l < total {
                    l
                } else {
                    total - 1
                },
                None => total - 1,
            };
            Some((first, end))
        },
        ByteRange::Suffix { length } => {
            if length == 0 || total == 0 {
                return None;
            }
            let start: u64 = if length < total {
                total - length
            } else {
                0
            };
            Some((start, total - 1))
        },
    }
}

/// What is sent of an object, and the header that tells which part it is.
pub struct Slice {
    pub body: Vec<u8>,
    pub content_range: Option<String>,
}

/// These bytes are sent of the object, with this header to tell which part they are.
pub open spec fn sends(
    body: Seq<u8>,
    content_range: Option<Seq<char>>,
    data: Seq<u8>,
    range: Option<ByteRange>,
) -> bool {
    let part = match range {
        Some(x) => part_of(x, data.len() as int),
        None => None,
    };
    match part {
        Some((a, b)) => body == data.subrange(a, b + 1) && content_range == Some(
            objects::content_range(a, b, data.len() as int),
        ),
        None => body == data && content_range is None,
    }
}

/// Cuts out what a request asks for.
pub fn cut_range(data: Vec<u8>, range: Option<ByteRange>) -> (r: Slice)
    requires
        range matches Some(x) ==> readable(x, data@.len() as int),
    ensures
        sends(r.body@, storage::opt_view(r.content_range), data@, range),
{
    assert(data.len() == data@.len());
    let total: u64 = data.len() as u64;
    let part: Option<(u64, u64)> = match range {
        Some(x) => resolve_range(x, total),
        None => None,
    };
    match part {
        Some((a, b)) => {
            let mut body: Vec<u8> = Vec::new();
            let mut i: usize = a as usize;
            while i <= b as usize
                invariant
                    a <= i <= b + 1,
                    b < data@.len(),
                    data@.len() <= usize::MAX,
                    body@ == data@.subrange(a as int, i as int),
                decreases b + 1 - i,
            {
                body.push(data[i]);
                i = i + 1;
                assert(body@ =~= data@.subrange(a as int, i as int));
            }
            Slice { body, content_range: Some(objects::write_content_range(a, b, total)) }
        },
        None => Slice { body: data, content_range: None },
    }
}

// ------------------------------------------------------------------- objects

/// The content type that an object is stored with.
pub fn content_type_or_default(stated: &Option<String>) -> (r: String)
    ensures
        r@ == (match storage::opt_view(*stated) {
            Some(t) => if t.len() > 0 {
                t
            } else {
                "application/octet-stream"@
            },
            None => "application/octet-stream"@,
        }),
{
    match stated {
        Some(t) => if t.as_str().is_empty() {
            "application/octet-stream".to_owned()
        } else {
            t.clone()
        },
        None => "application/octet-stream".to_owned(),
    }
}

/// How many failures an object is to tolerate, where its metadata says so.
pub fn object_ftt(metadata: &StringMap<String>) -> (r: Option<usize>)
    ensures
        r == (match query::value_of(query::texts(metadata@), "ec-ftt"@) {
            Some(v) => text::usize_value(v),
            None => None,
        }),
{
    match query::lookup(metadata, "ec-ftt") {
        Some(v) => text::parse_usize(v),
        None => None,
    }
}

/// The version id that a write answers: that of the version, or the one without a name
/// where versioning is suspended.
pub open spec fn version_answered(version_id: Seq<char>, mode: Versioning) -> Option<Seq<char>> {
    if version_id.len() > 0 {
        Some(version_id)
    } else if mode == Versioning::Suspended {
        Some("null"@)
    } else {
        None
    }
}

/// The version id that a write answers.
pub fn put_version(version_id: &str, mode: Versioning) -> (r: Option<String>)
    ensures
        storage::opt_view(r) == version_answered(version_id@, mode),
{
    if !version_id.is_empty() {
        Some(version_id.to_owned())
    } else if mode == Versioning::Suspended {
        Some("null".to_owned())
    } else {
        None
    }
}

/// The version id that a read answers, where the object has one.
pub fn read_version(version_id: &str) -> (r: Option<String>)
    ensures
        storage::opt_view(r) == (if version_id@.len() > 0 {
            Some(version_id@)
        } else {
            None
        }),
{
    if version_id.is_empty() {
        None
    } else {
        Some(version_id.to_owned())
    }
}

/// What a read answers of an object.
#[derive(Debug)]
pub struct ObjectAnswer {
    /// What is sent of the object.
    pub body: Vec<u8>,
    pub content_length: u64,
    pub content_range: Option<String>,
    pub content_type: String,
    pub etag: String,
    pub last_modified: u64,
    /// The metadata of the object, where it has any.
    pub metadata: Option<Vec<(String, String)>>,
    pub version_id: Option<String>,
}

/// The answer describes the object.
pub open spec fn describes(a: ObjectAnswer, info: ObjectInfo) -> bool {
    &&& a.content_type@ == info.content_type@
    &&& a.etag@ == info.etag@
    &&& a.last_modified == info.created_at
    &&& match a.metadata {
        Some(m) => info.user_metadata@.len() > 0 && storage::pair_views(m@)
            == storage::pair_views(info.user_metadata@),
        None => info.user_metadata@.len() == 0,
    }
    &&& storage::opt_view(a.version_id) == (if info.version_id@.len() > 0 {
        Some(info.version_id@)
    } else {
        None
    })
}

fn describe(slice: Slice, content_length: u64, info: &ObjectInfo) -> (a: ObjectAnswer)
    ensures
        a.body == slice.body,
        a.content_length == content_length,
        a.content_range == slice.content_range,
        describes(a, *info),
{
    let metadata: Option<Vec<(String, String)>> = if info.user_metadata.len() == 0 {
        None
    } else {
        Some(storage::clone_pairs(&info.user_metadata))
    };
    ObjectAnswer {
        body: slice.body,
        content_length,
        content_range: slice.content_range,
        content_type: info.content_type.clone(),
        etag: info.etag.clone(),
        last_modified: info.created_at,
        metadata,
        version_id: read_version(info.version_id.as_str()),
    }
}

/// Answers a request to read an object: what it asks for of the object, unless its
/// conditions stop it.
pub fn answer_get(
    data: Vec<u8>,
    info: &ObjectInfo,
    c: &Conditionals,
    range: Option<ByteRange>,
) -> (r: Result<ObjectAnswer, ServiceError>)
    requires
        range matches Some(x) ==> readable(x, data@.len() as int),
    ensures
        match r {
            Ok(a) => {
                &&& stopped(*c, info.etag@, info.created_at as int) is None
                &&& describes(a, *info)
                &&& sends(a.body@, storage::opt_view(a.content_range), data@, range)
                &&& a.content_length == a.body@.len()
            },
            Err(e) => stopped(*c, info.etag@, info.created_at as int) == Some(e@),
        },
{
    match check_conditionals(c, info.etag.as_str(), info.created_at) {
        Ok(_) => {
            let slice = cut_range(data, range);
            let length: u64 = slice.body.len() as u64;
            Ok(describe(slice, length, info))
        },
        Err(e) => Err(e),
    }
}

/// Answers a request for what is known of an object: the same as a read of the whole, but
/// for the bytes.
pub fn answer_head(info: &ObjectInfo, c: &Conditionals) -> (r: Result<ObjectAnswer, ServiceError>)
    ensures
        match r {
            Ok(a) => {
                &&& stopped(*c, info.etag@, info.created_at as int) is None
                &&& describes(a, *info)
                &&& a.body@.len() == 0
                &&& a.content_range is None
                &&& a.content_length == info.size
            },
            Err(e) => stopped(*c, info.etag@, info.created_at as int) == Some(e@),
        },
{
    match check_conditionals(c, info.etag.as_str(), info.created_at) {
        Ok(_) => Ok(describe(Slice { body: Vec::new(), content_range: None }, info.size, info)),
        Err(e) => Err(e),
    }
}

/// What a request asks to list.
pub fn list_options(prefix: &Option<String>, delimiter: &Option<String>, max_keys: Option<i32>) -> (
r: ListOptions)
    ensures
        r.prefix@ == text_or_none(*prefix),
        r.delimiter@ == text_or_none(*delimiter),
        r.max_keys == (match max_keys {
            Some(n) => n as usize,
            None => 1000usize,
        }),
{
    ListOptions {
        prefix: own_text(prefix),
        delimiter: own_text(delimiter),
        max_keys: match max_keys {
            Some(n) => n as usize,
            None => 1000,
        },
    }
}

/// A text, empty where there is none.
pub open spec fn text_or_none(s: Option<String>) -> Seq<char> {
    match s {
        Some(t) => t@,
        None => Seq::empty(),
    }
}

fn own_text(s: &Option<String>) -> (r: String)
    ensures
        r@ == text_or_none(*s),
{
    match s {
        Some(t) => t.clone(),
        None => {
            let none = String::new();
            assert(none@ =~= Seq::<char>::empty());
            none
        },
    }
}

/// What became of one of many deletes.
pub struct DeleteOutcome {
    pub key: String,
    pub failure: Option<StorageError>,
}

/// One of many deletes that failed: the key, and the message that stands for code and
/// message alike.
#[derive(Debug, PartialEq, Eq)]
pub struct DeleteFailure {
    pub key: String,
    pub message: Option<String>,
}

/// The deletes that failed among the first `n`.
pub open spec fn failures(d: Seq<DeleteOutcome>, n: nat) -> Seq<(Seq<char>, Option<Seq<char>>)>
    decreases n,
{
    if n == 0 {
        Seq::empty()
    } else {
        match d[n - 1].failure {
            Some(e) => failures(d, (n - 1) as nat).push((d[n - 1].key@, fault_of(e).message)),
            None => failures(d, (n - 1) as nat),
        }
    }
}

/// The keys that are gone among the first `n`.
pub open spec fn successes(d: Seq<DeleteOutcome>, n: nat) -> Seq<Seq<char>>
    decreases n,
{
    if n == 0 {
        Seq::empty()
    } else if d[n - 1].failure is None {
        successes(d, (n - 1) as nat).push(d[n - 1].key@)
    } else {
        successes(d, (n - 1) as nat)
    }
}

/// Failures as mathematical values.
pub open spec fn failure_views(v: Seq<DeleteFailure>) -> Seq<(Seq<char>, Option<Seq<char>>)> {
    v.map_values(|f: DeleteFailure| (f.key@, storage::opt_view(f.message)))
}

/// Parts many deletes into the keys that are gone and the failures.
pub fn delete_outcomes(done: &Vec<DeleteOutcome>) -> (r: (Vec<String>, Vec<DeleteFailure>))
    ensures
        order::views(r.0@) == successes(done@, done@.len()),
        failure_views(r.1@) == failures(done@, done@.len()),
{
    let mut deleted: Vec<String> = Vec::new();
    let mut errors: Vec<DeleteFailure> = Vec::new();
    let mut i: usize = 0;
    assert(order::views(deleted@) =~= Seq::<Seq<char>>::empty());
    assert(failure_views(errors@) =~= Seq::<(Seq<char>, Option<Seq<char>>)>::empty());
    while i < done.len()
        invariant
            i <= done@.len(),
            order::views(deleted@) == successes(done@, i as nat),
            failure_views(errors@) == failures(done@, i as nat),
        decreases done@.len() - i,
    {
        let ghost before = order::views(deleted@);
        let ghost failed = failure_views(errors@);
        let d = &done[i];
        match &d.failure {
            None => {
                deleted.push(d.key.clone());
                assert(order::views(deleted@) =~= before.push(d.key@));
            },
            Some(e) => {
                let report = map_err(e);
                errors.push(DeleteFailure { key: d.key.clone(), message: report.message });
                assert(failure_views(errors@) =~= failed.push((d.key@, fault_of(*e).message)));
            },
        }
        i = i + 1;
    }
    (deleted, errors)
}

/// The version id that a listing shows: an object without one has the id `null`.
pub open spec fn listed_version(m: MetaModel) -> Seq<char> {
    if m.version_id.len() == 0 && !m.is_delete_marker {
        "null"@
    } else {
        m.version_id
    }
}

/// A version or a delete marker in a listing.
#[derive(Debug)]
pub struct ListedVersion {
    pub key: String,
    pub version_id: String,
    pub is_latest: bool,
    pub last_modified: u64,
    pub etag: String,
    pub size: u64,
}

/// The entry lists this version of the key.
pub open spec fn lists_version(e: ListedVersion, key: Seq<char>, m: MetaModel) -> bool {
    &&& e.key@ == key
    &&& e.version_id@ == listed_version(m)
    &&& e.is_latest == m.is_latest
    &&& e.last_modified == m.created_at
    &&& e.etag@ == m.etag
    &&& e.size == m.size
}

/// The entries list these versions.
pub open spec fn lists_all(entries: Seq<ListedVersion>, want: Seq<(Seq<char>, MetaModel)>) -> bool {
    &&& entries.len() == want.len()
    &&& forall|i: int|
        0 <= i < entries.len() ==> lists_version(#[trigger] entries[i], want[i].0, want[i].1)
}

fn list_version(key: &str, m: &ObjectMeta) -> (e: ListedVersion)
    ensures
        lists_version(e, key@, m@),
{
    let version_id = if m.version_id.as_str().is_empty() && !m.is_delete_marker {
        "null".to_owned()
    } else {
        m.version_id.clone()
    };
    ListedVersion {
        key: key.to_owned(),
        version_id,
        is_latest: m.is_latest,
        last_modified: m.created_at,
        etag: m.etag.clone(),
        size: m.size,
    }
}

/// Parts the versions that the store found into objects and delete markers.
pub fn list_versions(found: &Vec<KeyVersions>) -> (r: (Vec<ListedVersion>, Vec<ListedVersion>))
    ensures
        lists_all(r.0@, listing::all_picked(found@, false, found@.len())),
        lists_all(r.1@, listing::all_picked(found@, true, found@.len())),
{
    let mut versions: Vec<ListedVersion> = Vec::new();
    let mut markers: Vec<ListedVersion> = Vec::new();
    let mut i: usize = 0;
    while i < found.len()
        invariant
            i <= found@.len(),
            lists_all(versions@, listing::all_picked(found@, false, i as nat)),
            lists_all(markers@, listing::all_picked(found@, true, i as nat)),
        decreases found@.len() - i,
    {
        let key = found[i].key.as_str();
        let list = &found[i].versions;
        let ghost v0 = listing::all_picked(found@, false, i as nat);
        let ghost m0 = listing::all_picked(found@, true, i as nat);
        let mut k: usize = 0;
        assert(v0 + listing::picked(key@, list@, false, 0) =~= v0);
        assert(m0 + listing::picked(key@, list@, true, 0) =~= m0);
        while k < list.len()
            invariant
                k <= list@.len(),
                lists_all(versions@, v0 + listing::picked(key@, list@, false, k as nat)),
                lists_all(markers@, m0 + listing::picked(key@, list@, true, k as nat)),
            decreases list@.len() - k,
        {
            let m = &list[k];
            let ghost va = v0 + listing::picked(key@, list@, false, k as nat);
            let ghost vb = v0 + listing::picked(key@, list@, false, (k + 1) as nat);
            let ghost ma = m0 + listing::picked(key@, list@, true, k as nat);
            let ghost mb = m0 + listing::picked(key@, list@, true, (k + 1) as nat);
            if m.is_delete_marker {
                markers.push(list_version(key, m));
                assert(mb =~= ma.push((key@, m@)));
                assert(vb =~= va);
            } else {
                versions.push(list_version(key, m));
                assert(vb =~= va.push((key@, m@)));
                assert(mb =~= ma);
            }
            k = k + 1;
        }
        i = i + 1;
    }
    (versions, markers)
}

/// The parts that a request asks to assemble: a missing number counts as zero, a missing
/// tag as empty.
pub fn requested_parts(parts: &Vec<(Option<i32>, Option<String>)>) -> (r: Vec<(i32, String)>)
    ensures
        r@.len() == parts@.len(),
        forall|i: int|
            0 <= i < r@.len() ==> (#[trigger] r@[i]).0 == (match parts@[i].0 {
                Some(n) => n,
                None => 0i32,
            }) && r@[i].1@ == text_or_none(parts@[i].1),
{
    let mut out: Vec<(i32, String)> = Vec::new();
    while out.len() < parts.len()
        invariant
            out@.len() <= parts@.len(),
            forall|i: int|
                0 <= i < out@.len() ==> (#[trigger] out@[i]).0 == (match parts@[i].0 {
                    Some(n) => n,
                    None => 0i32,
                }) && out@[i].1@ == text_or_none(parts@[i].1),
        decreases parts@.len() - out@.len(),
    {
        let i: usize = out.len();
        let number: i32 = match parts[i].0 {
            Some(n) => n,
            None => 0,
        };
        out.push((number, own_text(&parts[i].1)));
    }
    out
}

// ------------------------------------------------------------------ settings

/// The tags that have a key and a value.
pub open spec fn complete(tags: Seq<(Option<String>, Option<String>)>, n: nat) -> Seq<
    (Seq<char>, Seq<char>),
>
    decreases n,
{
    if n == 0 {
        Seq::empty()
    } else {
        match tags[n - 1] {
            (Some(k), Some(v)) => complete(tags, (n - 1) as nat).push((k@, v@)),
            _ => complete(tags, (n - 1) as nat),
        }
    }
}

/// Collects tags; of two values under one key the later counts, and a tag that lacks its
/// key or its value does not count at all.
pub fn collect_tags(tags: &Vec<(Option<String>, Option<String>)>) -> (r: StringMap<String>)
    ensures
        query::texts(r@) == query::by_name(complete(tags@, tags@.len())),
{
    let mut pairs: Vec<(String, String)> = Vec::new();
    let mut i: usize = 0;
    assert(storage::pair_views(pairs@) =~= Seq::<(Seq<char>, Seq<char>)>::empty());
    while i < tags.len()
        invariant
            i <= tags@.len(),
            storage::pair_views(pairs@) == complete(tags@, i as nat),
        decreases tags@.len() - i,
    {
        if let Some(k) = &tags[i].0 {
            if let Some(v) = &tags[i].1 {
                storage::push_pair(&mut pairs, k.as_str(), v.as_str());
            }
        }
        i = i + 1;
    }
    query::collect_pairs(pairs)
}

/// The settings, or those of a new bucket where they cannot be read.
fn settings_or_default(settings: Option<BucketSettings>) -> (r: BucketSettings)
    ensures
        r == known(settings),
{
    match settings {
        Some(s) => s,
        None => BucketSettings::default(),
    }
}

/// The settings, or those of a new bucket where they cannot be read.
pub open spec fn known(settings: Option<BucketSettings>) -> BucketSettings {
    match settings {
        Some(s) => s,
        None => BucketSettings {
            ftt: None,
            versioning: None,
            policy: None,
            lifecycle: None,
            tags: None,
        },
    }
}

/// The settings with other tags.
pub fn with_tags(settings: Option<BucketSettings>, tags: Vec<(String, String)>) -> (r:
    BucketSettings)
    ensures
        r == (BucketSettings { tags: Some(tags), ..known(settings) }),
{
    let mut s = settings_or_default(settings);
    s.tags = Some(tags);
    s
}

/// The settings with another policy; `Json::Null` takes it away.
pub fn with_policy(settings: Option<BucketSettings>, policy: Json) -> (r: BucketSettings)
    ensures
        r == (BucketSettings { policy: Some(policy), ..known(settings) }),
{
    let mut s = settings_or_default(settings);
    s.policy = Some(policy);
    s
}

/// The settings with other lifecycle rules, or with none.
pub fn with_lifecycle(settings: Option<BucketSettings>, lifecycle: Option<String>) -> (r:
    BucketSettings)
    ensures
        r == (BucketSettings { lifecycle, ..known(settings) }),
{
    let mut s = settings_or_default(settings);
    s.lifecycle = lifecycle;
    s
}

/// The tags of a bucket, in the order in which they are stored.
pub fn bucket_tags(settings: &BucketSettings) -> (r: Vec<(String, String)>)
    ensures
        storage::pair_views(r@) == (match settings.tags {
            Some(t) => storage::pair_views(t@),
            None => Seq::empty(),
        }),
{
    match &settings.tags {
        Some(t) => storage::clone_pairs(t),
        None => {
            let none: Vec<(String, String)> = Vec::new();
            assert(storage::pair_views(none@) =~= Seq::<(Seq<char>, Seq<char>)>::empty());
            none
        },
    }
}

/// The policy of a bucket, where it has one.
pub fn bucket_policy(settings: &BucketSettings) -> (r: Result<&Json, ServiceError>)
    ensures
        match r {
            Ok(p) => settings.policy == Some(*p) && !(*p is Null),
            Err(e) => (settings.policy is None || settings.policy == Some(Json::Null)) && e@
                == plain_fault("NoSuchBucketPolicy"@),
        },
{
    match &settings.policy {
        Some(Json::Null) => Err(plain("NoSuchBucketPolicy")),
        Some(p) => Ok(p),
        None => Err(plain("NoSuchBucketPolicy")),
    }
}

/// Checks a policy that a request sets, where its text is a document at all.
pub fn check_policy(doc: &Option<Json>) -> (r: Result<(), ServiceError>)
    ensures
        match r {
            Ok(_) => *doc matches Some(d) && settings::states_version(d),
            Err(e) => match *doc {
                None => e@ == fault("MalformedPolicy"@, "invalid JSON"@),
                Some(d) => !settings::states_version(d) && e@ == fault(
                    "MalformedPolicy"@,
                    "missing or empty Version field"@,
                ),
            },
        },
{
    match doc {
        None => Err(telling("MalformedPolicy", "invalid JSON")),
        Some(d) => if settings::has_version(d) {
            Ok(())
        } else {
            Err(telling("MalformedPolicy", "missing or empty Version field"))
        },
    }
}

/// Reads and checks the policy that a request sets.
pub fn read_policy(text: &[u8]) -> (r: Result<Json, ServiceError>)
    ensures
        match r {
            Ok(d) => settings::states_version(d) && (json::json_in(text@) matches Some(j)
                && json::same(d, j)),
            Err(e) => match json::json_in(text@) {
                None => e@ == fault("MalformedPolicy"@, "invalid JSON"@),
                Some(j) => !settings::states_version(j) && e@ == fault(
                    "MalformedPolicy"@,
                    "missing or empty Version field"@,
                ),
            },
        },
{
    let doc = json::parse(text);
    proof {
        if doc is Some {
            settings::lemma_same_version(doc->0, json::json_in(text@)->0);
        }
    }
    match check_policy(&doc) {
        Ok(_) => match doc {
            Some(d) => Ok(d),
            None => Err(telling("MalformedPolicy", "invalid JSON")),
        },
        Err(e) => Err(e),
    }
}

/// The lifecycle rules of a bucket, where it has any.
pub fn bucket_lifecycle(settings: &BucketSettings) -> (r: Result<&str, ServiceError>)
    ensures
        match r {
            Ok(t) => storage::opt_view(settings.lifecycle) == Some(t@) && t@.len() > 0,
            Err(e) => !(storage::opt_view(settings.lifecycle) matches Some(t) && t.len() > 0) && e@
                == plain_fault("NoSuchLifecycleConfiguration"@),
        },
{
    match &settings.lifecycle {
        Some(t) => if t.as_str().is_empty() {
            Err(plain("NoSuchLifecycleConfiguration"))
        } else {
            Ok(t.as_str())
        },
        None => Err(plain("NoSuchLifecycleConfiguration")),
    }
}

/// Checks a versioning status that a request sets.
pub fn check_versioning(status: &Option<String>) -> (r: Result<String, ServiceError>)
    ensures
        match r {
            Ok(s) => storage::opt_view(*status) == Some(s@) && settings::is_status(s@),
            Err(e) => !(storage::opt_view(*status) matches Some(s) && settings::is_status(s)) && e@
                == fault("MalformedXML"@, "invalid versioning status"@),
        },
{
    match settings::check_versioning(status) {
        Ok(s) => Ok(s),
        Err(_) => Err(telling("MalformedXML", "invalid versioning status")),
    }
}

/// Where a bucket that was created is found.
pub fn location(bucket: &str) -> (r: String)
    ensures
        r@ == "/"@ + bucket@,
{
    let mut out = "/".to_owned();
    out.append(bucket);
    out
}

} // verus!
