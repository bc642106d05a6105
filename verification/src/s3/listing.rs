//! Requests that list buckets, objects and versions, or delete many objects.

use vstd::prelude::*;
use vstd::string::*;

use super::conditions;
use super::dates;
use super::errors;
use super::response::{
    default_owner, BucketXml, Buckets, CopyObjectResultXml, DeleteErrorXml, DeleteMarkerXml,
    DeleteResult, DeletedXml, ListAllMyBucketsResult, ListBucketResultV2, ListVersionsResultXml,
    ObjectXml, PartXml, PrefixXml, UploadXml, VersionXml, S3_XMLNS,
};
use crate::multipart::{PartMeta, UploadMeta};
use crate::order;
use crate::query;
use crate::storage;
use crate::storage::{BucketInfo, ListOptions, Listing, ObjectInfo, ObjectMeta, StorageError};
use crate::strmap::StringMap;
use crate::text;

verus! {

// ------------------------------------------------------------------- buckets

/// The entries list these buckets.
pub open spec fn lists_buckets(entries: Seq<BucketXml>, buckets: Seq<BucketInfo>) -> bool {
    &&& entries.len() == buckets.len()
    &&& forall|i: int|
        0 <= i < entries.len() ==> (#[trigger] entries[i]).name@ == buckets[i].name@
            && entries[i].creation_date@ == dates::timestamp(buckets[i].created_at as int)
}

/// Lists the buckets that the store holds.
pub fn list_buckets(buckets: &Vec<BucketInfo>) -> (r: ListAllMyBucketsResult)
    ensures
        r.xmlns@ == S3_XMLNS@,
        r.owner.id@ == "abixio"@,
        r.owner.display_name@ == "abixio"@,
        lists_buckets(r.buckets.bucket@, buckets@),
{
    let mut out: Vec<BucketXml> = Vec::new();
    while out.len() < buckets.len()
        invariant
            out@.len() <= buckets@.len(),
            forall|i: int|
                0 <= i < out@.len() ==> (#[trigger] out@[i]).name@ == buckets@[i].name@
                    && out@[i].creation_date@ == dates::timestamp(buckets@[i].created_at as int),
        decreases buckets@.len() - out@.len(),
    {
        let b = &buckets[out.len()];
        out.push(
            BucketXml {
                name: b.name.clone(),
                creation_date: dates::format_timestamp(b.created_at),
            },
        );
    }
    ListAllMyBucketsResult {
        xmlns: S3_XMLNS.to_owned(),
        owner: default_owner(),
        buckets: Buckets { bucket: out },
    }
}

// ------------------------------------------------------------------- objects

/// The text under a name, empty where there is none.
pub open spec fn text_under(m: Map<Seq<char>, Seq<char>>, name: Seq<char>) -> Seq<char> {
    match query::value_of(m, name) {
        Some(v) => v,
        None => Seq::empty(),
    }
}

/// How many keys a request asks for at most: a thousand where it does not say.
pub open spec fn keys_asked(m: Map<Seq<char>, Seq<char>>) -> usize {
    match query::value_of(m, "max-keys"@) {
        Some(v) => match text::usize_value(v) {
            Some(n) => n,
            None => 1000,
        },
        None => 1000,
    }
}

/// The text under a name, empty where there is none.
pub fn text_or_empty(params: &StringMap<String>, name: &str) -> (r: String)
    ensures
        r@ == text_under(query::texts(params@), name@),
{
    match query::lookup(params, name) {
        Some(v) => v.to_owned(),
        None => {
            let none = String::new();
            assert(none@ =~= Seq::<char>::empty());
            none
        },
    }
}

/// How many keys a request asks for at most.
pub fn max_keys(params: &StringMap<String>) -> (r: usize)
    ensures
        r == keys_asked(query::texts(params@)),
{
    match query::lookup(params, "max-keys") {
        Some(v) => match text::parse_usize(v) {
            Some(n) => n,
            None => 1000,
        },
        None => 1000,
    }
}

/// What a request asks to list.
pub fn list_options(params: &StringMap<String>) -> (r: ListOptions)
    ensures
        r.prefix@ == text_under(query::texts(params@), "prefix"@),
        r.delimiter@ == text_under(query::texts(params@), "delimiter"@),
        r.max_keys == keys_asked(query::texts(params@)),
{
    ListOptions {
        prefix: text_or_empty(params, "prefix"),
        delimiter: text_or_empty(params, "delimiter"),
        max_keys: max_keys(params),
    }
}

/// The entry lists this object.
pub open spec fn lists_object(e: ObjectXml, o: ObjectInfo) -> bool {
    &&& e.key@ == o.key@
    &&& e.last_modified@ == dates::timestamp(o.created_at as int)
    &&& e.etag@ == conditions::quoted(o.etag@)
    &&& e.size == o.size
    &&& e.storage_class@ == "STANDARD"@
}

/// The entries list these objects.
pub open spec fn lists_objects(entries: Seq<ObjectXml>, objects: Seq<ObjectInfo>) -> bool {
    &&& entries.len() == objects.len()
    &&& forall|i: int| 0 <= i < entries.len() ==> lists_object(#[trigger] entries[i], objects[i])
}

/// The texts of common prefixes.
pub open spec fn prefix_views(v: Seq<PrefixXml>) -> Seq<Seq<char>> {
    v.map_values(|p: PrefixXml| p.prefix@)
}

/// Lists the objects that the store found.
pub fn list_objects(bucket: &str, options: &ListOptions, found: &Listing) -> (r: ListBucketResultV2)
    ensures
        r.xmlns@ == S3_XMLNS@,
        r.name@ == bucket@,
        r.prefix@ == options.prefix@,
        r.key_count == found.objects@.len(),
        r.max_keys == options.max_keys,
        r.is_truncated == found.is_truncated,
        lists_objects(r.contents@, found.objects@),
        prefix_views(r.common_prefixes@) == order::views(found.common_prefixes@),
        r.next_continuation_token@ == found.next_continuation_token@,
{
    let mut contents: Vec<ObjectXml> = Vec::new();
    while contents.len() < found.objects.len()
        invariant
            contents@.len() <= found.objects@.len(),
            forall|i: int|
                0 <= i < contents@.len() ==> lists_object(
                    #[trigger] contents@[i],
                    found.objects@[i],
                ),
        decreases found.objects@.len() - contents@.len(),
    {
        let o = &found.objects[contents.len()];
        contents.push(
            ObjectXml {
                key: o.key.clone(),
                last_modified: dates::format_timestamp(o.created_at),
                etag: conditions::quote(o.etag.as_str()),
                size: o.size,
                storage_class: "STANDARD".to_owned(),
            },
        );
    }
    let mut prefixes: Vec<PrefixXml> = Vec::new();
    while prefixes.len() < found.common_prefixes.len()
        invariant
            prefixes@.len() <= found.common_prefixes@.len(),
            forall|i: int|
                0 <= i < prefixes@.len() ==> (#[trigger] prefixes@[i]).prefix@
                    == found.common_prefixes@[i]@,
        decreases found.common_prefixes@.len() - prefixes@.len(),
    {
        prefixes.push(PrefixXml { prefix: found.common_prefixes[prefixes.len()].clone() });
    }
    assert(prefix_views(prefixes@) =~= order::views(found.common_prefixes@));
    ListBucketResultV2 {
        xmlns: S3_XMLNS.to_owned(),
        name: bucket.to_owned(),
        prefix: options.prefix.clone(),
        key_count: found.objects.len(),
        max_keys: options.max_keys,
        is_truncated: found.is_truncated,
        contents,
        common_prefixes: prefixes,
        next_continuation_token: found.next_continuation_token.clone(),
    }
}

/// The result of a copy.
pub fn copy_result(info: &ObjectInfo) -> (r: CopyObjectResultXml)
    ensures
        r.etag@ == conditions::quoted(info.etag@),
        r.last_modified@ == dates::timestamp(info.created_at as int),
{
    CopyObjectResultXml {
        etag: conditions::quote(info.etag.as_str()),
        last_modified: dates::format_timestamp(info.created_at),
    }
}

// ------------------------------------------------------------------- uploads

/// The entries list these uploads.
pub open spec fn lists_uploads(entries: Seq<UploadXml>, uploads: Seq<UploadMeta>) -> bool {
    &&& entries.len() == uploads.len()
    &&& forall|i: int|
        0 <= i < entries.len() ==> (#[trigger] entries[i]).key@ == uploads[i].key@
            && entries[i].upload_id@ == uploads[i].upload_id@ && entries[i].initiated@
            == dates::timestamp(uploads[i].created_at as int)
}

/// Lists uploads that are not completed.
pub fn list_uploads(uploads: &Vec<UploadMeta>) -> (r: Vec<UploadXml>)
    ensures
        lists_uploads(r@, uploads@),
{
    let mut out: Vec<UploadXml> = Vec::new();
    while out.len() < uploads.len()
        invariant
            out@.len() <= uploads@.len(),
            lists_uploads(out@, uploads@.take(out@.len() as int)),
        decreases uploads@.len() - out@.len(),
    {
        let u = &uploads[out.len()];
        out.push(
            UploadXml {
                key: u.key.clone(),
                upload_id: u.upload_id.clone(),
                initiated: dates::format_timestamp(u.created_at),
            },
        );
    }
    assert(uploads@.take(out@.len() as int) =~= uploads@);
    out
}

/// The entries list these parts.
pub open spec fn lists_parts(entries: Seq<PartXml>, parts: Seq<PartMeta>) -> bool {
    &&& entries.len() == parts.len()
    &&& forall|i: int|
        0 <= i < entries.len() ==> (#[trigger] entries[i]).part_number == parts[i].part_number
            && entries[i].etag@ == conditions::quoted(parts[i].etag@) && entries[i].size
            == parts[i].size
}

/// Lists the parts of an upload.
pub fn list_parts(parts: &Vec<PartMeta>) -> (r: Vec<PartXml>)
    ensures
        lists_parts(r@, parts@),
{
    let mut out: Vec<PartXml> = Vec::new();
    while out.len() < parts.len()
        invariant
            out@.len() <= parts@.len(),
            lists_parts(out@, parts@.take(out@.len() as int)),
        decreases parts@.len() - out@.len(),
    {
        let p = &parts[out.len()];
        out.push(
            PartXml {
                part_number: p.part_number,
                etag: conditions::quote(p.etag.as_str()),
                size: p.size,
            },
        );
    }
    assert(parts@.take(out@.len() as int) =~= parts@);
    out
}

// -------------------------------------------------------------- many deletes

/// What became of a delete: the key, and the error where it failed.
pub struct Deletion {
    pub key: String,
    pub failure: Option<StorageError>,
}

/// The keys that are gone.
pub open spec fn gone(d: Seq<Deletion>) -> Seq<Seq<char>>
    decreases d.len(),
{
    if d.len() == 0 {
        Seq::empty()
    } else if d.last().failure is None {
        gone(d.drop_last()).push(d.last().key@)
    } else {
        gone(d.drop_last())
    }
}

/// The keys that are not, each with the error that reports why.
pub open spec fn kept(d: Seq<Deletion>) -> Seq<(Seq<char>, errors::ErrorModel)>
    decreases d.len(),
{
    if d.len() == 0 {
        Seq::empty()
    } else {
        match d.last().failure {
            Some(e) => kept(d.drop_last()).push((d.last().key@, errors::mapped(e))),
            None => kept(d.drop_last()),
        }
    }
}

/// The report names these keys as deleted.
pub open spec fn reports_gone(entries: Seq<DeletedXml>, keys: Seq<Seq<char>>) -> bool {
    &&& entries.len() == keys.len()
    &&& forall|i: int| 0 <= i < entries.len() ==> (#[trigger] entries[i]).key@ == keys[i]
}

/// The report names these keys as not deleted, and why.
pub open spec fn reports_kept(
    entries: Seq<DeleteErrorXml>,
    failures: Seq<(Seq<char>, errors::ErrorModel)>,
) -> bool {
    &&& entries.len() == failures.len()
    &&& forall|i: int|
        0 <= i < entries.len() ==> (#[trigger] entries[i]).key@ == failures[i].0
            && entries[i].code@ == failures[i].1.code && entries[i].message@
            == failures[i].1.message
}

/// Reports what became of many deletes.
pub fn delete_result(done: &Vec<Deletion>) -> (r: DeleteResult)
    ensures
        r.xmlns@ == S3_XMLNS@,
        reports_gone(r.deleted@, gone(done@)),
        reports_kept(r.errors@, kept(done@)),
{
    let mut deleted: Vec<DeletedXml> = Vec::new();
    let mut errors: Vec<DeleteErrorXml> = Vec::new();
    let mut i: usize = 0;
    assert(done@.take(0) =~= Seq::empty());
    while i < done.len()
        invariant
            i <= done@.len(),
            reports_gone(deleted@, gone(done@.take(i as int))),
            reports_kept(errors@, kept(done@.take(i as int))),
        decreases done@.len() - i,
    {
        proof {
            assert(done@.take(i + 1).drop_last() =~= done@.take(i as int));
            assert(done@.take(i + 1).last() == done@[i as int]);
        }
        match &done[i].failure {
            None => {
                deleted.push(DeletedXml { key: done[i].key.clone() });
            },
            Some(e) => {
                let report = errors::map_error(e);
                errors.push(
                    DeleteErrorXml {
                        key: done[i].key.clone(),
                        code: report.code.to_owned(),
                        message: report.message.to_owned(),
                    },
                );
            },
        }
        i = i + 1;
    }
    assert(done@.take(i as int) =~= done@);
    DeleteResult { xmlns: S3_XMLNS.to_owned(), deleted, errors }
}

/// Every key is reported exactly once, as deleted or as not.
pub proof fn law_every_key_is_reported(d: Seq<Deletion>)
    ensures
        gone(d).len() + kept(d).len() == d.len(),
    decreases d.len(),
{
    if d.len() > 0 {
        law_every_key_is_reported(d.drop_last());
    }
}

// ------------------------------------------------------------------ versions

/// The versions of an object.
pub struct KeyVersions {
    pub key: String,
    pub versions: Vec<ObjectMeta>,
}

/// Key and version, of the objects or of the delete markers among the first `n` versions.
pub open spec fn picked(
    key: Seq<char>,
    versions: Seq<ObjectMeta>,
    markers: bool,
    n: nat,
) -> Seq<(Seq<char>, storage::MetaModel)>
    decreases n,
{
    if n == 0 {
        Seq::empty()
    } else if versions[n - 1].is_delete_marker == markers {
        picked(key, versions, markers, (n - 1) as nat).push((key, versions[n - 1]@))
    } else {
        picked(key, versions, markers, (n - 1) as nat)
    }
}

/// Key and version, of the objects or of the delete markers under the first `n` keys.
pub open spec fn all_picked(entries: Seq<KeyVersions>, markers: bool, n: nat) -> Seq<
    (Seq<char>, storage::MetaModel),
>
    decreases n,
{
    if n == 0 {
        Seq::empty()
    } else {
        all_picked(entries, markers, (n - 1) as nat) + picked(
            entries[n - 1].key@,
            entries[n - 1].versions@,
            markers,
            entries[n - 1].versions@.len(),
        )
    }
}

/// The entries list these versions.
pub open spec fn lists_versions(
    entries: Seq<VersionXml>,
    want: Seq<(Seq<char>, storage::MetaModel)>,
) -> bool {
    &&& entries.len() == want.len()
    &&& forall|i: int|
        0 <= i < entries.len() ==> {
            let e = #[trigger] entries[i];
            let m = want[i].1;
            &&& e.key@ == want[i].0
            &&& e.version_id@ == m.version_id
            &&& e.is_latest == m.is_latest
            &&& e.last_modified@ == dates::timestamp(m.created_at as int)
            &&& e.etag@ == conditions::quoted(m.etag)
            &&& e.size == m.size
            &&& e.storage_class@ == "STANDARD"@
        }
}

/// The entries list these delete markers.
pub open spec fn lists_markers(
    entries: Seq<DeleteMarkerXml>,
    want: Seq<(Seq<char>, storage::MetaModel)>,
) -> bool {
    &&& entries.len() == want.len()
    &&& forall|i: int|
        0 <= i < entries.len() ==> {
            let e = #[trigger] entries[i];
            let m = want[i].1;
            &&& e.key@ == want[i].0
            &&& e.version_id@ == m.version_id
            &&& e.is_latest == m.is_latest
            &&& e.last_modified@ == dates::timestamp(m.created_at as int)
        }
}

fn list_version(key: &str, m: &ObjectMeta) -> (e: VersionXml)
    ensures
        e.key@ == key@,
        e.version_id@ == m@.version_id,
        e.is_latest == m@.is_latest,
        e.last_modified@ == dates::timestamp(m@.created_at as int),
        e.etag@ == conditions::quoted(m@.etag),
        e.size == m@.size,
        e.storage_class@ == "STANDARD"@,
{
    VersionXml {
        key: key.to_owned(),
        version_id: m.version_id.clone(),
        is_latest: m.is_latest,
        last_modified: dates::format_timestamp(m.created_at),
        etag: conditions::quote(m.etag.as_str()),
        size: m.size,
        storage_class: "STANDARD".to_owned(),
    }
}

fn list_marker(key: &str, m: &ObjectMeta) -> (e: DeleteMarkerXml)
    ensures
        e.key@ == key@,
        e.version_id@ == m@.version_id,
        e.is_latest == m@.is_latest,
        e.last_modified@ == dates::timestamp(m@.created_at as int),
{
    DeleteMarkerXml {
        key: key.to_owned(),
        version_id: m.version_id.clone(),
        is_latest: m.is_latest,
        last_modified: dates::format_timestamp(m.created_at),
    }
}

/// Lists the versions and the delete markers that the store found.
pub fn list_versions(bucket: &str, params: &StringMap<String>, found: &Vec<KeyVersions>) -> (r:
    ListVersionsResultXml)
    ensures
        r.xmlns@ == S3_XMLNS@,
        r.name@ == bucket@,
        r.prefix@ == text_under(query::texts(params@), "prefix"@),
        r.key_marker@ == text_under(query::texts(params@), "key-marker"@),
        r.version_id_marker@ == text_under(query::texts(params@), "version-id-marker"@),
        r.max_keys == keys_asked(query::texts(params@)),
        !r.is_truncated,
        lists_versions(r.versions@, all_picked(found@, false, found@.len())),
        lists_markers(r.delete_markers@, all_picked(found@, true, found@.len())),
{
    let mut versions: Vec<VersionXml> = Vec::new();
    let mut markers: Vec<DeleteMarkerXml> = Vec::new();
    let mut i: usize = 0;
    while i < found.len()
        invariant
            i <= found@.len(),
            lists_versions(versions@, all_picked(found@, false, i as nat)),
            lists_markers(markers@, all_picked(found@, true, i as nat)),
        decreases found@.len() - i,
    {
        let key = found[i].key.as_str();
        let list = &found[i].versions;
        let ghost v0 = all_picked(found@, false, i as nat);
        let ghost m0 = all_picked(found@, true, i as nat);
        let mut k: usize = 0;
        assert(v0 + picked(key@, list@, false, 0) =~= v0);
        assert(m0 + picked(key@, list@, true, 0) =~= m0);
        while k < list.len()
            invariant
                k <= list@.len(),
                lists_versions(versions@, v0 + picked(key@, list@, false, k as nat)),
                lists_markers(markers@, m0 + picked(key@, list@, true, k as nat)),
            decreases list@.len() - k,
        {
            let m = &list[k];
            let ghost va = v0 + picked(key@, list@, false, k as nat);
            let ghost vb = v0 + picked(key@, list@, false, (k + 1) as nat);
            let ghost ma = m0 + picked(key@, list@, true, k as nat);
            let ghost mb = m0 + picked(key@, list@, true, (k + 1) as nat);
            if m.is_delete_marker {
                markers.push(list_marker(key, m));
                assert(mb =~= ma.push((key@, m@)));
                assert(vb =~= va);
            } else {
                versions.push(list_version(key, m));
                assert(vb =~= va.push((key@, m@)));
                assert(mb =~= ma);
            }
            k = k + 1;
        }
        i = i + 1;
    }
    ListVersionsResultXml {
        xmlns: S3_XMLNS.to_owned(),
        name: bucket.to_owned(),
        prefix: text_or_empty(params, "prefix"),
        key_marker: text_or_empty(params, "key-marker"),
        version_id_marker: text_or_empty(params, "version-id-marker"),
        max_keys: max_keys(params),
        is_truncated: false,
        versions,
        delete_markers: markers,
    }
}

} // verus!
