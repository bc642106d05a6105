//! What holds of listings, errors, settings and the parameters of requests.

use vstd::prelude::*;
use vstd::string::*;

use super::dates;
use super::errors;
use super::listing;
use super::listing::{Deletion, KeyVersions};
use super::request;
use super::request::Method;
use super::response::{
    BucketXml, DeleteErrorXml, DeleteMarkerXml, DeletedXml, ObjectXml, PartXml, UploadXml,
    VersionXml,
};
use super::settings;
use crate::json;
use crate::json::Json;
use crate::multipart::{PartMeta, UploadMeta};
use crate::query;
use crate::storage::{BucketInfo, ObjectInfo, ObjectMeta, StorageError};
use crate::text;

verus! {

// ------------------------------------------------------------------ listings

/// The text stands between two quotation marks.
pub open spec fn in_marks(quoted: Seq<char>, s: Seq<char>) -> bool {
    &&& quoted.len() == s.len() + 2
    &&& quoted[0] == '"'
    &&& quoted.last() == '"'
    &&& forall|i: int| 0 <= i < s.len() ==> #[trigger] s[i] == quoted[i + 1]
}

proof fn lemma_in_marks(s: Seq<char>)
    ensures
        in_marks(super::conditions::quoted(s), s),
{
    reveal_strlit("\"");
}

/// A listing has one entry for each bucket, in the same order, with the bucket's own name and
/// the moment of its creation.
pub proof fn law_every_bucket_is_listed(entries: Seq<BucketXml>, buckets: Seq<BucketInfo>, i: int)
    requires
        listing::lists_buckets(entries, buckets),
        0 <= i < buckets.len(),
    ensures
        entries.len() == buckets.len(),
        entries[i].name@ == buckets[i].name@,
        entries[i].creation_date@ == dates::timestamp(buckets[i].created_at as int),
{
    assert(entries[i] == entries[i]);
}

/// A listing has one entry for each object, in the same order, with the object's own key, size,
/// tag in quotation marks, and the moment of its creation.
pub proof fn law_every_object_is_listed(entries: Seq<ObjectXml>, objects: Seq<ObjectInfo>, i: int)
    requires
        listing::lists_objects(entries, objects),
        0 <= i < objects.len(),
    ensures
        entries.len() == objects.len(),
        entries[i].key@ == objects[i].key@,
        entries[i].size == objects[i].size,
        in_marks(entries[i].etag@, objects[i].etag@),
        entries[i].last_modified@ == dates::timestamp(objects[i].created_at as int),
{
    lemma_in_marks(objects[i].etag@);
    assert(entries[i] == entries[i]);
}

/// A listing has one entry for each upload, in the same order.
pub proof fn law_every_upload_is_listed(entries: Seq<UploadXml>, uploads: Seq<UploadMeta>, i: int)
    requires
        listing::lists_uploads(entries, uploads),
        0 <= i < uploads.len(),
    ensures
        entries.len() == uploads.len(),
        entries[i].key@ == uploads[i].key@,
        entries[i].upload_id@ == uploads[i].upload_id@,
        entries[i].initiated@ == dates::timestamp(uploads[i].created_at as int),
{
    assert(entries[i] == entries[i]);
}

/// A listing has one entry for each part, in the same order.
pub proof fn law_every_part_is_listed(entries: Seq<PartXml>, parts: Seq<PartMeta>, i: int)
    requires
        listing::lists_parts(entries, parts),
        0 <= i < parts.len(),
    ensures
        entries.len() == parts.len(),
        entries[i].part_number == parts[i].part_number,
        entries[i].size == parts[i].size,
        in_marks(entries[i].etag@, parts[i].etag@),
{
    lemma_in_marks(parts[i].etag@);
    assert(entries[i] == entries[i]);
}

/// A request that names no number of keys, or none that can be read, asks for a thousand; one
/// that names a number asks for as many.
pub proof fn law_number_of_keys_is_as_asked(m: Map<Seq<char>, Seq<char>>, n: u64)
    requires
        n <= usize::MAX,
    ensures
        !m.contains_key("max-keys"@) ==> listing::keys_asked(m) == 1000,
        m.contains_key("max-keys"@) && m["max-keys"@] == text::decimal(n as nat)
            ==> listing::keys_asked(m) == n,
        m.contains_key("max-keys"@) && text::u64_value(m["max-keys"@]) is None
            ==> listing::keys_asked(m) == 1000,
{
    text::lemma_u64_round_trip(n);
}

/// The text of a parameter is what stands under its name, and empty where nothing does.
pub proof fn law_parameter_is_as_sent(m: Map<Seq<char>, Seq<char>>, name: Seq<char>)
    ensures
        m.contains_key(name) ==> listing::text_under(m, name) == m[name],
        m.contains_key(name) ==> query::value_of(m, name) == Some(m[name]),
        !m.contains_key(name) ==> listing::text_under(m, name).len() == 0,
        !m.contains_key(name) ==> query::value_of(m, name) is None,
{
}

// ------------------------------------------------------------------- deletes

/// A key whose delete did not fail is reported as deleted; one whose delete failed is reported
/// with the error.
pub proof fn law_outcome_is_reported(
    d: Seq<Deletion>,
    deleted: Seq<DeletedXml>,
    failed: Seq<DeleteErrorXml>,
    i: int,
)
    requires
        listing::reports_gone(deleted, listing::gone(d)),
        listing::reports_kept(failed, listing::kept(d)),
        0 <= i < d.len(),
    ensures
        deleted.len() + failed.len() == d.len(),
        d[i].failure is None ==> exists|k: int|
            0 <= k < deleted.len() && (#[trigger] deleted[k]).key@ == d[i].key@,
        d[i].failure is Some ==> exists|k: int|
            0 <= k < failed.len() && (#[trigger] failed[k]).key@ == d[i].key@ && failed[k].code@
                == errors::mapped(d[i].failure->0).code && failed[k].message@ == errors::mapped(
                d[i].failure->0,
            ).message,
{
    listing::law_every_key_is_reported(d);
    lemma_outcome(d, i);
    if d[i].failure is None {
        let k = choose|k: int|
            0 <= k < listing::gone(d).len() && listing::gone(d)[k] == d[i].key@;
        assert(deleted[k].key@ == d[i].key@);
    } else {
        let x = (d[i].key@, errors::mapped(d[i].failure->0));
        let k = choose|k: int| 0 <= k < listing::kept(d).len() && listing::kept(d)[k] == x;
        assert(failed[k].key@ == d[i].key@);
    }
}

proof fn lemma_outcome(d: Seq<Deletion>, i: int)
    requires
        0 <= i < d.len(),
    ensures
        d[i].failure is None ==> listing::gone(d).contains(d[i].key@),
        d[i].failure is Some ==> listing::kept(d).contains(
            (d[i].key@, errors::mapped(d[i].failure->0)),
        ),
    decreases d.len(),
{
    let rest = d.drop_last();
    let gone = listing::gone(d);
    let kept = listing::kept(d);
    if i < d.len() - 1 {
        lemma_outcome(rest, i);
        assert(rest[i] == d[i]);
        if d[i].failure is None {
            let k = choose|k: int|
                0 <= k < listing::gone(rest).len() && listing::gone(rest)[k] == d[i].key@;
            assert(gone[k] == d[i].key@);
        } else {
            let x = (d[i].key@, errors::mapped(d[i].failure->0));
            let k = choose|k: int|
                0 <= k < listing::kept(rest).len() && listing::kept(rest)[k] == x;
            assert(kept[k] == x);
        }
    } else if d[i].failure is None {
        assert(gone[gone.len() - 1] == d[i].key@);
    } else {
        assert(kept[kept.len() - 1] == (d[i].key@, errors::mapped(d[i].failure->0)));
    }
}

/// Deletes are reported in the order in which they were asked for: two reports, one behind the
/// other, are the report of both.
pub proof fn law_reports_join(a: Seq<Deletion>, b: Seq<Deletion>)
    ensures
        listing::gone(a + b) == listing::gone(a) + listing::gone(b),
        listing::kept(a + b) == listing::kept(a) + listing::kept(b),
    decreases b.len(),
{
    let all = a + b;
    if b.len() == 0 {
        assert(all =~= a);
        assert(listing::gone(a) + listing::gone(b) =~= listing::gone(a));
        assert(listing::kept(a) + listing::kept(b) =~= listing::kept(a));
    } else {
        law_reports_join(a, b.drop_last());
        assert(all.drop_last() =~= a + b.drop_last());
        assert(all.last() == b.last());
        assert(listing::gone(all) =~= listing::gone(a) + listing::gone(b));
        assert(listing::kept(all) =~= listing::kept(a) + listing::kept(b));
    }
}

// ------------------------------------------------------------------ versions

/// The entry tells all of a version.
pub open spec fn tells_version(e: VersionXml, key: Seq<char>, m: ObjectMeta) -> bool {
    &&& e.key@ == key
    &&& e.version_id@ == m.version_id@
    &&& e.is_latest == m.is_latest
    &&& e.last_modified@ == dates::timestamp(m.created_at as int)
    &&& in_marks(e.etag@, m.etag@)
    &&& e.size == m.size
}

/// The entry tells all of a delete marker.
pub open spec fn tells_marker(e: DeleteMarkerXml, key: Seq<char>, m: ObjectMeta) -> bool {
    &&& e.key@ == key
    &&& e.version_id@ == m.version_id@
    &&& e.is_latest == m.is_latest
    &&& e.last_modified@ == dates::timestamp(m.created_at as int)
}

/// How many versions there are under the first `n` keys.
pub open spec fn versions_under(found: Seq<KeyVersions>, n: nat) -> nat
    decreases n,
{
    if n == 0 {
        0
    } else {
        versions_under(found, (n - 1) as nat) + found[n - 1].versions@.len()
    }
}

proof fn lemma_picked_lengths(key: Seq<char>, versions: Seq<ObjectMeta>, n: nat)
    requires
        n <= versions.len(),
    ensures
        listing::picked(key, versions, false, n).len() + listing::picked(
            key,
            versions,
            true,
            n,
        ).len() == n,
    decreases n,
{
    if n > 0 {
        lemma_picked_lengths(key, versions, (n - 1) as nat);
    }
}

proof fn lemma_picked(key: Seq<char>, versions: Seq<ObjectMeta>, n: nat, k: int)
    requires
        0 <= k < n <= versions.len(),
    ensures
        listing::picked(key, versions, versions[k].is_delete_marker, n).contains(
            (key, versions[k]@),
        ),
    decreases n,
{
    let markers = versions[k].is_delete_marker;
    let all = listing::picked(key, versions, markers, n);
    if k == n - 1 {
        assert(all[all.len() - 1] == (key, versions[k]@));
    } else {
        lemma_picked(key, versions, (n - 1) as nat, k);
        let part = listing::picked(key, versions, markers, (n - 1) as nat);
        let j = choose|j: int| 0 <= j < part.len() && part[j] == (key, versions[k]@);
        assert(all[j] == (key, versions[k]@));
    }
}

proof fn lemma_all_lengths(found: Seq<KeyVersions>, n: nat)
    requires
        n <= found.len(),
    ensures
        listing::all_picked(found, false, n).len() + listing::all_picked(found, true, n).len()
            == versions_under(found, n),
    decreases n,
{
    if n > 0 {
        lemma_all_lengths(found, (n - 1) as nat);
        lemma_picked_lengths(
            found[n - 1].key@,
            found[n - 1].versions@,
            found[n - 1].versions@.len(),
        );
    }
}

proof fn lemma_all_picked(found: Seq<KeyVersions>, n: nat, i: int, k: int)
    requires
        0 <= i < n <= found.len(),
        0 <= k < found[i].versions@.len(),
    ensures
        listing::all_picked(found, found[i].versions@[k].is_delete_marker, n).contains(
            (found[i].key@, found[i].versions@[k]@),
        ),
    decreases n,
{
    let markers = found[i].versions@[k].is_delete_marker;
    let x = (found[i].key@, found[i].versions@[k]@);
    let all = listing::all_picked(found, markers, n);
    let before = listing::all_picked(found, markers, (n - 1) as nat);
    if i == n - 1 {
        let vs = found[i].versions@;
        lemma_picked(found[i].key@, vs, vs.len(), k);
        let own = listing::picked(found[i].key@, vs, markers, vs.len());
        let j = choose|j: int| 0 <= j < own.len() && own[j] == x;
        assert(all[before.len() as int + j] == x);
    } else {
        lemma_all_picked(found, (n - 1) as nat, i, k);
        let j = choose|j: int| 0 <= j < before.len() && before[j] == x;
        assert(all[j] == x);
    }
}

/// Every version is listed exactly once: a delete marker among the markers, and any other
/// version among the objects, each under its own key.
pub proof fn law_every_version_is_listed(
    found: Seq<KeyVersions>,
    versions: Seq<VersionXml>,
    markers: Seq<DeleteMarkerXml>,
    i: int,
    k: int,
)
    requires
        listing::lists_versions(versions, listing::all_picked(found, false, found.len())),
        listing::lists_markers(markers, listing::all_picked(found, true, found.len())),
        0 <= i < found.len(),
        0 <= k < found[i].versions@.len(),
    ensures
        versions.len() + markers.len() == versions_under(found, found.len()),
        found[i].versions@[k].is_delete_marker ==> exists|j: int|
            0 <= j < markers.len() && tells_marker(
                #[trigger] markers[j],
                found[i].key@,
                found[i].versions@[k],
            ),
        !found[i].versions@[k].is_delete_marker ==> exists|j: int|
            0 <= j < versions.len() && tells_version(
                #[trigger] versions[j],
                found[i].key@,
                found[i].versions@[k],
            ),
{
    lemma_all_lengths(found, found.len());
    lemma_all_picked(found, found.len(), i, k);
    let m = found[i].versions@[k];
    let x = (found[i].key@, m@);
    let all = listing::all_picked(found, m.is_delete_marker, found.len());
    let j = choose|j: int| 0 <= j < all.len() && all[j] == x;
    lemma_in_marks(m.etag@);
    if m.is_delete_marker {
        assert(tells_marker(markers[j], found[i].key@, m));
    } else {
        assert(tells_version(versions[j], found[i].key@, m));
    }
}

/// Versions are listed key by key, in the order in which they were found.
pub proof fn law_versions_keep_their_order(
    found: Seq<KeyVersions>,
    marked: bool,
    n: nat,
    key: Seq<char>,
    versions: Seq<ObjectMeta>,
    k: nat,
    j: int,
)
    ensures
        0 <= j < listing::all_picked(found, marked, n).len() ==> listing::all_picked(
            found,
            marked,
            n + 1,
        )[j] == listing::all_picked(found, marked, n)[j],
        0 <= j < listing::picked(key, versions, marked, k).len() ==> listing::picked(
            key,
            versions,
            marked,
            k + 1,
        )[j] == listing::picked(key, versions, marked, k)[j],
{
}

// -------------------------------------------------------------------- errors

/// What is not there is reported as missing, what is there already or is not empty as a
/// conflict, and everything else as a failure of the server; no two kinds of trouble with
/// buckets and keys bear the same code.
pub proof fn law_errors_tell_the_kind(e: StorageError)
    ensures
        errors::mapped(e).status == 404 <==> e is BucketNotFound || e is ObjectNotFound,
        errors::mapped(e).status == 409 <==> e is BucketExists || e is BucketNotEmpty,
        !(e is BucketNotFound || e is ObjectNotFound || e is BucketExists || e is BucketNotEmpty)
            <==> errors::mapped(e).status == 500,
        errors::mapped(e).code == "NoSuchBucket"@ <==> e is BucketNotFound,
        errors::mapped(e).code == "NoSuchKey"@ <==> e is ObjectNotFound,
        errors::mapped(e).code == "BucketAlreadyOwnedByYou"@ <==> e is BucketExists,
        errors::mapped(e).code == "BucketNotEmpty"@ <==> e is BucketNotEmpty,
{
    reveal_strlit("NoSuchBucket");
    reveal_strlit("NoSuchKey");
    reveal_strlit("BucketAlreadyOwnedByYou");
    reveal_strlit("BucketNotEmpty");
    reveal_strlit("InternalError");
    assert("NoSuchBucket"@.len() == 12 && "InternalError"@.len() == 13);
    assert("NoSuchKey"@.len() == 9 && "BucketNotEmpty"@.len() == 14);
    assert("BucketAlreadyOwnedByYou"@.len() == 23);
}

/// A client that did something wrong is told so with a status of the four hundreds, a server
/// that cannot serve with one of the five hundreds.
pub proof fn law_statuses_fit_the_errors()
    ensures
        errors::access_denied().status == 403,
        errors::method_not_allowed().status == 405,
        errors::precondition_failed().status == 412,
        errors::invalid_range().status == 416,
        errors::incomplete_body().status == 400,
        errors::malformed_xml().status == 400,
        errors::invalid_request().status == 400,
        errors::policy_too_large().status == 400,
        errors::no_such_cors().status == 404,
        errors::no_such_policy().status == 404,
        errors::no_such_lifecycle().status == 404,
        errors::not_implemented().status == 501,
        errors::service_unavailable().status == 503,
{
}

// ------------------------------------------------------------------ settings

/// A policy is taken exactly where it has at most 20480 bytes and is an object whose first
/// field of that name states a version that is not empty.
pub proof fn law_policy_states_its_version(
    length: int,
    doc: Json,
    fields: Vec<(String, Json)>,
    i: int,
)
    requires
        doc == Json::Object(fields),
        0 <= i < fields@.len(),
        fields@[i].0@ == "Version"@,
        forall|j: int| 0 <= j < i ==> (#[trigger] fields@[j]).0@ != "Version"@,
    ensures
        settings::policy_refusal(length, Some(doc)) is None <==> length <= 20480 && (
        fields@[i].1 matches Json::Text(v) && v@.len() > 0),
        settings::policy_refusal(length, None) is Some,
        settings::policy_refusal(length, None) == Some(errors::policy_too_large()) || length
            <= 20480,
{
    reveal_strlit("PolicyTooLarge");
    lemma_field(fields@, "Version"@, i);
}

proof fn lemma_field(fields: Seq<(String, Json)>, name: Seq<char>, i: int)
    requires
        0 <= i < fields.len(),
        fields[i].0@ == name,
        forall|j: int| 0 <= j < i ==> (#[trigger] fields[j]).0@ != name,
    ensures
        json::field(fields, name) == Some(fields[i].1),
    decreases fields.len(),
{
    if i > 0 {
        assert(fields[0].0@ != name);
        let rest = fields.drop_first();
        assert forall|j: int| 0 <= j < i - 1 implies (#[trigger] rest[j]).0@ != name by {
            assert(rest[j] == fields[j + 1]);
        }
        lemma_field(rest, name, i - 1);
    }
}

/// A document without a version, or that is no object, is no policy.
pub proof fn law_policy_without_version_is_refused(length: int, doc: Json)
    requires
        match doc {
            Json::Object(fields) => forall|j: int|
                0 <= j < fields@.len() ==> (#[trigger] fields@[j]).0@ != "Version"@,
            _ => true,
        },
    ensures
        settings::policy_refusal(length, Some(doc)) is Some,
{
    if let Json::Object(fields) = doc {
        lemma_no_field(fields@, "Version"@);
    }
}

proof fn lemma_no_field(fields: Seq<(String, Json)>, name: Seq<char>)
    requires
        forall|j: int| 0 <= j < fields.len() ==> (#[trigger] fields[j]).0@ != name,
    ensures
        json::field(fields, name) is None,
    decreases fields.len(),
{
    if fields.len() > 0 {
        assert(fields[0].0@ != name);
        let rest = fields.drop_first();
        assert forall|j: int| 0 <= j < rest.len() implies (#[trigger] rest[j]).0@ != name by {
            assert(rest[j] == fields[j + 1]);
        }
        lemma_no_field(rest, name);
    }
}

/// A disk whose label does not begin with `local:` has its root where the server runs.
pub proof fn law_other_label_tells_no_root(label: Seq<char>)
    requires
        label.len() < 6 || label.take(6) != "local:"@,
    ensures
        settings::root_in(label) == "."@,
{
    reveal_strlit("local:");
}

/// The path behind `local:` is the root of a disk, whatever it is.
pub proof fn law_label_tells_the_root(path: Seq<char>)
    ensures
        settings::root_in("local:"@ + path) == path,
{
    let s = "local:"@ + path;
    assert(s.take("local:"@.len() as int) =~= "local:"@);
    assert(s.skip("local:"@.len() as int) =~= path);
}

/// A request names a part by the upload's id and a number in digits, and both are needed.
pub proof fn law_part_is_named_by_id_and_number(m: Map<Seq<char>, Seq<char>>, n: i32)
    requires
        n >= 0,
    ensures
        m.contains_key("uploadId"@) && m.contains_key("partNumber"@) && m["partNumber"@]
            == text::decimal(n as nat) ==> settings::part_named(m) == Some(
            (m["uploadId"@], n as int),
        ),
        !m.contains_key("uploadId"@) || !m.contains_key("partNumber"@) ==> settings::part_named(
            m,
        ) is None,
{
    lemma_integer(n as nat);
}

proof fn lemma_integer(n: nat)
    ensures
        text::integer_value(text::decimal(n)) == Some(n as int),
{
    text::lemma_decimal_digits(n);
    text::lemma_decimal_value(n);
    let d = text::decimal(n);
    assert(text::is_digit(d[0]));
}

/// Exactly the words `GET`, `PUT`, `POST`, `DELETE` and `HEAD` name a method each.
pub proof fn law_methods_are_named(verb: Seq<char>)
    ensures
        request::method_of(verb) == Method::Get <==> verb == "GET"@,
        request::method_of(verb) == Method::Put <==> verb == "PUT"@,
        request::method_of(verb) == Method::Post <==> verb == "POST"@,
        request::method_of(verb) == Method::Delete <==> verb == "DELETE"@,
        request::method_of(verb) == Method::Head <==> verb == "HEAD"@,
{
    reveal_strlit("GET");
    reveal_strlit("PUT");
    reveal_strlit("POST");
    reveal_strlit("DELETE");
    reveal_strlit("HEAD");
    assert("GET"@[0] == 'G' && "PUT"@[0] == 'P' && "POST"@[0] == 'P' && "PUT"@.len() == 3);
    assert("POST"@.len() == 4 && "DELETE"@[0] == 'D' && "HEAD"@[0] == 'H');
}

} // verus!
