//! What holds of the answers to requests for objects.

use vstd::prelude::*;

use crate::s3::objects::Versioning;
use crate::s3_service;
use crate::s3_service::{
    ByteRange, Conditionals, DeleteOutcome, ListedVersion, ObjectAnswer, TagCondition,
};
use crate::storage::{BucketSettings, MetaModel, ObjectInfo, ObjectMeta, StorageError};
use crate::text;

verus! {

// ---------------------------------------------------------------- conditions

/// The client names the tag of the object, or takes any.
pub open spec fn names_tag(c: Option<TagCondition>, etag: Seq<char>) -> bool {
    c is Some && (c->0 is Any || (c->0 is Tag && c->0->Tag_0@ == etag))
}

/// A request is answered that nothing was modified only where the client's copy is current:
/// it names the tag of the object or, where it names none, a moment at or after the object's
/// date.
pub proof fn law_not_modified_means_a_current_copy(
    c: Conditionals,
    etag: Seq<char>,
    last_modified: int,
)
    requires
        s3_service::stopped(c, etag, last_modified) matches Some(f) && f.code == "NotModified"@,
    ensures
        names_tag(c.if_none_match, etag) || (c.if_none_match is None && c.if_modified_since is Some
            && last_modified <= c.if_modified_since->0),
{
    reveal_strlit("NotModified");
    reveal_strlit("PreconditionFailed");
    assert("NotModified"@.len() != "PreconditionFailed"@.len());
}

/// A request fails its precondition only where it asks for an object with another tag or,
/// where it names no tag, for one that was not modified after a moment that lies before the
/// object's date.
pub proof fn law_failed_precondition_means_another_object(
    c: Conditionals,
    etag: Seq<char>,
    last_modified: int,
)
    requires
        s3_service::stopped(c, etag, last_modified) matches Some(f) && f.code
            == "PreconditionFailed"@,
    ensures
        (c.if_match is Some && !names_tag(c.if_match, etag)) || (c.if_match is None
            && c.if_unmodified_since is Some && c.if_unmodified_since->0 < last_modified),
{
    reveal_strlit("NotModified");
    reveal_strlit("PreconditionFailed");
    assert("NotModified"@.len() != "PreconditionFailed"@.len());
}

/// A client whose only condition is the date of its copy is sent the object exactly where the
/// object was modified since.
pub proof fn law_stale_copy_is_replaced(
    c: Conditionals,
    etag: Seq<char>,
    last_modified: int,
    since: i64,
)
    requires
        c.if_match is None,
        c.if_none_match is None,
        c.if_unmodified_since is None,
        c.if_modified_since == Some(since),
    ensures
        s3_service::stopped(c, etag, last_modified) is None <==> since < last_modified,
        since >= last_modified ==> (s3_service::stopped(c, etag, last_modified) matches Some(f)
            && f.code == "NotModified"@),
{
}

/// A client whose only condition is that the object was not modified after a moment is served
/// exactly where it was not.
pub proof fn law_unmodified_object_is_served(
    c: Conditionals,
    etag: Seq<char>,
    last_modified: int,
    since: i64,
)
    requires
        c.if_match is None,
        c.if_none_match is None,
        c.if_modified_since is None,
        c.if_unmodified_since == Some(since),
    ensures
        s3_service::stopped(c, etag, last_modified) is None <==> last_modified <= since,
        last_modified > since ==> (s3_service::stopped(c, etag, last_modified) matches Some(f)
            && f.code == "PreconditionFailed"@),
{
}

/// A client that asks for an object with a tag is served exactly where the object has it; one
/// that asks for an object with another tag exactly where it has not.
pub proof fn law_tag_conditions_are_opposites(
    a: Conditionals,
    b: Conditionals,
    etag: Seq<char>,
    last_modified: int,
)
    requires
        a.if_match is Some,
        a.if_none_match is None,
        a.if_modified_since is None,
        b.if_none_match == a.if_match,
        b.if_match is None,
        b.if_unmodified_since is None,
    ensures
        s3_service::stopped(a, etag, last_modified) is None <==> names_tag(a.if_match, etag),
        s3_service::stopped(b, etag, last_modified) is None <==> !names_tag(a.if_match, etag),
{
}

/// A request without conditions is never stopped.
pub proof fn law_unconditional_read_is_served(
    c: Conditionals,
    etag: Seq<char>,
    last_modified: int,
)
    requires
        c.if_match is None,
        c.if_none_match is None,
        c.if_modified_since is None,
        c.if_unmodified_since is None,
    ensures
        s3_service::stopped(c, etag, last_modified) is None,
{
}

/// Whatever is asked of the tag and of the date, an object that meets every condition is
/// served, and one that breaks one is not.
pub proof fn law_every_condition_counts(c: Conditionals, etag: Seq<char>, last_modified: int)
    ensures
        s3_service::stopped(c, etag, last_modified) is None <==> {
            &&& c.if_match is Some ==> names_tag(c.if_match, etag)
            &&& c.if_match is None && c.if_unmodified_since is Some ==> last_modified
                <= c.if_unmodified_since->0
            &&& c.if_none_match is Some ==> !names_tag(c.if_none_match, etag)
            &&& c.if_none_match is None && c.if_modified_since is Some ==> last_modified
                > c.if_modified_since->0
        },
{
}

// -------------------------------------------------------------------- ranges

/// A header tells which bytes of how many are sent.
pub open spec fn tells_part(header: Option<Seq<char>>, first: int, last: int, total: int) -> bool {
    header == Some(
        "bytes "@ + text::decimal(first as nat) + "-"@ + text::decimal(last as nat) + "/"@
            + text::decimal(total as nat),
    )
}

/// A request for the bytes from one place to another is sent those bytes of the object, as
/// far as they are there, and told which they are. One that begins behind the end is sent the
/// whole object.
pub proof fn law_stretch_is_sent(
    body: Seq<u8>,
    header: Option<Seq<char>>,
    data: Seq<u8>,
    first: u64,
    last: Option<u64>,
)
    requires
        s3_service::sends(body, header, data, Some(ByteRange::Between { first, last })),
        last is Some ==> first <= last->0,
    ensures
        first >= data.len() ==> body == data && header is None,
        first < data.len() ==> {
            let end = if last is Some && last->0 < data.len() {
                last->0 as int
            } else {
                data.len() - 1
            };
            &&& body.len() == end - first + 1
            &&& forall|i: int| 0 <= i < body.len() ==> #[trigger] body[i] == data[first + i]
            &&& tells_part(header, first as int, end, data.len() as int)
        },
{
}

/// A request for the last bytes is sent so many bytes from the end, or the whole where it is
/// shorter, and told which they are.
pub proof fn law_tail_is_sent(
    body: Seq<u8>,
    header: Option<Seq<char>>,
    data: Seq<u8>,
    length: u64,
)
    requires
        s3_service::sends(body, header, data, Some(ByteRange::Suffix { length })),
        length > 0,
        data.len() > 0,
    ensures
        body.len() == (if length < data.len() {
            length as int
        } else {
            data.len() as int
        }),
        forall|i: int|
            0 <= i < body.len() ==> #[trigger] body[i] == data[data.len() - body.len() + i],
        tells_part(header, data.len() - body.len(), data.len() - 1, data.len() as int),
{
}

/// A request for no part in particular, or for no bytes at the end, is sent the whole object.
pub proof fn law_whole_is_sent(
    body: Seq<u8>,
    header: Option<Seq<char>>,
    data: Seq<u8>,
    range: Option<ByteRange>,
)
    requires
        s3_service::sends(body, header, data, range),
        range is None || range == Some(ByteRange::Suffix { length: 0 }),
    ensures
        body == data,
        header is None,
{
}

/// Stretches that follow one another and cover the object give it back when they are put
/// together.
pub proof fn law_adjoining_stretches_join(
    a: Seq<u8>,
    b: Seq<u8>,
    ha: Option<Seq<char>>,
    hb: Option<Seq<char>>,
    data: Seq<u8>,
    cut: u64,
)
    requires
        0 < cut < data.len(),
        s3_service::sends(
            a,
            ha,
            data,
            Some(ByteRange::Between { first: 0, last: Some((cut - 1) as u64) }),
        ),
        s3_service::sends(b, hb, data, Some(ByteRange::Between { first: cut, last: None })),
    ensures
        a + b == data,
{
    assert(a + b =~= data);
}

// ------------------------------------------------------------------- objects

/// The answer tells of the object what is known of it: its type, tag and date, all of its
/// metadata in their order, and its version where it has one.
pub proof fn law_answer_tells_all(a: ObjectAnswer, info: ObjectInfo)
    requires
        s3_service::describes(a, info),
    ensures
        a.content_type@ == info.content_type@,
        a.etag@ == info.etag@,
        a.last_modified == info.created_at,
        a.metadata is None <==> info.user_metadata@.len() == 0,
        a.metadata is Some ==> a.metadata->0@.len() == info.user_metadata@.len(),
        a.metadata is Some ==> forall|k: int|
            0 <= k < info.user_metadata@.len() ==> (#[trigger] a.metadata->0@[k]).0@
                == info.user_metadata@[k].0@ && a.metadata->0@[k].1@ == info.user_metadata@[k].1@,
        a.version_id is None <==> info.version_id@.len() == 0,
        a.version_id is Some ==> a.version_id->0@ == info.version_id@,
{
    if a.metadata is Some {
        let x = crate::storage::pair_views(a.metadata->0@);
        let y = crate::storage::pair_views(info.user_metadata@);
        assert(x.len() == a.metadata->0@.len());
        assert(y.len() == info.user_metadata@.len());
        assert forall|k: int| 0 <= k < info.user_metadata@.len() implies (
        #[trigger] a.metadata->0@[k]).0@ == info.user_metadata@[k].0@ && a.metadata->0@[k].1@
            == info.user_metadata@[k].1@ by {
            assert(x[k] == y[k]);
        }
    }
}

/// What is not there is reported as that, and what the server cannot do as a fault of the
/// server: no storage error is taken for another.
pub proof fn law_faults_fit_the_errors(e: StorageError)
    ensures
        ({
            let code = s3_service::fault_of(e).code;
            &&& e is BucketNotFound <==> code == "NoSuchBucket"@
            &&& e is ObjectNotFound <==> code == "NoSuchKey"@
            &&& e is BucketExists <==> code == "BucketAlreadyOwnedByYou"@
            &&& e is BucketNotEmpty <==> code == "BucketNotEmpty"@
            &&& e is InvalidBucketName <==> code == "InvalidBucketName"@
            &&& e is InvalidUploadId <==> code == "NoSuchUpload"@
            &&& e is WriteQuorum || e is ReadQuorum <==> code == "ServiceUnavailable"@
            &&& e is Bitrot || e is Io || e is Internal <==> code == "InternalError"@
            &&& e is InvalidConfig || e is InvalidObjectKey || e is InvalidVersionId <==> code
                == "InvalidArgument"@
        }),
{
    reveal_strlit("NoSuchBucket");
    reveal_strlit("NoSuchKey");
    reveal_strlit("BucketAlreadyOwnedByYou");
    reveal_strlit("BucketNotEmpty");
    reveal_strlit("InvalidBucketName");
    reveal_strlit("NoSuchUpload");
    reveal_strlit("ServiceUnavailable");
    reveal_strlit("InternalError");
    reveal_strlit("InvalidArgument");
    assert("NoSuchBucket"@[6] == 'B' && "NoSuchUpload"@[6] == 'U');
    assert("BucketNotEmpty"@.len() == 14);
    assert("InvalidArgument"@.len() == 15);
    assert("InternalError"@.len() == 13);
    assert("InvalidBucketName"@.len() == 17);
    assert("ServiceUnavailable"@.len() == 18);
    assert("NoSuchKey"@.len() == 9);
    assert("BucketAlreadyOwnedByYou"@.len() == 23);
}

/// Every one of many deletes is answered once: it stands among the keys that are gone exactly
/// where nothing went wrong with it, and otherwise among the failures.
pub proof fn law_every_delete_is_answered(d: Seq<DeleteOutcome>, i: int)
    requires
        0 <= i < d.len(),
    ensures
        s3_service::successes(d, d.len()).len() + s3_service::failures(d, d.len()).len()
            == d.len(),
        d[i].failure is None ==> s3_service::successes(d, d.len()).contains(d[i].key@),
        d[i].failure is Some ==> exists|k: int|
            0 <= k < s3_service::failures(d, d.len()).len() && (#[trigger] s3_service::failures(
                d,
                d.len(),
            )[k]).0 == d[i].key@,
        (forall|j: int| 0 <= j < d.len() && d[j].key@ == d[i].key@ ==> j == i)
            && d[i].failure is Some ==> !s3_service::successes(d, d.len()).contains(d[i].key@),
{
    lemma_deletes(d, d.len(), i);
}

proof fn lemma_deletes(d: Seq<DeleteOutcome>, n: nat, i: int)
    requires
        n <= d.len(),
        0 <= i < d.len(),
    ensures
        s3_service::successes(d, n).len() + s3_service::failures(d, n).len() == n,
        i < n && d[i].failure is None ==> s3_service::successes(d, n).contains(d[i].key@),
        i < n && d[i].failure is Some ==> exists|k: int|
            0 <= k < s3_service::failures(d, n).len() && (#[trigger] s3_service::failures(
                d,
                n,
            )[k]).0 == d[i].key@,
        (forall|j: int| 0 <= j < d.len() && d[j].key@ == d[i].key@ ==> j == i)
            && d[i].failure is Some ==> !s3_service::successes(d, n).contains(d[i].key@),
    decreases n,
{
    if n > 0 {
        let m = (n - 1) as nat;
        lemma_deletes(d, m, i);
        let s0 = s3_service::successes(d, m);
        let s1 = s3_service::successes(d, n);
        let f0 = s3_service::failures(d, m);
        let f1 = s3_service::failures(d, n);
        if i < m && d[i].failure is None {
            let k = choose|k: int| 0 <= k < s0.len() && s0[k] == d[i].key@;
            assert(s1[k] == d[i].key@);
        }
        if i == m && d[i].failure is None {
            assert(s1[s1.len() - 1] == d[i].key@);
        }
        if i < m && d[i].failure is Some {
            let k = choose|k: int| 0 <= k < f0.len() && (#[trigger] f0[k]).0 == d[i].key@;
            assert(f1[k].0 == d[i].key@);
        }
        if i == m && d[i].failure is Some {
            assert(f1[f1.len() - 1].0 == d[i].key@);
        }
        if d[i].failure is Some && s1.contains(d[i].key@) && (forall|j: int|
            0 <= j < d.len() && d[j].key@ == d[i].key@ ==> j == i) {
            let k = choose|k: int| 0 <= k < s1.len() && s1[k] == d[i].key@;
            if k < s0.len() {
                assert(s0[k] == d[i].key@);
                assert(s0.contains(d[i].key@));
            }
        }
    }
}

/// A write answers with the id of the version that it made; a bucket whose versioning is
/// suspended answers `null`, and one without versions nothing.
pub proof fn law_write_answers_its_version(id: Seq<char>, mode: Versioning)
    ensures
        id.len() > 0 ==> s3_service::version_answered(id, mode) == Some(id),
        id.len() == 0 && mode == Versioning::Suspended ==> s3_service::version_answered(id, mode)
            == Some("null"@),
        id.len() == 0 && mode != Versioning::Suspended ==> s3_service::version_answered(
            id,
            mode,
        ) is None,
{
}

/// A listed version is told as it is stored: an object without an id is the version `null`.
pub proof fn law_version_is_listed_as_stored(e: ListedVersion, key: Seq<char>, m: ObjectMeta)
    requires
        s3_service::lists_version(e, key, m@),
    ensures
        e.key@ == key,
        e.is_latest == m.is_latest,
        e.last_modified == m.created_at,
        e.etag@ == m.etag@,
        e.size == m.size,
        m.version_id@.len() > 0 ==> e.version_id@ == m.version_id@,
        m.version_id@.len() == 0 && !m.is_delete_marker ==> e.version_id@ == "null"@,
        m.version_id@.len() == 0 && m.is_delete_marker ==> e.version_id@.len() == 0,
{
}

/// A listing has an entry for each version, in the same order.
pub proof fn law_listing_has_an_entry_for_each(
    entries: Seq<ListedVersion>,
    want: Seq<(Seq<char>, MetaModel)>,
    i: int,
)
    requires
        s3_service::lists_all(entries, want),
        0 <= i < want.len(),
    ensures
        entries.len() == want.len(),
        s3_service::lists_version(entries[i], want[i].0, want[i].1),
{
    assert(entries[i] == entries[i]);
}

/// Exactly the tags with a key and a value are taken, in their order.
pub proof fn law_whole_tags_are_taken(
    tags: Seq<(Option<String>, Option<String>)>,
    tag: (Option<String>, Option<String>),
)
    ensures
        ({
            let before = s3_service::complete(tags, tags.len());
            let after = s3_service::complete(tags.push(tag), tags.len() + 1);
            &&& tag.0 is Some && tag.1 is Some ==> after == before.push((tag.0->0@, tag.1->0@))
            &&& tag.0 is None || tag.1 is None ==> after == before
            &&& s3_service::complete(tags, 0).len() == 0
        }),
{
    lemma_complete(tags, tag, tags.len());
}

proof fn lemma_complete(
    tags: Seq<(Option<String>, Option<String>)>,
    tag: (Option<String>, Option<String>),
    n: nat,
)
    requires
        n <= tags.len(),
    ensures
        s3_service::complete(tags.push(tag), n) == s3_service::complete(tags, n),
    decreases n,
{
    if n > 0 {
        lemma_complete(tags, tag, (n - 1) as nat);
        assert(tags.push(tag)[n - 1] == tags[n - 1]);
    }
}

/// Settings that can be read are kept; where they cannot, nothing is set.
pub proof fn law_settings_are_kept(s: BucketSettings)
    ensures
        s3_service::known(Some(s)) == s,
        s3_service::known(None).versioning is None,
        s3_service::known(None).policy is None,
        s3_service::known(None).lifecycle is None,
        s3_service::known(None).tags is None,
        s3_service::known(None).ftt is None,
{
}

/// A text that is not given is empty.
pub proof fn law_missing_text_is_empty(s: String)
    ensures
        s3_service::text_or_none(Some(s)) == s@,
        s3_service::text_or_none(None).len() == 0,
{
}

} // verus!
