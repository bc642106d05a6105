//! What the rules read of stored objects and of storage failures.

use vstd::prelude::*;
use vstd::string::*;

use crate::json::Json;
use crate::order;
use crate::text;

verus! {

/// Why a storage operation failed.
#[derive(Debug, PartialEq, Eq)]
pub enum StorageError {
    BucketNotFound,
    ObjectNotFound,
    BucketExists,
    BucketNotEmpty,
    WriteQuorum,
    ReadQuorum,
    Bitrot,
    InvalidConfig(String),
    Io(String),
    InvalidBucketName(String),
    InvalidObjectKey(String),
    InvalidVersionId(String),
    InvalidUploadId(String),
    Internal(String),
}

/// How an object is cut into shards, and which shard this is.
#[derive(Debug, PartialEq, Eq)]
pub struct ErasureMeta {
    pub data: usize,
    pub parity: usize,
    /// Position of this shard.
    pub index: usize,
    /// The disk of each shard.
    pub distribution: Vec<usize>,
    pub epoch_id: u64,
    pub volume_ids: Vec<String>,
}

/// `ErasureMeta` as a mathematical value.
pub struct ErasureModel {
    pub data: usize,
    pub parity: usize,
    pub index: usize,
    pub distribution: Seq<usize>,
    pub epoch_id: u64,
    pub volume_ids: Seq<Seq<char>>,
}

/// Metadata stored beside each shard of an object.
#[derive(Debug, PartialEq, Eq)]
pub struct ObjectMeta {
    pub size: u64,
    pub etag: String,
    pub content_type: String,
    pub created_at: u64,
    pub version_id: String,
    pub is_latest: bool,
    pub is_delete_marker: bool,
    pub erasure: ErasureMeta,
    /// Hex SHA-256 digest of the shard.
    pub checksum: String,
    pub user_metadata: Vec<(String, String)>,
    pub tags: Vec<(String, String)>,
}

/// `ObjectMeta` as a mathematical value.
pub struct MetaModel {
    pub size: u64,
    pub etag: Seq<char>,
    pub content_type: Seq<char>,
    pub created_at: u64,
    pub version_id: Seq<char>,
    pub is_latest: bool,
    pub is_delete_marker: bool,
    pub erasure: ErasureModel,
    pub checksum: Seq<char>,
    pub user_metadata: Seq<(Seq<char>, Seq<char>)>,
    pub tags: Seq<(Seq<char>, Seq<char>)>,
}

/// The texts of name and value pairs.
pub open spec fn pair_views(v: Seq<(String, String)>) -> Seq<(Seq<char>, Seq<char>)> {
    Seq::new(v.len(), |i: int| (v[i].0@, v[i].1@))
}

impl View for ErasureMeta {
    type V = ErasureModel;

    open spec fn view(&self) -> ErasureModel {
        ErasureModel {
            data: self.data,
            parity: self.parity,
            index: self.index,
            distribution: self.distribution@,
            epoch_id: self.epoch_id,
            volume_ids: order::views(self.volume_ids@),
        }
    }
}

impl View for ObjectMeta {
    type V = MetaModel;

    open spec fn view(&self) -> MetaModel {
        MetaModel {
            size: self.size,
            etag: self.etag@,
            content_type: self.content_type@,
            created_at: self.created_at,
            version_id: self.version_id@,
            is_latest: self.is_latest,
            is_delete_marker: self.is_delete_marker,
            erasure: self.erasure@,
            checksum: self.checksum@,
            user_metadata: pair_views(self.user_metadata@),
            tags: pair_views(self.tags@),
        }
    }
}

/// A list with the same strings.
pub fn clone_strings(list: &Vec<String>) -> (r: Vec<String>)
    ensures
        order::views(r@) == order::views(list@),
{
    let mut out: Vec<String> = Vec::new();
    while out.len() < list.len()
        invariant
            out@.len() <= list@.len(),
            forall|k: int| 0 <= k < out@.len() ==> (#[trigger] out@[k])@ == list@[k]@,
        decreases list@.len() - out@.len(),
    {
        out.push(list[out.len()].clone());
    }
    assert(order::views(out@) =~= order::views(list@));
    out
}

/// A list with the same pairs.
pub fn clone_pairs(list: &Vec<(String, String)>) -> (r: Vec<(String, String)>)
    ensures
        pair_views(r@) == pair_views(list@),
{
    let mut out: Vec<(String, String)> = Vec::new();
    while out.len() < list.len()
        invariant
            out@.len() <= list@.len(),
            forall|k: int|
                0 <= k < out@.len() ==> (#[trigger] out@[k]).0@ == list@[k].0@ && out@[k].1@
                    == list@[k].1@,
        decreases list@.len() - out@.len(),
    {
        let i: usize = out.len();
        out.push((list[i].0.clone(), list[i].1.clone()));
    }
    assert(pair_views(out@) =~= pair_views(list@));
    out
}

/// A list with the same numbers.
pub fn clone_usizes(list: &Vec<usize>) -> (r: Vec<usize>)
    ensures
        r@ == list@,
{
    let mut out: Vec<usize> = Vec::new();
    while out.len() < list.len()
        invariant
            out@.len() <= list@.len(),
            forall|k: int| 0 <= k < out@.len() ==> #[trigger] out@[k] == list@[k],
        decreases list@.len() - out@.len(),
    {
        out.push(list[out.len()]);
    }
    assert(out@ =~= list@);
    out
}

impl Clone for ErasureMeta {
    fn clone(&self) -> (r: Self)
        ensures
            r@ == self@,
    {
        ErasureMeta {
            data: self.data,
            parity: self.parity,
            index: self.index,
            distribution: clone_usizes(&self.distribution),
            epoch_id: self.epoch_id,
            volume_ids: clone_strings(&self.volume_ids),
        }
    }
}

impl Clone for ObjectMeta {
    fn clone(&self) -> (r: Self)
        ensures
            r@ == self@,
    {
        ObjectMeta {
            size: self.size,
            etag: self.etag.clone(),
            content_type: self.content_type.clone(),
            created_at: self.created_at,
            version_id: self.version_id.clone(),
            is_latest: self.is_latest,
            is_delete_marker: self.is_delete_marker,
            erasure: self.erasure.clone(),
            checksum: self.checksum.clone(),
            user_metadata: clone_pairs(&self.user_metadata),
            tags: clone_pairs(&self.tags),
        }
    }
}

/// Two shards carry the metadata of the same write: all that does not differ from
/// shard to shard is equal.
pub open spec fn same_write(a: MetaModel, b: MetaModel) -> bool {
    &&& a.size == b.size
    &&& a.etag == b.etag
    &&& a.content_type == b.content_type
    &&& a.created_at == b.created_at
    &&& a.version_id == b.version_id
    &&& a.is_delete_marker == b.is_delete_marker
    &&& a.erasure.data == b.erasure.data
    &&& a.erasure.parity == b.erasure.parity
    &&& a.erasure.distribution == b.erasure.distribution
    &&& a.erasure.epoch_id == b.erasure.epoch_id
}

/// Whether two lists hold the same numbers.
pub fn usizes_eq(a: &Vec<usize>, b: &Vec<usize>) -> (r: bool)
    ensures
        r == (a@ == b@),
{
    if a.len() != b.len() {
        return false;
    }
    let mut i: usize = 0;
    while i < a.len()
        invariant
            i <= a@.len(),
            a@.len() == b@.len(),
            forall|k: int| 0 <= k < i ==> a@[k] == b@[k],
        decreases a@.len() - i,
    {
        if a[i] != b[i] {
            return false;
        }
        i = i + 1;
    }
    assert(a@ =~= b@);
    true
}

impl ObjectMeta {
    /// Whether two shards carry the metadata of the same write.
    pub fn quorum_eq(&self, other: &ObjectMeta) -> (r: bool)
        ensures
            r == same_write(self@, other@),
    {
        self.size == other.size && text::str_eq(self.etag.as_str(), other.etag.as_str())
            && text::str_eq(self.content_type.as_str(), other.content_type.as_str())
            && self.created_at == other.created_at && text::str_eq(
            self.version_id.as_str(),
            other.version_id.as_str(),
        ) && self.is_delete_marker == other.is_delete_marker && self.erasure.data
            == other.erasure.data && self.erasure.parity == other.erasure.parity && usizes_eq(
            &self.erasure.distribution,
            &other.erasure.distribution,
        ) && self.erasure.epoch_id == other.erasure.epoch_id
    }
}

/// Settings of a bucket.
#[derive(Debug)]
pub struct BucketSettings {
    /// How many failures objects of the bucket tolerate.
    pub ftt: Option<usize>,
    /// Versioning status.
    pub versioning: Option<String>,
    pub policy: Option<Json>,
    pub lifecycle: Option<String>,
    pub tags: Option<Vec<(String, String)>>,
}

/// An optional text as a mathematical value.
pub open spec fn opt_view(s: Option<String>) -> Option<Seq<char>> {
    match s {
        Some(t) => Some(t@),
        None => None,
    }
}

/// Two settings with the same contents.
pub open spec fn same_settings(a: BucketSettings, b: BucketSettings) -> bool {
    &&& a.ftt == b.ftt
    &&& opt_view(a.versioning) == opt_view(b.versioning)
    &&& match (a.policy, b.policy) {
        (Some(x), Some(y)) => crate::json::same(x, y),
        (None, None) => true,
        _ => false,
    }
    &&& opt_view(a.lifecycle) == opt_view(b.lifecycle)
    &&& match (a.tags, b.tags) {
        (Some(x), Some(y)) => pair_views(x@) == pair_views(y@),
        (None, None) => true,
        _ => false,
    }
}

/// Two settings that both hold what a third one holds have the same contents.
pub proof fn lemma_same_settings_join(a: BucketSettings, b: BucketSettings, c: BucketSettings)
    requires
        same_settings(a, b),
        same_settings(a, c),
    ensures
        same_settings(b, c),
{
    match (a.policy, b.policy, c.policy) {
        (Some(x), Some(y), Some(z)) => {
            crate::json::lemma_same_join(x, y, z);
        },
        _ => {},
    }
}

/// An optional text of its own.
pub fn clone_opt(s: &Option<String>) -> (r: Option<String>)
    ensures
        opt_view(r) == opt_view(*s),
{
    match s {
        Some(t) => Some(t.clone()),
        None => None,
    }
}

impl Clone for BucketSettings {
    fn clone(&self) -> (r: Self)
        ensures
            same_settings(*self, r),
    {
        BucketSettings {
            ftt: self.ftt,
            versioning: clone_opt(&self.versioning),
            policy: match &self.policy {
                Some(p) => Some(crate::json::copy(p)),
                None => None,
            },
            lifecycle: clone_opt(&self.lifecycle),
            tags: match &self.tags {
                Some(t) => Some(clone_pairs(t)),
                None => None,
            },
        }
    }
}

impl Default for BucketSettings {
    fn default() -> (r: Self)
        ensures
            r == (BucketSettings {
                ftt: None,
                versioning: None,
                policy: None,
                lifecycle: None,
                tags: None,
            }),
    {
        BucketSettings { ftt: None, versioning: None, policy: None, lifecycle: None, tags: None }
    }
}

/// A bucket, as the store lists it.
#[derive(Debug)]
pub struct BucketInfo {
    pub name: String,
    pub created_at: u64,
}

/// An object, as the store reports it.
#[derive(Debug)]
pub struct ObjectInfo {
    pub bucket: String,
    pub key: String,
    pub size: u64,
    pub etag: String,
    pub content_type: String,
    pub created_at: u64,
    pub user_metadata: Vec<(String, String)>,
    pub tags: Vec<(String, String)>,
    pub version_id: String,
}

/// `ObjectInfo` as a mathematical value.
pub struct InfoModel {
    pub bucket: Seq<char>,
    pub key: Seq<char>,
    pub size: u64,
    pub etag: Seq<char>,
    pub content_type: Seq<char>,
    pub created_at: u64,
    pub user_metadata: Seq<(Seq<char>, Seq<char>)>,
    pub tags: Seq<(Seq<char>, Seq<char>)>,
    pub version_id: Seq<char>,
}

impl View for ObjectInfo {
    type V = InfoModel;

    open spec fn view(&self) -> InfoModel {
        InfoModel {
            bucket: self.bucket@,
            key: self.key@,
            size: self.size,
            etag: self.etag@,
            content_type: self.content_type@,
            created_at: self.created_at,
            user_metadata: pair_views(self.user_metadata@),
            tags: pair_views(self.tags@),
            version_id: self.version_id@,
        }
    }
}

/// What to list.
#[derive(Debug)]
pub struct ListOptions {
    pub prefix: String,
    pub delimiter: String,
    pub max_keys: usize,
}

/// What the store found to list.
#[derive(Debug)]
pub struct Listing {
    pub objects: Vec<ObjectInfo>,
    pub common_prefixes: Vec<String>,
    pub is_truncated: bool,
    pub next_continuation_token: String,
}

/// Adds a pair to a list.
pub fn push_pair(list: &mut Vec<(String, String)>, name: &str, value: &str)
    ensures
        pair_views(final(list)@) == pair_views(old(list)@).push((name@, value@)),
{
    let ghost before = pair_views(list@);
    list.push((name.to_owned(), value.to_owned()));
    assert(pair_views(list@) =~= before.push((name@, value@)));
}

/// Adds pairs to a list.
pub fn push_pairs(list: &mut Vec<(String, String)>, more: &Vec<(String, String)>)
    ensures
        pair_views(final(list)@) == pair_views(old(list)@) + pair_views(more@),
{
    let ghost before = pair_views(list@);
    let ghost all = pair_views(more@);
    let mut i: usize = 0;
    assert(before + all.take(0) =~= before);
    while i < more.len()
        invariant
            i <= more@.len(),
            all == pair_views(more@),
            pair_views(list@) == before + all.take(i as int),
        decreases more@.len() - i,
    {
        push_pair(list, more[i].0.as_str(), more[i].1.as_str());
        assert(before + all.take(i + 1) =~= (before + all.take(i as int)).push(all[i as int]));
        i = i + 1;
    }
    assert(all.take(i as int) =~= all);
}

} // verus!
