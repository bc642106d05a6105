//! What S3 responses hold.

use vstd::prelude::*;
use vstd::string::*;

verus! {

/// The namespace of S3 documents.
pub const S3_XMLNS: &'static str = "http://s3.amazonaws.com/doc/2006-03-01/";

/// The buckets of the caller.
#[derive(Debug)]
pub struct ListAllMyBucketsResult {
    pub xmlns: String,
    pub owner: Owner,
    pub buckets: Buckets,
}

/// Who owns the buckets.
#[derive(Debug)]
pub struct Owner {
    pub id: String,
    pub display_name: String,
}

/// A list of buckets.
#[derive(Debug)]
pub struct Buckets {
    pub bucket: Vec<BucketXml>,
}

/// A bucket in a list.
#[derive(Debug)]
pub struct BucketXml {
    pub name: String,
    pub creation_date: String,
}

/// The objects of a bucket.
#[derive(Debug)]
pub struct ListBucketResultV2 {
    pub xmlns: String,
    pub name: String,
    pub prefix: String,
    pub key_count: usize,
    pub max_keys: usize,
    pub is_truncated: bool,
    pub contents: Vec<ObjectXml>,
    pub common_prefixes: Vec<PrefixXml>,
    pub next_continuation_token: String,
}

/// An object in a list.
#[derive(Debug)]
pub struct ObjectXml {
    pub key: String,
    pub last_modified: String,
    pub etag: String,
    pub size: u64,
    pub storage_class: String,
}

/// A common prefix in a list.
#[derive(Debug)]
pub struct PrefixXml {
    pub prefix: String,
}

/// What to delete.
#[derive(Debug)]
pub struct DeleteRequest {
    pub objects: Vec<DeleteObjectEntry>,
}

/// An object to delete.
#[derive(Debug)]
pub struct DeleteObjectEntry {
    pub key: String,
}

/// What was deleted, and what was not.
#[derive(Debug)]
pub struct DeleteResult {
    pub xmlns: String,
    pub deleted: Vec<DeletedXml>,
    pub errors: Vec<DeleteErrorXml>,
}

/// An object that was deleted.
#[derive(Debug)]
pub struct DeletedXml {
    pub key: String,
}

/// An object that was not deleted, and why.
#[derive(Debug)]
pub struct DeleteErrorXml {
    pub key: String,
    pub code: String,
    pub message: String,
}

/// The copy of an object.
#[derive(Debug)]
pub struct CopyObjectResultXml {
    pub etag: String,
    pub last_modified: String,
}

/// A version in a list.
#[derive(Debug)]
pub struct VersionXml {
    pub key: String,
    pub version_id: String,
    pub is_latest: bool,
    pub last_modified: String,
    pub etag: String,
    pub size: u64,
    pub storage_class: String,
}

/// A delete marker in a list.
#[derive(Debug)]
pub struct DeleteMarkerXml {
    pub key: String,
    pub version_id: String,
    pub is_latest: bool,
    pub last_modified: String,
}

/// The versions of the objects of a bucket.
#[derive(Debug)]
pub struct ListVersionsResultXml {
    pub xmlns: String,
    pub name: String,
    pub prefix: String,
    pub key_marker: String,
    pub version_id_marker: String,
    pub max_keys: usize,
    pub is_truncated: bool,
    pub versions: Vec<VersionXml>,
    pub delete_markers: Vec<DeleteMarkerXml>,
}

/// An upload in a list.
#[derive(Debug)]
pub struct UploadXml {
    pub key: String,
    pub upload_id: String,
    pub initiated: String,
}

/// A part in a list.
#[derive(Debug)]
pub struct PartXml {
    pub part_number: i32,
    pub etag: String,
    pub size: u64,
}

/// The owner of every bucket.
pub fn default_owner() -> (r: Owner)
    ensures
        r.id@ == "abixio"@,
        r.display_name@ == "abixio"@,
{
    Owner { id: "abixio".to_owned(), display_name: "abixio".to_owned() }
}

} // verus!
