//! Multipart uploads: parts are erasure coded as they come, and assembled at the end.

use vstd::prelude::*;
use vstd::string::*;
use vstd::utf8::*;

use crate::digest;
use crate::erasure;
use crate::erasure::CodecError;
use crate::order;
use crate::s3::settings;
use crate::shards;
use crate::split;
use crate::storage;
use crate::storage::{ErasureMeta, ErasureModel, StorageError};
use crate::text;

verus! {

/// Where uploads are kept on a disk.
pub const MULTIPART_DIR: &'static str = ".abixio.sys/multipart";

/// The file that describes an upload.
pub const UPLOAD_FILE: &'static str = "upload.json";

/// An upload that has begun.
#[derive(Debug)]
pub struct UploadMeta {
    pub upload_id: String,
    pub bucket: String,
    pub key: String,
    pub content_type: String,
    pub user_metadata: Vec<(String, String)>,
    pub created_at: u64,
    pub data_dir: String,
}

/// A part of an upload.
#[derive(Debug)]
pub struct PartMeta {
    pub part_number: i32,
    pub size: u64,
    pub etag: String,
}

/// What is stored beside each shard of a part.
#[derive(Debug)]
pub struct PartFileMeta {
    pub part_number: i32,
    pub size: u64,
    pub etag: String,
    pub erasure: ErasureMeta,
    /// Hex SHA-256 digest of the shard.
    pub checksum: String,
}

// --------------------------------------------------------------------- paths

/// The steps from a disk to the uploads of a bucket.
pub open spec fn bucket_steps(label: Seq<char>, bucket: Seq<char>) -> Seq<Seq<char>> {
    seq![settings::root_in(label), MULTIPART_DIR@, bucket]
}

/// The steps from a disk to the uploads of a bucket, by the label of the disk.
pub fn multipart_bucket_dir(label: &str, bucket: &str) -> (r: Vec<String>)
    ensures
        order::views(r@) == bucket_steps(label@, bucket@),
{
    let mut out: Vec<String> = Vec::new();
    out.push(settings::disk_root(label).to_owned());
    out.push(MULTIPART_DIR.to_owned());
    out.push(bucket.to_owned());
    assert(order::views(out@) =~= bucket_steps(label@, bucket@));
    out
}

/// The steps from a disk to an upload, by the label of the disk.
pub fn upload_dir(label: &str, bucket: &str, key: &str, upload_id: &str) -> (r: Vec<String>)
    ensures
        order::views(r@) == bucket_steps(label@, bucket@).push(key@).push(upload_id@),
{
    let mut out = multipart_bucket_dir(label, bucket);
    let ghost before = order::views(out@);
    out.push(key.to_owned());
    out.push(upload_id.to_owned());
    assert(order::views(out@) =~= before.push(key@).push(upload_id@));
    out
}

/// The file that holds the shard of a part.
pub open spec fn part_name(n: int) -> Seq<char> {
    "part."@ + text::decimal_int(n)
}

/// The file that holds the shard of a part.
pub fn part_file(part_number: i32) -> (r: String)
    ensures
        r@ == part_name(part_number as int),
{
    let mut out = "part.".to_owned();
    out.append(text::decimal_i64(part_number as i64).as_str());
    out
}

/// The file that describes the shard of a part.
pub fn part_meta_file(part_number: i32) -> (r: String)
    ensures
        r@ == part_name(part_number as int) + ".meta"@,
{
    let mut out = part_file(part_number);
    out.append(".meta");
    out
}

/// Whether a file describes the shard of a part.
pub fn is_part_meta(name: &str) -> (r: bool)
    ensures
        r == (text::has_suffix(name@, ".meta"@) && text::has_prefix(name@, "part."@)),
{
    text::ends_with(name, ".meta") && text::starts_with(name, "part.")
}

// ----------------------------------------------------------------- beginning

/// Begins an upload, where at least one of the disks has taken its description.
pub fn create_upload(upload: &UploadMeta, written: usize) -> (r: Result<String, StorageError>)
    ensures
        match r {
            Ok(id) => written > 0 && id@ == upload.upload_id@,
            Err(e) => written == 0 && e == StorageError::WriteQuorum,
        },
{
    if written == 0 {
        Err(StorageError::WriteQuorum)
    } else {
        Ok(upload.upload_id.clone())
    }
}

/// Whether an upload with this id is among the first `n`.
pub open spec fn seen(v: Seq<UploadMeta>, n: int, id: Seq<char>) -> bool {
    exists|i: int| 0 <= i < n && (#[trigger] v[i]).upload_id@ == id
}

/// The places of the uploads whose id has not come before, among the first `n`.
pub open spec fn first_places(v: Seq<UploadMeta>, n: nat) -> Seq<int>
    decreases n,
{
    if n == 0 {
        Seq::empty()
    } else if seen(v, n - 1, v[n - 1].upload_id@) {
        first_places(v, (n - 1) as nat)
    } else {
        first_places(v, (n - 1) as nat).push(n - 1)
    }
}

/// The uploads are those at the given places.
pub open spec fn picks(r: Seq<UploadMeta>, v: Seq<UploadMeta>, places: Seq<int>) -> bool {
    &&& r.len() == places.len()
    &&& forall|i: int| 0 <= i < r.len() ==> same_upload(#[trigger] r[i], v[places[i]])
}

/// Two descriptions of the same upload.
pub open spec fn same_upload(a: UploadMeta, b: UploadMeta) -> bool {
    &&& a.upload_id@ == b.upload_id@
    &&& a.bucket@ == b.bucket@
    &&& a.key@ == b.key@
    &&& a.content_type@ == b.content_type@
    &&& storage::pair_views(a.user_metadata@) == storage::pair_views(b.user_metadata@)
    &&& a.created_at == b.created_at
    &&& a.data_dir@ == b.data_dir@
}

impl Clone for UploadMeta {
    fn clone(&self) -> (r: Self)
        ensures
            same_upload(r, *self),
    {
        UploadMeta {
            upload_id: self.upload_id.clone(),
            bucket: self.bucket.clone(),
            key: self.key.clone(),
            content_type: self.content_type.clone(),
            user_metadata: storage::clone_pairs(&self.user_metadata),
            created_at: self.created_at,
            data_dir: self.data_dir.clone(),
        }
    }
}

/// The listings of the first `n` disks, one after the other. A disk that has none adds
/// nothing.
pub open spec fn all_listings(v: Seq<Option<Vec<UploadMeta>>>, n: nat) -> Seq<UploadMeta>
    decreases n,
{
    if n == 0 {
        Seq::empty()
    } else {
        all_listings(v, (n - 1) as nat) + (match v[n - 1] {
            Some(list) => list@,
            None => Seq::empty(),
        })
    }
}

/// Each id is first seen at one place, and at no other.
proof fn lemma_first_places(v: Seq<UploadMeta>, n: nat)
    requires
        n <= v.len(),
    ensures
        forall|i: int|
            0 <= i < first_places(v, n).len() ==> 0 <= #[trigger] first_places(v, n)[i] < n,
        forall|i: int, j: int|
            #![trigger first_places(v, n)[i], first_places(v, n)[j]]
            0 <= i < j < first_places(v, n).len() ==> v[first_places(v, n)[i]].upload_id@
                != v[first_places(v, n)[j]].upload_id@,
        forall|id: Seq<char>| #[trigger]
            seen(v, n as int, id) <==> exists|i: int|
                0 <= i < first_places(v, n).len() && v[#[trigger] first_places(v, n)[i]].upload_id@
                    == id,
    decreases n,
{
    if n > 0 {
        let m = (n - 1) as nat;
        lemma_first_places(v, m);
        let a = first_places(v, m);
        let b = first_places(v, n);
        let last = v[n - 1].upload_id@;
        assert forall|i: int| 0 <= i < a.len() implies #[trigger] b[i] == a[i] by {}
        assert forall|i: int, j: int|
            #![trigger b[i], b[j]]
            0 <= i < j < b.len() implies v[b[i]].upload_id@ != v[b[j]].upload_id@ by {
            if j == a.len() {
                assert(a[i] == b[i]);
                if v[a[i]].upload_id@ == last {
                    assert(seen(v, m as int, last));
                }
            }
        }
        assert forall|id: Seq<char>| #[trigger] seen(v, n as int, id) <==> exists|i: int|
            0 <= i < b.len() && v[#[trigger] b[i]].upload_id@ == id by {
            if seen(v, n as int, id) {
                let w = choose|w: int| 0 <= w < n && (#[trigger] v[w]).upload_id@ == id;
                if w < m {
                    assert(seen(v, m as int, id));
                }
                if seen(v, m as int, id) {
                    let i = choose|i: int| 0 <= i < a.len() && v[#[trigger] a[i]].upload_id@ == id;
                    assert(v[b[i]].upload_id@ == id);
                } else {
                    assert(b[a.len() as int] == n - 1);
                }
            }
            if exists|i: int| 0 <= i < b.len() && v[#[trigger] b[i]].upload_id@ == id {
                let i = choose|i: int| 0 <= i < b.len() && v[#[trigger] b[i]].upload_id@ == id;
                if i < a.len() {
                    assert(a[i] == b[i]);
                }
                assert(v[b[i]].upload_id@ == id);
            }
        }
    }
}

/// What comes later does not change where an id is first seen.
proof fn lemma_first_places_prefix(v: Seq<UploadMeta>, w: Seq<UploadMeta>, n: nat)
    requires
        n <= v.len(),
    ensures
        first_places(v + w, n) == first_places(v, n),
        forall|id: Seq<char>| #[trigger] seen(v + w, n as int, id) == seen(v, n as int, id),
    decreases n,
{
    assert forall|id: Seq<char>| #[trigger] seen(v + w, n as int, id) == seen(v, n as int, id) by {
        if seen(v, n as int, id) {
            let k = choose|k: int| 0 <= k < n && (#[trigger] v[k]).upload_id@ == id;
            assert((v + w)[k].upload_id@ == id);
        }
        if seen(v + w, n as int, id) {
            let k = choose|k: int| 0 <= k < n && (#[trigger] (v + w)[k]).upload_id@ == id;
            assert(v[k].upload_id@ == id);
        }
    }
    if n > 0 {
        lemma_first_places_prefix(v, w, (n - 1) as nat);
        assert((v + w)[n - 1] == v[n - 1]);
    }
}

/// Adds an upload to those listed so far, unless its id is among them.
fn add_upload(out: &mut Vec<UploadMeta>, u: &UploadMeta, Ghost(all): Ghost<Seq<UploadMeta>>)
    requires
        picks(old(out)@, all, first_places(all, all.len())),
    ensures
        picks(
            final(out)@,
            all.push(*u),
            first_places(all.push(*u), all.len() + 1),
        ),
{
    let ghost before = out@;
    let ghost places = first_places(all, all.len());
    let mut known = false;
    let mut k: usize = 0;
    while k < out.len()
        invariant
            k <= out@.len(),
            out@ == before,
            known == exists|i: int| 0 <= i < k && (#[trigger] before[i]).upload_id@ == u.upload_id@,
        decreases out@.len() - k,
    {
        if text::str_eq(out[k].upload_id.as_str(), u.upload_id.as_str()) {
            known = true;
        }
        k = k + 1;
    }
    proof {
        lemma_first_places(all, all.len());
        lemma_first_places_prefix(all, seq![*u], all.len());
        assert(all + seq![*u] =~= all.push(*u));
        if known {
            let i = choose|i: int|
                0 <= i < before.len() && (#[trigger] before[i]).upload_id@ == u.upload_id@;
            assert(same_upload(before[i], all[places[i]]));
            assert(seen(all, all.len() as int, u.upload_id@));
        } else if seen(all, all.len() as int, u.upload_id@) {
            let i = choose|i: int|
                0 <= i < places.len() && all[#[trigger] places[i]].upload_id@ == u.upload_id@;
            assert(same_upload(before[i], all[places[i]]));
            assert(before[i].upload_id@ == u.upload_id@);
        }
        assert(seen(all.push(*u), all.len() as int, u.upload_id@) == known);
        assert forall|i: int| 0 <= i < before.len() implies same_upload(
            #[trigger] before[i],
            all.push(*u)[places[i]],
        ) by {
            assert(same_upload(before[i], all[places[i]]));
        }
    }
    if !known {
        out.push(u.clone());
    }
}

/// The uploads in progress, by the listing of each disk. An upload that any disk names is
/// listed, and it is listed once.
pub fn list_uploads(listings: &Vec<Option<Vec<UploadMeta>>>) -> (r: Result<
    Vec<UploadMeta>,
    StorageError,
>)
    ensures
        ({
            let all = all_listings(listings@, listings@.len());
            r matches Ok(out) && picks(out@, all, first_places(all, all.len()))
        }),
{
    let mut out: Vec<UploadMeta> = Vec::new();
    let mut i: usize = 0;
    while i < listings.len()
        invariant
            i <= listings@.len(),
            ({
                let all = all_listings(listings@, i as nat);
                picks(out@, all, first_places(all, all.len()))
            }),
        decreases listings@.len() - i,
    {
        let ghost before = all_listings(listings@, i as nat);
        if let Some(list) = &listings[i] {
            let mut j: usize = 0;
            assert(before + list@.take(0) =~= before);
            while j < list.len()
                invariant
                    j <= list@.len(),
                    ({
                        let all = before + list@.take(j as int);
                        picks(out@, all, first_places(all, all.len()))
                    }),
                decreases list@.len() - j,
            {
                let ghost all = before + list@.take(j as int);
                assert(all.push(list@[j as int]) =~= before + list@.take(j + 1));
                add_upload(&mut out, &list[j], Ghost(all));
                j = j + 1;
            }
            assert(list@.take(j as int) =~= list@);
        } else {
            assert(before + Seq::<UploadMeta>::empty() =~= before);
        }
        i = i + 1;
    }
    Ok(out)
}

/// Every upload that some disk names is listed, and no upload is listed twice.
pub proof fn law_every_upload_is_listed_once(
    listings: Seq<Option<Vec<UploadMeta>>>,
    listed: Seq<UploadMeta>,
    disk: int,
    k: int,
)
    requires
        ({
            let all = all_listings(listings, listings.len());
            picks(listed, all, first_places(all, all.len()))
        }),
        0 <= disk < listings.len(),
        listings[disk] matches Some(list) && 0 <= k < list@.len(),
    ensures
        exists|i: int|
            0 <= i < listed.len() && (#[trigger] listed[i]).upload_id@
                == listings[disk]->0@[k].upload_id@,
        forall|i: int, j: int|
            #![trigger listed[i], listed[j]]
            0 <= i < j < listed.len() ==> listed[i].upload_id@ != listed[j].upload_id@,
{
    let all = all_listings(listings, listings.len());
    let places = first_places(all, all.len());
    lemma_first_places(all, all.len());
    let id = listings[disk]->0@[k].upload_id@;
    lemma_in_all_listings(listings, listings.len(), disk, k);
    assert(seen(all, all.len() as int, id));
    let i = choose|i: int| 0 <= i < places.len() && all[#[trigger] places[i]].upload_id@ == id;
    assert(same_upload(listed[i], all[places[i]]));
    assert(listed[i].upload_id@ == id);
    assert forall|i: int, j: int|
        #![trigger listed[i], listed[j]]
        0 <= i < j < listed.len() implies listed[i].upload_id@ != listed[j].upload_id@ by {
        assert(same_upload(listed[i], all[places[i]]));
        assert(same_upload(listed[j], all[places[j]]));
    }
}

proof fn lemma_in_all_listings(v: Seq<Option<Vec<UploadMeta>>>, n: nat, disk: int, k: int)
    requires
        0 <= disk < n <= v.len(),
        v[disk] matches Some(list) && 0 <= k < list@.len(),
    ensures
        exists|w: int|
            0 <= w < all_listings(v, n).len() && (#[trigger] all_listings(v, n)[w]).upload_id@
                == v[disk]->0@[k].upload_id@,
    decreases n,
{
    let m = (n - 1) as nat;
    let before = all_listings(v, m);
    let all = all_listings(v, n);
    if disk == m {
        assert(all[before.len() + k] == v[disk]->0@[k]);
    } else {
        lemma_in_all_listings(v, m, disk, k);
        let w = choose|w: int|
            0 <= w < before.len() && (#[trigger] before[w]).upload_id@ == v[disk]->0@[k].upload_id@;
        assert(all[w] == before[w]);
    }
}

// --------------------------------------------------------------------- parts

/// Why a part cannot be written or read, as a mathematical value.
pub enum Failure {
    NotFound,
    WriteQuorum,
    ReadQuorum,
    InvalidConfig(Seq<char>),
}

/// The error reports this failure.
pub open spec fn reports(e: StorageError, f: Failure) -> bool {
    match f {
        Failure::NotFound => e == StorageError::ObjectNotFound,
        Failure::WriteQuorum => e == StorageError::WriteQuorum,
        Failure::ReadQuorum => e == StorageError::ReadQuorum,
        Failure::InvalidConfig(m) => e matches StorageError::InvalidConfig(t) && t@ == m,
    }
}

/// There is no erasure code with these shard counts.
pub open spec fn no_code(data: int, parity: int) -> Failure {
    Failure::InvalidConfig("reed-solomon: "@ + erasure::config_complaint(data, parity))
}

/// The shards of a part: the data cut up, followed by parity shards where there are any.
pub open spec fn part_shards(data: Seq<u8>, n: nat, parity: nat) -> Seq<Seq<u8>> {
    if parity == 0 {
        shards::cut(data, n)
    } else {
        erasure::code_word(n, parity, shards::cut(data, n))
    }
}

/// Cuts a part into shards and adds the parity shards.
pub fn encode_part(data: &[u8], data_n: usize, parity_n: usize) -> (r: Result<
    Vec<Vec<u8>>,
    StorageError,
>)
    requires
        data_n > 0,
        data_n + parity_n <= usize::MAX,
    ensures
        r is Ok <==> parity_n == 0 || erasure::codec_exists(data_n as int, parity_n as int),
        match r {
            Ok(out) => {
                &&& erasure::shard_views(out@) == part_shards(
                    data@,
                    data_n as nat,
                    parity_n as nat,
                )
                &&& out@.len() == data_n + parity_n
                &&& erasure::shard_views(out@).take(data_n as int) == shards::cut(
                    data@,
                    data_n as nat,
                )
                &&& erasure::uniform(erasure::shard_views(out@))
            },
            Err(e) => reports(e, no_code(data_n as int, parity_n as int)),
        },
{
    let mut list = shards::split_data(data, data_n);
    let ghost parts = shards::cut(data@, data_n as nat);
    proof {
        shards::lemma_cut_is_uniform(data@, data_n as nat);
    }
    if parity_n == 0 {
        assert(parts.take(data_n as int) =~= parts);
        return Ok(list);
    }
    assert(list@[0]@ == erasure::shard_views(list@)[0]);
    let size: usize = list[0].len();
    let mut k: usize = 0;
    while k < parity_n
        invariant
            k <= parity_n,
            data_n > 0,
            data_n + parity_n <= usize::MAX,
            list@.len() == data_n + k,
            parts.len() == data_n,
            size == parts[0].len(),
            forall|i: int| 0 <= i < data_n ==> (#[trigger] list@[i])@ == parts[i],
            forall|i: int| data_n <= i < list@.len() ==> (#[trigger] list@[i])@.len() == size,
        decreases parity_n - k,
    {
        let mut zeros: Vec<u8> = Vec::new();
        while zeros.len() < size
            invariant
                zeros@.len() <= size,
            decreases size - zeros@.len(),
        {
            zeros.push(0);
        }
        list.push(zeros);
        k = k + 1;
    }
    proof {
        let all = erasure::shard_views(list@);
        assert(all.take(data_n as int) =~= parts);
        assert(all[0] == parts[0]);
        assert forall|i: int| 0 <= i < all.len() implies (#[trigger] all[i]).len()
            == all[0].len() by {
            if i < data_n {
                assert(all[i] == parts[i]);
            } else {
                assert(all[i] == list@[i]@);
            }
        }
        assert(erasure::uniform(all));
    }
    match erasure::encode(data_n, parity_n, list) {
        Ok(out) => Ok(out),
        Err(CodecError::Config(m)) => {
            let mut text = "reed-solomon: ".to_owned();
            text.append(m.as_str());
            Err(StorageError::InvalidConfig(text))
        },
        Err(CodecError::Shards(m)) => {
            let mut text = "encode: ".to_owned();
            text.append(m.as_str());
            Err(StorageError::InvalidConfig(text))
        },
    }
}

/// A shard to write, and to which disk.
#[derive(Debug)]
pub struct PartWrite {
    pub disk: usize,
    pub data: Vec<u8>,
    pub meta: PartFileMeta,
}

/// The places of the shards that have a disk, among the first `n`.
pub open spec fn placed(distribution: Seq<usize>, disks: int, n: nat) -> Seq<int>
    decreases n,
{
    if n == 0 {
        Seq::empty()
    } else if distribution[n - 1] < disks {
        placed(distribution, disks, (n - 1) as nat).push(n - 1)
    } else {
        placed(distribution, disks, (n - 1) as nat)
    }
}

/// The write puts the shard at a place on its disk, and says of which part: its number, its
/// size and its tag.
pub open spec fn write_for(
    w: PartWrite,
    place: int,
    word: Seq<Seq<u8>>,
    distribution: Seq<usize>,
    data: usize,
    parity: usize,
    part: (i32, int, Seq<char>),
) -> bool {
    &&& w.disk == distribution[place]
    &&& w.data@ == word[place]
    &&& w.meta.part_number == part.0
    &&& w.meta.size == part.1
    &&& w.meta.etag@ == part.2
    &&& w.meta.checksum@ == digest::hex_chars(digest::sha256_digest(word[place]))
    &&& w.meta.erasure@ == (ErasureModel {
        data,
        parity,
        index: place as usize,
        distribution,
        epoch_id: 0,
        volume_ids: Seq::empty(),
    })
}

/// The writes put the shards at the given places on their disks.
pub open spec fn writes_for(
    writes: Seq<PartWrite>,
    places: Seq<int>,
    word: Seq<Seq<u8>>,
    distribution: Seq<usize>,
    data: usize,
    parity: usize,
    part: (i32, int, Seq<char>),
) -> bool {
    &&& writes.len() == places.len()
    &&& forall|i: int|
        0 <= i < writes.len() ==> write_for(
            #[trigger] writes[i],
            places[i],
            word,
            distribution,
            data,
            parity,
            part,
        )
}

/// The tag of a part: the MD5 digest of its bytes.
pub open spec fn part_tag(data: Seq<u8>) -> Seq<char> {
    digest::hex_chars(digest::md5_digest(data))
}

/// What is to be known of a part, and the writes that store it. The distribution gives the
/// disk of each shard; a shard without a disk is not written.
pub fn put_part(
    data: &[u8],
    data_n: usize,
    parity_n: usize,
    distribution: &Vec<usize>,
    disks: usize,
    part_number: i32,
) -> (r: Result<(PartMeta, Vec<PartWrite>), StorageError>)
    requires
        data_n > 0,
        data_n + parity_n <= distribution@.len(),
    ensures
        r is Ok <==> parity_n == 0 || erasure::codec_exists(data_n as int, parity_n as int),
        match r {
            Ok(put) => put.0.part_number == part_number && put.0.size == data@.len()
                && put.0.etag@ == part_tag(data@) && writes_for(
                put.1@,
                placed(distribution@, disks as int, (data_n + parity_n) as nat),
                part_shards(data@, data_n as nat, parity_n as nat),
                distribution@,
                data_n,
                parity_n,
                (part_number, data@.len() as int, part_tag(data@)),
            ),
            Err(e) => reports(e, no_code(data_n as int, parity_n as int)),
        },
{
    assert(distribution.len() == distribution@.len());
    let list = match encode_part(data, data_n, parity_n) {
        Ok(l) => l,
        Err(e) => {
            return Err(e);
        },
    };
    let etag = digest::md5_hex(data);
    let ghost word = part_shards(data@, data_n as nat, parity_n as nat);
    let mut out: Vec<PartWrite> = Vec::new();
    let mut i: usize = 0;
    while i < list.len()
        invariant
            i <= list@.len(),
            list@.len() == data_n + parity_n,
            data_n + parity_n <= distribution@.len(),
            word == erasure::shard_views(list@),
            etag@ == part_tag(data@),
            writes_for(
                out@,
                placed(distribution@, disks as int, i as nat),
                word,
                distribution@,
                data_n,
                parity_n,
                (part_number, data@.len() as int, part_tag(data@)),
            ),
        decreases list@.len() - i,
    {
        if distribution[i] < disks {
            let volume_ids: Vec<String> = Vec::new();
            assert(order::views(volume_ids@) =~= Seq::<Seq<char>>::empty());
            let erasure = ErasureMeta {
                data: data_n,
                parity: parity_n,
                index: i,
                distribution: storage::clone_usizes(distribution),
                epoch_id: 0,
                volume_ids,
            };
            let checksum = digest::sha256_hex(list[i].as_slice());
            let mut copy: Vec<u8> = Vec::new();
            copy.extend_from_slice(list[i].as_slice());
            assert(copy@ =~= word[i as int]);
            out.push(
                PartWrite {
                    disk: distribution[i],
                    data: copy,
                    meta: PartFileMeta {
                        part_number,
                        size: data.len() as u64,
                        etag: etag.clone(),
                        erasure,
                        checksum,
                    },
                },
            );
        }
        i = i + 1;
    }
    Ok((PartMeta { part_number, size: data.len() as u64, etag }, out))
}

/// How many shards have to be written for a part to count as stored: one more than are
/// needed to read it, where there is parity.
pub open spec fn write_quorum(data: int, parity: int) -> int {
    if parity == 0 {
        data
    } else {
        data + 1
    }
}

/// Ends the writing of a part, by how many of its shards were written.
pub fn finish_part(part: PartMeta, written: usize, data_n: usize, parity_n: usize) -> (r: Result<
    PartMeta,
    StorageError,
>)
    requires
        data_n < usize::MAX,
    ensures
        match r {
            Ok(p) => written >= write_quorum(data_n as int, parity_n as int) && p == part,
            Err(e) => written < write_quorum(data_n as int, parity_n as int) && e
                == StorageError::WriteQuorum,
        },
{
    let quorum: usize = if parity_n == 0 {
        data_n
    } else {
        data_n + 1
    };
    if written < quorum {
        Err(StorageError::WriteQuorum)
    } else {
        Ok(part)
    }
}

/// The first description of a part with this number.
pub open spec fn first_of(v: Seq<PartFileMeta>, number: i32) -> Option<int>
    decreases v.len(),
{
    if v.len() == 0 {
        None
    } else {
        match first_of(v.drop_last(), number) {
            Some(i) => Some(i),
            None => if v.last().part_number == number {
                Some(v.len() - 1)
            } else {
                None
            },
        }
    }
}

/// The list names every part once, in the order of the numbers, and describes each by its
/// first description.
pub open spec fn lists_parts(r: Seq<PartMeta>, v: Seq<PartFileMeta>) -> bool {
    &&& forall|i: int, j: int|
        0 <= i < j < r.len() ==> (#[trigger] r[i]).part_number < (#[trigger] r[j]).part_number
    &&& forall|i: int|
        0 <= i < r.len() ==> (first_of(v, (#[trigger] r[i]).part_number) matches Some(k) && r[i].size
            == v[k].size && r[i].etag@ == v[k].etag@)
    &&& forall|k: int|
        0 <= k < v.len() ==> exists|i: int|
            0 <= i < r.len() && (#[trigger] r[i]).part_number == (#[trigger] v[k]).part_number
}

proof fn lemma_first_of(v: Seq<PartFileMeta>, number: i32)
    ensures
        match first_of(v, number) {
            Some(k) => 0 <= k < v.len() && v[k].part_number == number,
            None => forall|k: int| 0 <= k < v.len() ==> (#[trigger] v[k]).part_number != number,
        },
    decreases v.len(),
{
    if v.len() > 0 {
        lemma_first_of(v.drop_last(), number);
        if first_of(v, number) is None {
            assert forall|k: int| 0 <= k < v.len() implies (#[trigger] v[k]).part_number
                != number by {
                if k < v.len() - 1 {
                    assert(v.drop_last()[k] == v[k]);
                }
            }
        }
    }
}

/// Lists the parts of an upload, by the descriptions that the first disk that answers has.
pub fn list_parts(found: &Vec<PartFileMeta>) -> (r: Vec<PartMeta>)
    ensures
        lists_parts(r@, found@),
{
    let mut out: Vec<PartMeta> = Vec::new();
    let mut i: usize = 0;
    while i < found.len()
        invariant
            i <= found@.len(),
            lists_parts(out@, found@.take(i as int)),
        decreases found@.len() - i,
    {
        let n: i32 = found[i].part_number;
        let ghost was = found@.take(i as int);
        let ghost now = found@.take(i + 1);
        proof {
            assert(now.drop_last() =~= was);
            assert(now.last() == found@[i as int]);
            lemma_first_of(was, n);
        }
        let mut p: usize = 0;
        while p < out.len() && out[p].part_number < n
            invariant
                p <= out@.len(),
                forall|k: int| 0 <= k < p ==> (#[trigger] out@[k]).part_number < n,
            ensures
                p <= out@.len(),
                forall|k: int| 0 <= k < p ==> (#[trigger] out@[k]).part_number < n,
                p < out@.len() ==> out@[p as int].part_number >= n,
            decreases out@.len() - p,
        {
            p = p + 1;
        }
        let ghost list = out@;
        if p < out.len() && out[p].part_number == n {
            proof {
                assert(list[p as int].part_number == n);
                assert forall|k: int| 0 <= k < list.len() implies (first_of(
                    now,
                    (#[trigger] list[k]).part_number,
                ) matches Some(m) && list[k].size == now[m].size && list[k].etag@
                    == now[m].etag@) by {
                    lemma_first_of(was, list[k].part_number);
                }
                assert forall|k: int| 0 <= k < now.len() implies exists|j: int|
                    0 <= j < list.len() && (#[trigger] list[j]).part_number == (
                    #[trigger] now[k]).part_number by {
                    if k < was.len() {
                        assert(was[k] == now[k]);
                    } else {
                        assert(list[p as int].part_number == now[k].part_number);
                    }
                }
            }
        } else {
            let part = PartMeta {
                part_number: n,
                size: found[i].size,
                etag: found[i].etag.clone(),
            };
            proof {
                if first_of(was, n) is Some {
                    let m = first_of(was, n)->0;
                    assert(was[m].part_number == n);
                    let j = choose|j: int|
                        0 <= j < list.len() && (#[trigger] list[j]).part_number == was[m].part_number;
                    assert(list[j].part_number == n);
                    assert(j >= p);
                    assert(j > p);
                    assert(list[p as int].part_number < list[j].part_number);
                }
                assert(first_of(now, n) == Some(i as int));
            }
            out.insert(p, part);
            proof {
                let next = out@;
                assert(next =~= list.insert(p as int, part));
                assert forall|a: int, b: int| 0 <= a < b < next.len() implies (
                #[trigger] next[a]).part_number < (#[trigger] next[b]).part_number by {
                    if a == p {
                        assert(next[b] == list[b - 1]);
                        if b - 1 > p {
                            assert(list[p as int].part_number < list[b - 1].part_number);
                        }
                    } else if b == p {
                        assert(next[a] == list[a]);
                    } else {
                        let x = if a < p {
                            a
                        } else {
                            a - 1
                        };
                        let y = if b < p {
                            b
                        } else {
                            b - 1
                        };
                        assert(next[a] == list[x]);
                        assert(next[b] == list[y]);
                    }
                }
                assert forall|k: int| 0 <= k < next.len() implies (first_of(
                    now,
                    (#[trigger] next[k]).part_number,
                ) matches Some(m) && next[k].size == now[m].size && next[k].etag@
                    == now[m].etag@) by {
                    if k != p {
                        let x = if k < p {
                            k
                        } else {
                            k - 1
                        };
                        assert(next[k] == list[x]);
                        lemma_first_of(was, list[x].part_number);
                    }
                }
                assert forall|k: int| 0 <= k < now.len() implies exists|j: int|
                    0 <= j < next.len() && (#[trigger] next[j]).part_number == (
                    #[trigger] now[k]).part_number by {
                    if k < was.len() {
                        assert(was[k] == now[k]);
                        let j = choose|j: int|
                            0 <= j < list.len() && (#[trigger] list[j]).part_number
                                == was[k].part_number;
                        let y = if j < p {
                            j
                        } else {
                            j + 1
                        };
                        assert(next[y] == list[j]);
                    } else {
                        assert(next[p as int].part_number == now[k].part_number);
                    }
                }
            }
        }
        i = i + 1;
    }
    assert(found@.take(i as int) =~= found@);
    out
}

// ---------------------------------------------------------------- completing

/// The first `n` shards joined, those that are missing passed over.
pub open spec fn joined_slots(slots: Seq<Option<Seq<u8>>>, n: nat) -> Seq<u8>
    decreases n,
{
    if n == 0 {
        Seq::empty()
    } else {
        let before = joined_slots(slots, (n - 1) as nat);
        match slots[n - 1] {
            Some(s) => before + s,
            None => before,
        }
    }
}

/// The bytes of a part, made of its shards.
pub open spec fn decoded(
    slots: Seq<Option<Seq<u8>>>,
    data: nat,
    parity: nat,
    size: int,
) -> Result<Seq<u8>, Failure> {
    let good = erasure::present(slots, slots.len());
    if good < data {
        Err(Failure::ReadQuorum)
    } else if parity == 0 || good >= data + parity {
        Ok(shards::first_bytes(joined_slots(slots, data), size))
    } else if !erasure::codec_exists(data as int, parity as int) {
        Err(no_code(data as int, parity as int))
    } else if !erasure::uniform_slots(slots) {
        Err(Failure::ReadQuorum)
    } else {
        Ok(
            shards::first_bytes(
                joined_slots(erasure::filled(erasure::completed(data, parity, slots)), data),
                size,
            ),
        )
    }
}

/// The shards that are there are those of a part that was cut into the given data shards,
/// and enough of them are there.
pub open spec fn intact(
    slots: Seq<Option<Seq<u8>>>,
    data: nat,
    parity: nat,
    parts: Seq<Seq<u8>>,
) -> bool {
    let word = if parity == 0 {
        parts
    } else {
        erasure::code_word(data, parity, parts)
    };
    &&& parts.len() == data
    &&& erasure::uniform(parts)
    &&& word.take(data as int) == parts
    &&& erasure::uniform(word)
    &&& parity == 0 || erasure::codec_exists(data as int, parity as int)
    &&& erasure::agrees(slots, word)
    &&& erasure::present(slots, slots.len()) >= data
}

proof fn lemma_present_bound(slots: Seq<Option<Seq<u8>>>, n: nat)
    requires
        n <= slots.len(),
    ensures
        erasure::present(slots, n) <= n,
        erasure::present(slots, n) == n ==> forall|i: int|
            0 <= i < n ==> (#[trigger] slots[i]) is Some,
    decreases n,
{
    if n > 0 {
        lemma_present_bound(slots, (n - 1) as nat);
    }
}

proof fn lemma_joined_slots(slots: Seq<Option<Seq<u8>>>, parts: Seq<Seq<u8>>, n: nat)
    requires
        n <= slots.len(),
        n <= parts.len(),
        forall|i: int| 0 <= i < n ==> (#[trigger] slots[i]) == Some(parts[i]),
    ensures
        joined_slots(slots, n) == shards::joined(parts.take(n as int)),
    decreases n,
{
    if n > 0 {
        lemma_joined_slots(slots, parts, (n - 1) as nat);
        assert(parts.take(n as int).drop_last() =~= parts.take(n - 1));
        assert(slots[n - 1] == Some(parts[n - 1]));
    } else {
        assert(parts.take(0) =~= Seq::empty());
    }
}

fn count_present(slots: &Vec<Option<Vec<u8>>>) -> (r: usize)
    ensures
        r == erasure::present(erasure::slot_views(slots@), slots@.len()),
{
    let ghost sv = erasure::slot_views(slots@);
    let mut count: usize = 0;
    let mut i: usize = 0;
    while i < slots.len()
        invariant
            i <= slots@.len(),
            sv == erasure::slot_views(slots@),
            count == erasure::present(sv, i as nat),
            count <= i,
        decreases slots@.len() - i,
    {
        if slots[i].is_some() {
            count = count + 1;
        }
        i = i + 1;
    }
    count
}

fn join_slots(slots: &Vec<Option<Vec<u8>>>, n: usize, size: u64) -> (r: Vec<u8>)
    requires
        n <= slots@.len(),
    ensures
        r@ == shards::first_bytes(
            joined_slots(erasure::slot_views(slots@), n as nat),
            size as int,
        ),
{
    let ghost sv = erasure::slot_views(slots@);
    let mut out: Vec<u8> = Vec::new();
    let mut i: usize = 0;
    while i < n
        invariant
            i <= n <= slots@.len(),
            sv == erasure::slot_views(slots@),
            out@ == joined_slots(sv, i as nat),
        decreases n - i,
    {
        if let Some(s) = &slots[i] {
            out.extend_from_slice(s.as_slice());
        }
        i = i + 1;
    }
    assert(out.len() == out@.len());
    let ghost all = out@;
    if size < out.len() as u64 {
        out.truncate(size as usize);
        assert(out@ =~= all.take(size as int));
    }
    out
}

/// Makes the bytes of a part of its shards. Where the shards that are there are those of
/// the part as it was cut, its bytes come out.
pub fn decode_part(
    slots: Vec<Option<Vec<u8>>>,
    data_n: usize,
    parity_n: usize,
    size: u64,
) -> (r: Result<Vec<u8>, StorageError>)
    requires
        slots@.len() == data_n + parity_n,
    ensures
        match r {
            Ok(d) => decoded(
                erasure::slot_views(slots@),
                data_n as nat,
                parity_n as nat,
                size as int,
            ) == Ok::<Seq<u8>, Failure>(d@),
            Err(e) => decoded(
                erasure::slot_views(slots@),
                data_n as nat,
                parity_n as nat,
                size as int,
            ) matches Err(f) && reports(e, f),
        },
        forall|parts: Seq<Seq<u8>>| #[trigger]
            intact(erasure::slot_views(slots@), data_n as nat, parity_n as nat, parts)
                ==> r is Ok && r->Ok_0@ == shards::first_bytes(
                shards::joined(parts),
                size as int,
            ),
{
    let ghost sv = erasure::slot_views(slots@);
    assert(slots.len() == slots@.len());
    let good: usize = count_present(&slots);
    proof {
        lemma_present_bound(sv, sv.len());
    }
    if good < data_n {
        return Err(StorageError::ReadQuorum);
    }
    if parity_n == 0 || good >= data_n + parity_n {
        let out = join_slots(&slots, data_n, size);
        proof {
            assert forall|parts: Seq<Seq<u8>>| #[trigger]
                intact(sv, data_n as nat, parity_n as nat, parts) implies out@
                == shards::first_bytes(shards::joined(parts), size as int) by {
                let word = if parity_n == 0 {
                    parts
                } else {
                    erasure::code_word(data_n as nat, parity_n as nat, parts)
                };
                assert forall|i: int| 0 <= i < data_n implies (#[trigger] sv[i]) == Some(
                    parts[i],
                ) by {
                    assert(word.take(data_n as int)[i] == word[i]);
                }
                lemma_joined_slots(sv, parts, data_n as nat);
                assert(parts.take(data_n as int) =~= parts);
            }
        }
        return Ok(out);
    }
    match erasure::reconstruct(data_n, parity_n, slots) {
        Ok(full) => {
            let ghost fv = erasure::slot_views(full@);
            assert(full@.len() == fv.len());
            let out = join_slots(&full, data_n, size);
            proof {
                assert forall|parts: Seq<Seq<u8>>| #[trigger]
                    intact(sv, data_n as nat, parity_n as nat, parts) implies out@
                    == shards::first_bytes(shards::joined(parts), size as int) by {
                    let word = erasure::code_word(data_n as nat, parity_n as nat, parts);
                    assert(fv == erasure::filled(word));
                    assert forall|i: int| 0 <= i < data_n implies (#[trigger] fv[i]) == Some(
                        parts[i],
                    ) by {
                        assert(word.take(data_n as int)[i] == word[i]);
                    }
                    lemma_joined_slots(fv, parts, data_n as nat);
                    assert(parts.take(data_n as int) =~= parts);
                }
            }
            Ok(out)
        },
        Err(CodecError::Config(m)) => {
            let mut text = "reed-solomon: ".to_owned();
            text.append(m.as_str());
            Err(StorageError::InvalidConfig(text))
        },
        Err(CodecError::Shards(_)) => {
            proof {
                assert forall|parts: Seq<Seq<u8>>| #[trigger]
                    intact(sv, data_n as nat, parity_n as nat, parts) implies false by {
                    let word = erasure::code_word(data_n as nat, parity_n as nat, parts);
                    assert forall|i: int| 0 <= i < sv.len() && (#[trigger] sv[i]) is Some implies
                        sv[i]->0.len() == word[0].len() && word[0].len() > 0 by {
                        assert(sv[i]->0 == word[i]);
                    }
                    assert(erasure::uniform_slots(sv));
                }
            }
            Err(StorageError::ReadQuorum)
        },
    }
}

/// What the disks gave of a part: its size and its shards, each in its place.
pub struct PartRead {
    pub size: u64,
    pub slots: Vec<Option<Vec<u8>>>,
}

/// The bytes of the first `n` parts, one behind the other; the first failure counts.
pub open spec fn assembled(
    reads: Seq<Option<PartRead>>,
    data: nat,
    parity: nat,
    n: nat,
) -> Result<Seq<u8>, Failure>
    decreases n,
{
    if n == 0 {
        Ok(Seq::empty())
    } else {
        match assembled(reads, data, parity, (n - 1) as nat) {
            Err(f) => Err(f),
            Ok(before) => match reads[n - 1] {
                None => Err(Failure::NotFound),
                Some(p) => match decoded(
                    erasure::slot_views(p.slots@),
                    data,
                    parity,
                    p.size as int,
                ) {
                    Ok(d) => Ok(before + d),
                    Err(f) => Err(f),
                },
            },
        }
    }
}

/// A part with this number is there.
pub open spec fn is_listed(list: Seq<PartMeta>, number: i32) -> bool {
    exists|i: int| 0 <= i < list.len() && (#[trigger] list[i]).part_number == number
}

/// Every part that is asked for is there.
pub open spec fn all_listed(list: Seq<PartMeta>, asked: Seq<(i32, String)>) -> bool {
    forall|i: int| 0 <= i < asked.len() ==> is_listed(list, (#[trigger] asked[i]).0)
}

fn listed(list: &Vec<PartMeta>, number: i32) -> (r: bool)
    ensures
        r == is_listed(list@, number),
{
    let mut i: usize = 0;
    while i < list.len()
        invariant
            i <= list@.len(),
            forall|k: int| 0 <= k < i ==> (#[trigger] list@[k]).part_number != number,
        decreases list@.len() - i,
    {
        if list[i].part_number == number {
            assert(list@[i as int].part_number == number);
            return true;
        }
        i = i + 1;
    }
    false
}

/// Checks that every part that is asked for is there.
pub fn check_parts(available: &Vec<PartMeta>, asked: &Vec<(i32, String)>) -> (r: Result<
    (),
    StorageError,
>)
    ensures
        match r {
            Ok(_) => all_listed(available@, asked@),
            Err(e) => !all_listed(available@, asked@) && e == StorageError::ObjectNotFound,
        },
{
    let mut i: usize = 0;
    while i < asked.len()
        invariant
            i <= asked@.len(),
            forall|k: int| 0 <= k < i ==> is_listed(available@, (#[trigger] asked@[k]).0),
        decreases asked@.len() - i,
    {
        if !listed(available, asked[i].0) {
            assert(!is_listed(available@, asked@[i as int].0));
            return Err(StorageError::ObjectNotFound);
        }
        i = i + 1;
    }
    Ok(())
}

/// What came of the uploaded parts as they were cut, one behind the other.
pub open spec fn uploaded(
    reads: Seq<Option<PartRead>>,
    parts: Seq<Seq<Seq<u8>>>,
    n: nat,
) -> Seq<u8>
    decreases n,
{
    if n == 0 {
        Seq::empty()
    } else {
        uploaded(reads, parts, (n - 1) as nat) + shards::first_bytes(
            shards::joined(parts[n - 1]),
            reads[n - 1]->0.size as int,
        )
    }
}

/// The first `n` parts are there as they were cut.
pub open spec fn all_intact(
    reads: Seq<Option<PartRead>>,
    data: nat,
    parity: nat,
    parts: Seq<Seq<Seq<u8>>>,
    n: int,
) -> bool {
    &&& parts.len() >= n
    &&& forall|i: int|
        0 <= i < n ==> (#[trigger] reads[i]) is Some && intact(
            erasure::slot_views(reads[i]->0.slots@),
            data,
            parity,
            parts[i],
        )
}

/// Assembles the parts of an upload, in the order in which they are asked for. Where enough
/// shards of every part are there as they were cut, the bytes of the parts come out.
pub fn complete_upload(
    available: &Vec<PartMeta>,
    asked: &Vec<(i32, String)>,
    reads: Vec<Option<PartRead>>,
    data_n: usize,
    parity_n: usize,
) -> (r: Result<Vec<u8>, StorageError>)
    requires
        reads@.len() == asked@.len(),
        forall|i: int|
            0 <= i < reads@.len() ==> ((#[trigger] reads@[i]) matches Some(p) ==> p.slots@.len()
                == data_n + parity_n),
    ensures
        match r {
            Ok(d) => all_listed(available@, asked@) && assembled(
                reads@,
                data_n as nat,
                parity_n as nat,
                reads@.len(),
            ) == Ok::<Seq<u8>, Failure>(d@),
            Err(e) => if !all_listed(available@, asked@) {
                e == StorageError::ObjectNotFound
            } else {
                assembled(
                    reads@,
                    data_n as nat,
                    parity_n as nat,
                    reads@.len(),
                ) matches Err(f) && reports(e, f)
            },
        },
        forall|parts: Seq<Seq<Seq<u8>>>|
            all_listed(available@, asked@) && #[trigger] all_intact(
                reads@,
                data_n as nat,
                parity_n as nat,
                parts,
                reads@.len() as int,
            ) ==> r is Ok && r->Ok_0@ == uploaded(reads@, parts, reads@.len()),
{
    if let Err(e) = check_parts(available, asked) {
        return Err(e);
    }
    let ghost all = reads@;
    let ghost goal = assembled(all, data_n as nat, parity_n as nat, all.len());
    let mut rest = reads;
    let mut full: Vec<u8> = Vec::new();
    let mut i: usize = 0;
    let count: usize = rest.len();
    assert(full@ =~= Seq::<u8>::empty());
    assert(all.skip(0) =~= all);
    while i < count
        invariant
            i <= count,
            count == all.len(),
            all == reads@,
            rest@ == all.skip(i as int),
            all_listed(available@, asked@),
            goal == assembled(all, data_n as nat, parity_n as nat, all.len()),
            assembled(all, data_n as nat, parity_n as nat, i as nat) == Ok::<Seq<u8>, Failure>(
                full@,
            ),
            forall|k: int|
                0 <= k < all.len() ==> ((#[trigger] all[k]) matches Some(p) ==> p.slots@.len()
                    == data_n + parity_n),
            forall|parts: Seq<Seq<Seq<u8>>>| #[trigger]
                all_intact(all, data_n as nat, parity_n as nat, parts, all.len() as int) ==> full@
                    == uploaded(all, parts, i as nat),
        decreases count - i,
    {
        let next = rest.remove(0);
        assert(next == all[i as int]);
        assert(rest@ =~= all.skip(i + 1));
        match next {
            None => {
                proof {
                    lemma_failure_stays(all, data_n as nat, parity_n as nat, (i + 1) as nat);
                    assert forall|parts: Seq<Seq<Seq<u8>>>| #[trigger]
                        all_intact(
                            all,
                            data_n as nat,
                            parity_n as nat,
                            parts,
                            all.len() as int,
                        ) implies false by {
                        assert(all[i as int] is Some);
                    }
                }
                return Err(StorageError::ObjectNotFound);
            },
            Some(p) => {
                let ghost sv = erasure::slot_views(p.slots@);
                match decode_part(p.slots, data_n, parity_n, p.size) {
                    Ok(d) => {
                        let ghost before = full@;
                        full.extend_from_slice(d.as_slice());
                        assert(full@ =~= before + d@);
                        proof {
                            assert forall|parts: Seq<Seq<Seq<u8>>>| #[trigger]
                                all_intact(
                                    all,
                                    data_n as nat,
                                    parity_n as nat,
                                    parts,
                                    all.len() as int,
                                ) implies full@ == uploaded(all, parts, (i + 1) as nat) by {
                                assert(all[i as int] is Some);
                                assert(intact(
                                    sv,
                                    data_n as nat,
                                    parity_n as nat,
                                    parts[i as int],
                                ));
                            }
                        }
                    },
                    Err(e) => {
                        proof {
                            lemma_failure_stays(
                                all,
                                data_n as nat,
                                parity_n as nat,
                                (i + 1) as nat,
                            );
                            assert forall|parts: Seq<Seq<Seq<u8>>>| #[trigger]
                                all_intact(
                                    all,
                                    data_n as nat,
                                    parity_n as nat,
                                    parts,
                                    all.len() as int,
                                ) implies false by {
                                assert(all[i as int] is Some);
                                assert(intact(
                                    sv,
                                    data_n as nat,
                                    parity_n as nat,
                                    parts[i as int],
                                ));
                            }
                        }
                        return Err(e);
                    },
                }
            },
        }
        i = i + 1;
    }
    Ok(full)
}

proof fn lemma_failure_stays(reads: Seq<Option<PartRead>>, data: nat, parity: nat, n: nat)
    requires
        n <= reads.len(),
        assembled(reads, data, parity, n) is Err,
    ensures
        assembled(reads, data, parity, reads.len()) == assembled(reads, data, parity, n),
    decreases reads.len() - n,
{
    if n < reads.len() {
        lemma_failure_stays(reads, data, parity, n + 1);
    }
}

/// The tags of the parts, without their quotation marks, one behind the other.
pub open spec fn joined_tags(asked: Seq<(i32, String)>, n: nat) -> Seq<char>
    decreases n,
{
    if n == 0 {
        Seq::empty()
    } else {
        joined_tags(asked, (n - 1) as nat) + split::stripped(asked[n - 1].1@, '"')
    }
}

/// The text whose digest goes into the tag of the whole object.
pub fn etag_text(asked: &Vec<(i32, String)>) -> (r: String)
    ensures
        r@ == joined_tags(asked@, asked@.len()),
{
    let mut out = String::new();
    let mut i: usize = 0;
    assert(out@ =~= Seq::<char>::empty());
    while i < asked.len()
        invariant
            i <= asked@.len(),
            out@ == joined_tags(asked@, i as nat),
        decreases asked@.len() - i,
    {
        out.append(split::trim_char(asked[i].1.as_str(), '"'));
        i = i + 1;
    }
    out
}

/// The tag of the whole object: the MD5 digest of the tags of its parts, and how many there
/// are.
pub open spec fn whole_tag(asked: Seq<(i32, String)>) -> Seq<char> {
    digest::hex_chars(digest::md5_digest(encode_utf8(joined_tags(asked, asked.len())))) + "-"@
        + text::decimal(asked.len())
}

/// The tag of the whole object, by the parts that it is completed from.
pub fn final_etag(asked: &Vec<(i32, String)>) -> (r: String)
    ensures
        r@ == whole_tag(asked@),
{
    let mut out = digest::md5_hex(etag_text(asked).as_str().as_bytes());
    out.append("-");
    out.append(text::decimal_u64(asked.len() as u64).as_str());
    out
}

// ---------------------------------------------------------------------- laws

/// A part that was cut, and of which enough shards are left, is read back as it was put.
pub proof fn law_part_round_trip(
    data: Seq<u8>,
    n: nat,
    parity: nat,
    slots: Seq<Option<Seq<u8>>>,
)
    requires
        n > 0,
        parity == 0 || erasure::codec_exists(n as int, parity as int),
        part_shards(data, n, parity).take(n as int) == shards::cut(data, n),
        erasure::uniform(part_shards(data, n, parity)),
        erasure::agrees(slots, part_shards(data, n, parity)),
        erasure::present(slots, slots.len()) >= n,
    ensures
        intact(slots, n, parity, shards::cut(data, n)),
        shards::first_bytes(shards::joined(shards::cut(data, n)), data.len() as int) == data,
{
    shards::lemma_cut_is_uniform(data, n);
    shards::law_cut_and_joined(data, n);
}

proof fn lemma_present_without(slots: Seq<Option<Seq<u8>>>, lost: int, n: nat)
    requires
        n <= slots.len(),
        0 <= lost < slots.len(),
    ensures
        erasure::present(slots.update(lost, None), n) >= erasure::present(slots, n) - (if lost < n {
            1int
        } else {
            0
        }),
    decreases n,
{
    if n > 0 {
        lemma_present_without(slots, lost, (n - 1) as nat);
    }
}

/// A part that counts as stored is read back as it was put although any one of its shards
/// is lost, where there is parity.
pub proof fn law_stored_part_survives_a_loss(
    data: Seq<u8>,
    n: nat,
    parity: nat,
    slots: Seq<Option<Seq<u8>>>,
    lost: int,
)
    requires
        n > 0,
        erasure::codec_exists(n as int, parity as int),
        part_shards(data, n, parity).take(n as int) == shards::cut(data, n),
        erasure::uniform(part_shards(data, n, parity)),
        erasure::agrees(slots, part_shards(data, n, parity)),
        erasure::present(slots, slots.len()) >= write_quorum(n as int, parity as int),
        0 <= lost < slots.len(),
    ensures
        intact(slots.update(lost, None), n, parity, shards::cut(data, n)),
        shards::first_bytes(shards::joined(shards::cut(data, n)), data.len() as int) == data,
{
    let left = slots.update(lost, None);
    lemma_present_without(slots, lost, slots.len());
    assert(left.len() == slots.len());
    law_part_round_trip(data, n, parity, left);
}

} // verus!
