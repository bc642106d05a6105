//! What holds of uploads in parts, of shards and of digests.

use vstd::prelude::*;
use vstd::string::*;
use vstd::utf8::*;

use crate::digest;
use crate::erasure;
use crate::multipart;
use crate::multipart::{Failure, PartFileMeta, PartMeta, PartRead, PartWrite, UploadMeta};
use crate::shards;
use crate::split;
use crate::storage;
use crate::storage::StorageError;
use crate::text;

verus! {

// -------------------------------------------------------------------- shards

/// Data is cut evenly: byte `k` stands in shard `k / size` at `k % size`, what is left of the
/// last shard is zeros, and no shard is a byte longer than it has to be.
pub proof fn law_data_is_cut_evenly(data: Seq<u8>, n: nat, i: int, j: int)
    requires
        n > 0,
        0 <= i < n,
        0 <= j < shards::cut(data, n)[i].len(),
    ensures
        ({
            let parts = shards::cut(data, n);
            let size = parts[i].len();
            &&& parts.len() == n
            &&& i * size + j < data.len() ==> parts[i][j] == data[i * size + j]
            &&& i * size + j >= data.len() ==> parts[i][j] == 0
            &&& size == parts[0].len()
            &&& size >= 1
            &&& n * size >= data.len()
            &&& size > 1 ==> n * (size - 1) < data.len()
        }),
{
    shards::lemma_cut_is_uniform(data, n);
    shards::law_cut_and_joined(data, n);
    let parts = shards::cut(data, n);
    let size = shards::shard_size(data.len() as int, n as int);
    let len = data.len() as int;
    assert(parts[0].len() == size && parts[i].len() == size);
    shards::lemma_joined(parts, size);
    assert(n * (len / n as int) + len % (n as int) == len && 0 <= len % (n as int) < n) by (
    nonlinear_arith)
        requires
            len >= 0,
            n > 0,
    ;
    if len > 0 && len % (n as int) == 0 {
        assert(n * (size - 1) == n * size - n) by (nonlinear_arith);
    }
}

// ------------------------------------------------------------------- digests

/// The value of a lower-case hex digit.
pub open spec fn digit_of(c: char) -> int {
    if '0' <= c <= '9' {
        c as int - 48
    } else if 'a' <= c <= 'f' {
        c as int - 87
    } else {
        -1
    }
}

/// Hex notation has two lower-case digits for each byte, which give the byte again.
pub proof fn law_hex_digits_give_the_bytes(bytes: Seq<u8>, i: int)
    requires
        0 <= i < bytes.len(),
    ensures
        ({
            let h = digest::hex_chars(bytes);
            &&& h.len() == 2 * bytes.len()
            &&& 0 <= digit_of(h[2 * i]) < 16
            &&& 0 <= digit_of(h[2 * i + 1]) < 16
            &&& digit_of(h[2 * i]) * 16 + digit_of(h[2 * i + 1]) == bytes[i]
        }),
{
    let h = digest::hex_chars(bytes);
    assert((2 * i) % 2 == 0 && (2 * i) / 2 == i);
    assert((2 * i + 1) % 2 == 1 && (2 * i + 1) / 2 == i);
}

/// Texts are joined one behind the other, each with its end.
pub proof fn law_bytes_are_joined(texts: Seq<Seq<char>>, more: Seq<char>, end: Seq<u8>, n: nat)
    requires
        n == texts.len(),
    ensures
        digest::joined_bytes(texts.push(more), end, n + 1) == digest::joined_bytes(
            texts,
            end,
            n,
        ) + encode_utf8(more) + end,
        digest::joined_bytes(texts, end, 0).len() == 0,
{
    lemma_joined_bytes(texts, more, end, n);
}

proof fn lemma_joined_bytes(texts: Seq<Seq<char>>, more: Seq<char>, end: Seq<u8>, n: nat)
    requires
        n <= texts.len(),
    ensures
        digest::joined_bytes(texts.push(more), end, n) == digest::joined_bytes(texts, end, n),
    decreases n,
{
    if n > 0 {
        lemma_joined_bytes(texts, more, end, (n - 1) as nat);
        assert(texts.push(more)[n - 1] == texts[n - 1]);
    }
}

// ------------------------------------------------------------------- uploads

/// A listed upload is described as some disk describes it.
pub open spec fn described(u: UploadMeta, v: UploadMeta) -> bool {
    &&& u.upload_id@ == v.upload_id@
    &&& u.bucket@ == v.bucket@
    &&& u.key@ == v.key@
    &&& u.content_type@ == v.content_type@
    &&& u.created_at == v.created_at
    &&& u.data_dir@ == v.data_dir@
    &&& u.user_metadata@.len() == v.user_metadata@.len()
    &&& forall|i: int|
        0 <= i < u.user_metadata@.len() ==> (#[trigger] u.user_metadata@[i]).0@
            == v.user_metadata@[i].0@ && u.user_metadata@[i].1@ == v.user_metadata@[i].1@
}

/// The description of an upload on some disk.
pub open spec fn on_some_disk(
    listings: Seq<Option<Vec<UploadMeta>>>,
    u: UploadMeta,
    disk: int,
    k: int,
) -> bool {
    &&& 0 <= disk < listings.len()
    &&& listings[disk] is Some
    &&& 0 <= k < listings[disk]->0@.len()
    &&& described(u, listings[disk]->0@[k])
}

proof fn lemma_place(v: Seq<UploadMeta>, n: nat, i: int)
    requires
        0 <= i < multipart::first_places(v, n).len(),
    ensures
        0 <= multipart::first_places(v, n)[i] < n,
    decreases n,
{
    if n > 0 && i < multipart::first_places(v, (n - 1) as nat).len() {
        lemma_place(v, (n - 1) as nat, i);
    }
}

proof fn lemma_source(v: Seq<Option<Vec<UploadMeta>>>, n: nat, w: int) -> (p: (int, int))
    requires
        n <= v.len(),
        0 <= w < multipart::all_listings(v, n).len(),
    ensures
        0 <= p.0 < n,
        v[p.0] is Some,
        0 <= p.1 < v[p.0]->0@.len(),
        multipart::all_listings(v, n)[w] == v[p.0]->0@[p.1],
    decreases n,
{
    let before = multipart::all_listings(v, (n - 1) as nat);
    if w < before.len() {
        lemma_source(v, (n - 1) as nat, w)
    } else {
        (n - 1, w - before.len())
    }
}

/// Every upload that is listed is described, in full, as one of the disks describes it.
pub proof fn law_upload_is_listed_as_described(
    listings: Seq<Option<Vec<UploadMeta>>>,
    listed: Seq<UploadMeta>,
    i: int,
)
    requires
        ({
            let all = multipart::all_listings(listings, listings.len());
            multipart::picks(listed, all, multipart::first_places(all, all.len()))
        }),
        0 <= i < listed.len(),
    ensures
        exists|disk: int, k: int| #[trigger] on_some_disk(listings, listed[i], disk, k),
{
    let all = multipart::all_listings(listings, listings.len());
    let places = multipart::first_places(all, all.len());
    lemma_place(all, all.len(), i);
    let (disk, k) = lemma_source(listings, listings.len(), places[i]);
    let v = listings[disk]->0@[k];
    assert(multipart::same_upload(listed[i], v));
    let x = storage::pair_views(listed[i].user_metadata@);
    let y = storage::pair_views(v.user_metadata@);
    assert(x.len() == listed[i].user_metadata@.len() && y.len() == v.user_metadata@.len());
    assert forall|j: int| 0 <= j < listed[i].user_metadata@.len() implies (
    #[trigger] listed[i].user_metadata@[j]).0@ == v.user_metadata@[j].0@
        && listed[i].user_metadata@[j].1@ == v.user_metadata@[j].1@ by {
        assert(x[j] == y[j]);
    }
    assert(on_some_disk(listings, listed[i], disk, k));
}

// --------------------------------------------------------------------- parts

/// The shard of a part in full: its bytes, and what is said of it.
pub open spec fn stores(
    w: PartWrite,
    place: int,
    bytes: Seq<u8>,
    distribution: Seq<usize>,
    data: usize,
    parity: usize,
    number: i32,
    size: int,
    tag: Seq<char>,
) -> bool {
    &&& w.disk == distribution[place]
    &&& w.data@ == bytes
    &&& w.meta.part_number == number
    &&& w.meta.size == size
    &&& w.meta.etag@ == tag
    &&& w.meta.checksum@ == digest::hex_chars(digest::sha256_digest(bytes))
    &&& w.meta.erasure.data == data
    &&& w.meta.erasure.parity == parity
    &&& w.meta.erasure.index == place
    &&& w.meta.erasure.distribution@ == distribution
}

proof fn lemma_placed(distribution: Seq<usize>, disks: int, n: nat, p: int)
    requires
        0 <= p < n,
        distribution[p] < disks,
    ensures
        multipart::placed(distribution, disks, n).contains(p),
    decreases n,
{
    let all = multipart::placed(distribution, disks, n);
    if p == n - 1 {
        assert(all[all.len() - 1] == p);
    } else {
        lemma_placed(distribution, disks, (n - 1) as nat, p);
        let part = multipart::placed(distribution, disks, (n - 1) as nat);
        let k = choose|k: int| 0 <= k < part.len() && part[k] == p;
        assert(all[k] == p);
    }
}

proof fn lemma_places(distribution: Seq<usize>, disks: int, n: nat, i: int)
    requires
        0 <= i < multipart::placed(distribution, disks, n).len(),
    ensures
        0 <= multipart::placed(distribution, disks, n)[i] < n,
        distribution[multipart::placed(distribution, disks, n)[i]] < disks,
        forall|j: int|
            0 <= j < i ==> #[trigger] multipart::placed(distribution, disks, n)[j]
                < multipart::placed(distribution, disks, n)[i],
    decreases n,
{
    if n > 0 {
        let part = multipart::placed(distribution, disks, (n - 1) as nat);
        let all = multipart::placed(distribution, disks, n);
        if i < part.len() {
            lemma_places(distribution, disks, (n - 1) as nat, i);
            assert forall|j: int| 0 <= j < i implies #[trigger] all[j] < all[i] by {
                assert(part[j] < part[i]);
            }
        } else {
            assert forall|j: int| 0 <= j < i implies #[trigger] all[j] < all[i] by {
                lemma_places(distribution, disks, (n - 1) as nat, j);
                assert(all[j] == part[j]);
            }
        }
    }
}

/// Every shard that has a disk is written there in full, and told apart by its place.
pub proof fn law_every_shard_is_written(
    writes: Seq<PartWrite>,
    word: Seq<Seq<u8>>,
    distribution: Seq<usize>,
    disks: int,
    data: usize,
    parity: usize,
    number: i32,
    size: int,
    tag: Seq<char>,
    p: int,
)
    requires
        data + parity <= distribution.len() <= usize::MAX,
        multipart::writes_for(
            writes,
            multipart::placed(distribution, disks, (data + parity) as nat),
            word,
            distribution,
            data,
            parity,
            (number, size, tag),
        ),
        0 <= p < data + parity,
        distribution[p] < disks,
    ensures
        exists|i: int|
            0 <= i < writes.len() && stores(
                #[trigger] writes[i],
                p,
                word[p],
                distribution,
                data,
                parity,
                number,
                size,
                tag,
            ),
{
    let places = multipart::placed(distribution, disks, (data + parity) as nat);
    lemma_placed(distribution, disks, (data + parity) as nat, p);
    let i = choose|i: int| 0 <= i < places.len() && places[i] == p;
    let w = writes[i];
    assert(w.meta.erasure@.index == w.meta.erasure.index);
    assert(w.meta.erasure@.distribution == w.meta.erasure.distribution@);
    assert(stores(w, p, word[p], distribution, data, parity, number, size, tag));
}

/// Nothing else is written: every write is one of a shard to its own disk, and no shard is
/// written twice.
pub proof fn law_only_shards_are_written(
    writes: Seq<PartWrite>,
    word: Seq<Seq<u8>>,
    distribution: Seq<usize>,
    disks: int,
    data: usize,
    parity: usize,
    part: (i32, int, Seq<char>),
    i: int,
    j: int,
)
    requires
        data + parity <= distribution.len() <= usize::MAX,
        multipart::writes_for(
            writes,
            multipart::placed(distribution, disks, (data + parity) as nat),
            word,
            distribution,
            data,
            parity,
            part,
        ),
        0 <= i < j < writes.len(),
    ensures
        writes[j].disk < disks,
        writes[j].meta.erasure.index < data + parity,
        writes[j].disk == distribution[writes[j].meta.erasure.index as int],
        writes[j].data@ == word[writes[j].meta.erasure.index as int],
        writes[i].meta.erasure.index < writes[j].meta.erasure.index,
{
    let places = multipart::placed(distribution, disks, (data + parity) as nat);
    lemma_places(distribution, disks, (data + parity) as nat, j);
    lemma_places(distribution, disks, (data + parity) as nat, i);
    assert(places[i] < places[j]);
    assert(writes[i].meta.erasure@.index == writes[i].meta.erasure.index);
    assert(writes[j].meta.erasure@.index == writes[j].meta.erasure.index);
}

/// A part counts as stored as soon as it can be read, with one shard to spare where there is
/// parity, and no sooner.
pub proof fn law_stored_means_readable(data: int, parity: int)
    requires
        data > 0,
        parity >= 0,
    ensures
        multipart::write_quorum(data, parity) <= data + parity,
        multipart::write_quorum(data, parity) >= data,
        parity > 0 ==> multipart::write_quorum(data, parity) - 1 == data,
{
}

/// Of each part, the list tells what its first description tells; the list goes by the numbers.
pub proof fn law_part_is_listed_by_its_first_description(
    r: Seq<PartMeta>,
    v: Seq<PartFileMeta>,
    k: int,
    a: int,
    b: int,
)
    requires
        multipart::lists_parts(r, v),
        0 <= k < v.len(),
        forall|j: int| 0 <= j < k ==> (#[trigger] v[j]).part_number != v[k].part_number,
        0 <= a < b < r.len(),
    ensures
        exists|i: int|
            0 <= i < r.len() && (#[trigger] r[i]).part_number == v[k].part_number && r[i].size
                == v[k].size && r[i].etag@ == v[k].etag@,
        r[a].part_number < r[b].part_number,
        exists|j: int| 0 <= j < v.len() && (#[trigger] v[j]).part_number == r[a].part_number,
{
    let n = v[k].part_number;
    let i = choose|i: int| 0 <= i < r.len() && (#[trigger] r[i]).part_number == v[k].part_number;
    lemma_first_description(v, k);
    assert(multipart::first_of(v, r[i].part_number) == Some(k));
    assert(r[i].part_number == n);
    lemma_described(v, r[a].part_number);
}

proof fn lemma_first_description(v: Seq<PartFileMeta>, k: int)
    requires
        0 <= k < v.len(),
        forall|j: int| 0 <= j < k ==> (#[trigger] v[j]).part_number != v[k].part_number,
    ensures
        multipart::first_of(v, v[k].part_number) == Some(k),
    decreases v.len(),
{
    let n = v[k].part_number;
    let d = v.drop_last();
    if k < v.len() - 1 {
        assert(d[k] == v[k]);
        assert forall|j: int| 0 <= j < k implies (#[trigger] d[j]).part_number
            != d[k].part_number by {
            assert(d[j] == v[j]);
        }
        lemma_first_description(d, k);
    } else {
        lemma_described(d, n);
        if multipart::first_of(d, n) is Some {
            let j = choose|j: int| 0 <= j < d.len() && (#[trigger] d[j]).part_number == n;
            assert(v[j] == d[j]);
        }
    }
}

proof fn lemma_described(v: Seq<PartFileMeta>, number: i32)
    ensures
        multipart::first_of(v, number) is Some ==> exists|j: int|
            0 <= j < v.len() && (#[trigger] v[j]).part_number == number,
    decreases v.len(),
{
    if v.len() > 0 {
        let d = v.drop_last();
        lemma_described(d, number);
        if multipart::first_of(d, number) is Some {
            let j = choose|j: int| 0 <= j < d.len() && (#[trigger] d[j]).part_number == number;
            assert(v[j] == d[j]);
        } else if v.last().part_number == number {
            assert(v[v.len() - 1].part_number == number);
        }
    }
}

/// The file of a part bears its number; no two parts share a file.
pub proof fn law_part_file_bears_the_number(n: i32, m: i32)
    requires
        n >= 0,
        m >= 0,
    ensures
        multipart::part_name(n as int) == "part."@ + text::decimal(n as nat),
        multipart::part_name(n as int) == multipart::part_name(m as int) ==> n == m,
{
    let a = multipart::part_name(n as int);
    let b = multipart::part_name(m as int);
    if a == b {
        let k = "part."@.len() as int;
        assert(a.skip(k) =~= text::decimal(n as nat));
        assert(b.skip(k) =~= text::decimal(m as nat));
        text::lemma_u64_round_trip(n as u64);
        text::lemma_u64_round_trip(m as u64);
    }
}

// ---------------------------------------------------------------- completing

/// Stretches of bytes, one behind the other.
pub open spec fn end_to_end(parts: Seq<Seq<u8>>) -> Seq<u8>
    decreases parts.len(),
{
    if parts.len() == 0 {
        Seq::empty()
    } else {
        parts[0] + end_to_end(parts.drop_first())
    }
}

proof fn lemma_end_to_end(parts: Seq<Seq<u8>>, last: Seq<u8>)
    ensures
        end_to_end(parts.push(last)) == end_to_end(parts) + last,
    decreases parts.len(),
{
    let all = parts.push(last);
    if parts.len() == 0 {
        assert(all.drop_first() =~= Seq::empty());
        assert(all[0] == last);
        assert(end_to_end(all) == last + end_to_end(all.drop_first()));
        assert(end_to_end(parts) =~= Seq::empty());
        assert(end_to_end(all) =~= end_to_end(parts) + last);
    } else {
        assert(all.drop_first() =~= parts.drop_first().push(last));
        lemma_end_to_end(parts.drop_first(), last);
        assert(all[0] == parts[0]);
        assert(end_to_end(all) =~= end_to_end(parts) + last);
    }
}

/// Part `i` is read as these bytes.
pub open spec fn reads_as(r: Option<PartRead>, data: nat, parity: nat, bytes: Seq<u8>) -> bool {
    r is Some && multipart::decoded(
        erasure::slot_views(r->0.slots@),
        data,
        parity,
        r->0.size as int,
    ) == Ok::<Seq<u8>, Failure>(bytes)
}

/// The object that an upload is completed to is its parts one behind the other, in the order
/// in which they are asked for, none left out.
pub proof fn law_parts_are_joined_in_order(
    reads: Seq<Option<PartRead>>,
    data: nat,
    parity: nat,
    parts: Seq<Seq<u8>>,
)
    requires
        reads.len() >= parts.len(),
        forall|i: int|
            0 <= i < parts.len() ==> reads_as(#[trigger] reads[i], data, parity, parts[i]),
    ensures
        multipart::assembled(reads, data, parity, parts.len()) == Ok::<Seq<u8>, Failure>(
            end_to_end(parts),
        ),
    decreases parts.len(),
{
    if parts.len() > 0 {
        let before = parts.drop_last();
        assert forall|i: int| 0 <= i < before.len() implies reads_as(
            #[trigger] reads[i],
            data,
            parity,
            before[i],
        ) by {
            assert(parts[i] == before[i]);
        }
        law_parts_are_joined_in_order(reads, data, parity, before);
        lemma_end_to_end(before, parts.last());
        assert(before.push(parts.last()) =~= parts);
        assert(reads_as(reads[parts.len() - 1], data, parity, parts.last()));
    }
}

/// An upload of which a part is missing is not completed.
pub proof fn law_missing_part_stops(
    reads: Seq<Option<PartRead>>,
    data: nat,
    parity: nat,
    n: nat,
    i: int,
)
    requires
        0 <= i < n <= reads.len(),
        reads[i] is None || (reads[i] is Some && erasure::present(
            erasure::slot_views(reads[i]->0.slots@),
            reads[i]->0.slots@.len(),
        ) < data),
    ensures
        multipart::assembled(reads, data, parity, n) is Err,
    decreases n,
{
    if i < n - 1 {
        law_missing_part_stops(reads, data, parity, (n - 1) as nat, i);
    } else if reads[i] is Some {
        assert(erasure::slot_views(reads[i]->0.slots@).len() == reads[i]->0.slots@.len());
    }
}

/// Where all shards of a part are there, it is read as its data shards, one behind the other,
/// up to its size.
pub proof fn law_whole_part_is_read(
    slots: Seq<Option<Seq<u8>>>,
    parts: Seq<Seq<u8>>,
    data: nat,
    parity: nat,
    size: int,
)
    requires
        slots.len() == data + parity,
        parts.len() == data,
        forall|i: int| 0 <= i < slots.len() ==> (#[trigger] slots[i]) is Some,
        forall|i: int| 0 <= i < data ==> (#[trigger] slots[i])->0 == parts[i],
        0 <= size <= end_to_end(parts).len(),
    ensures
        multipart::decoded(slots, data, parity, size) == Ok::<Seq<u8>, Failure>(
            end_to_end(parts).take(size),
        ),
{
    lemma_all_present(slots, slots.len());
    lemma_slots_joined(slots, parts, data);
    assert(parts.take(data as int) =~= parts);
    let all = end_to_end(parts);
    assert(all.take(all.len() as int) =~= all);
}

proof fn lemma_all_present(slots: Seq<Option<Seq<u8>>>, n: nat)
    requires
        n <= slots.len(),
        forall|i: int| 0 <= i < slots.len() ==> (#[trigger] slots[i]) is Some,
    ensures
        erasure::present(slots, n) == n,
    decreases n,
{
    if n > 0 {
        lemma_all_present(slots, (n - 1) as nat);
        assert(slots[n - 1] is Some);
    }
}

proof fn lemma_slots_joined(slots: Seq<Option<Seq<u8>>>, parts: Seq<Seq<u8>>, n: nat)
    requires
        n <= parts.len() <= slots.len(),
        forall|i: int| 0 <= i < slots.len() ==> (#[trigger] slots[i]) is Some,
        forall|i: int| 0 <= i < parts.len() ==> (#[trigger] slots[i])->0 == parts[i],
    ensures
        multipart::joined_slots(slots, n) == end_to_end(parts.take(n as int)),
    decreases n,
{
    if n > 0 {
        lemma_slots_joined(slots, parts, (n - 1) as nat);
        assert(slots[n - 1] is Some && slots[n - 1]->0 == parts[n - 1]);
        lemma_end_to_end(parts.take(n - 1), parts[n - 1]);
        assert(parts.take(n - 1).push(parts[n - 1]) =~= parts.take(n as int));
    } else {
        assert(parts.take(0) =~= Seq::empty());
    }
}

/// A part of which fewer shards are there than it has data shards cannot be read.
pub proof fn law_too_few_shards_are_reported(
    slots: Seq<Option<Seq<u8>>>,
    data: nat,
    parity: nat,
    size: int,
)
    ensures
        erasure::present(slots, slots.len()) < data ==> multipart::decoded(
            slots,
            data,
            parity,
            size,
        ) == Err::<Seq<u8>, Failure>(Failure::ReadQuorum),
{
}

// ---------------------------------------------------------------------- tags

/// A tag without quotation marks in it, as a client sends it: as it is, or between quotation
/// marks.
pub open spec fn sent_as(s: Seq<char>, tag: Seq<char>) -> bool {
    &&& s == tag || s == seq!['"'] + tag + seq!['"']
    &&& tag.len() > 0
    &&& split::free_of(tag, '"')
}

proof fn lemma_tag(s: Seq<char>, tag: Seq<char>)
    requires
        sent_as(s, tag),
    ensures
        split::stripped(s, '"') == tag,
{
    assert(tag[0] != '"' && tag[tag.len() - 1] != '"');
    assert(tag.last() == tag[tag.len() - 1]);
    assert(split::without_leading(tag, '"') == tag);
    assert(text::without_trailing(tag, '"') == tag);
    if s != tag {
        let inner = tag + seq!['"'];
        assert(s.drop_first() =~= inner);
        assert(s[0] == '"');
        assert(inner[0] == tag[0]);
        assert(split::without_leading(inner, '"') == inner);
        assert(split::without_leading(s, '"') == inner);
        assert(inner.drop_last() =~= tag);
        assert(inner.last() == '"');
    }
}

/// Texts, one behind the other.
pub open spec fn run_together(tags: Seq<Seq<char>>) -> Seq<char>
    decreases tags.len(),
{
    if tags.len() == 0 {
        Seq::empty()
    } else {
        run_together(tags.drop_last()) + tags.last()
    }
}

/// The tag of a completed object is the digest of the tags of its parts, however they are
/// quoted, followed by a hyphen and the number of parts.
pub proof fn law_whole_tag_tells_the_parts(asked: Seq<(i32, String)>, tags: Seq<Seq<char>>)
    requires
        asked.len() == tags.len(),
        forall|i: int| 0 <= i < tags.len() ==> sent_as((#[trigger] asked[i]).1@, tags[i]),
    ensures
        multipart::whole_tag(asked) == digest::hex_chars(
            digest::md5_digest(encode_utf8(run_together(tags))),
        ) + seq!['-'] + text::decimal(tags.len()),
{
    lemma_tags(asked, tags, tags.len());
    assert(tags.take(tags.len() as int) =~= tags);
    reveal_strlit("-");
    assert("-"@ =~= seq!['-']);
}

proof fn lemma_tags(asked: Seq<(i32, String)>, tags: Seq<Seq<char>>, n: nat)
    requires
        n <= tags.len() == asked.len(),
        forall|i: int| 0 <= i < tags.len() ==> sent_as((#[trigger] asked[i]).1@, tags[i]),
    ensures
        multipart::joined_tags(asked, n) == run_together(tags.take(n as int)),
    decreases n,
{
    if n > 0 {
        lemma_tags(asked, tags, (n - 1) as nat);
        assert(sent_as(asked[n - 1].1@, tags[n - 1]));
        lemma_tag(asked[n - 1].1@, tags[n - 1]);
        assert(tags.take(n as int).drop_last() =~= tags.take(n - 1));
        assert(tags.take(n as int).last() == tags[n - 1]);
    }
}

/// Uploads are kept below the root of their disk, one directory for each bucket.
pub proof fn law_uploads_are_kept_by_bucket(root: Seq<char>, bucket: Seq<char>)
    ensures
        ({
            let s = multipart::bucket_steps("local:"@ + root, bucket);
            s.len() == 3 && s[0] == root && s[1] == ".abixio.sys/multipart"@ && s[2] == bucket
        }),
{
    crate::s3::request_laws::law_label_tells_the_root(root);
}

/// Parts are there exactly where each that is asked for is among those that were uploaded.
pub proof fn law_every_asked_part_is_there(list: Seq<PartMeta>, asked: Seq<(i32, String)>, i: int)
    requires
        0 <= i < asked.len(),
    ensures
        multipart::all_listed(list, asked) ==> exists|k: int|
            0 <= k < list.len() && (#[trigger] list[k]).part_number == asked[i].0,
        (forall|k: int| 0 <= k < list.len() ==> (#[trigger] list[k]).part_number != asked[i].0)
            ==> !multipart::all_listed(list, asked),
{
    if multipart::all_listed(list, asked) {
        assert(multipart::is_listed(list, asked[i].0));
    }
}

/// Parts that were all uploaded are all there.
pub proof fn law_uploaded_parts_are_there(
    list: Seq<PartMeta>,
    asked: Seq<(i32, String)>,
    places: Seq<int>,
)
    requires
        places.len() == asked.len(),
        forall|i: int|
            0 <= i < asked.len() ==> 0 <= #[trigger] places[i] < list.len()
                && list[places[i]].part_number == asked[i].0,
    ensures
        multipart::all_listed(list, asked),
{
    assert forall|i: int| 0 <= i < asked.len() implies multipart::is_listed(
        list,
        (#[trigger] asked[i]).0,
    ) by {
        assert(list[places[i]].part_number == asked[i].0);
    }
}

/// The tag of a part is the digest of its bytes in hex.
pub proof fn law_part_is_tagged_by_its_digest(data: Seq<u8>)
    ensures
        multipart::part_tag(data) == digest::hex_chars(digest::md5_digest(data)),
{
}

/// Failures are told apart: a missing part, too few disks to write or to read, and shard counts
/// for which there is no code.
pub proof fn law_failures_are_told_apart(e: StorageError, f: Failure)
    requires
        multipart::reports(e, f),
    ensures
        f is NotFound <==> e is ObjectNotFound,
        f is WriteQuorum <==> e is WriteQuorum,
        f is ReadQuorum <==> e is ReadQuorum,
        f is InvalidConfig <==> e is InvalidConfig,
        f is InvalidConfig ==> e->InvalidConfig_0@ == f->InvalidConfig_0,
{
}

} // verus!
