//! Diagnosis and repair of one object from what its disks hold.

use vstd::prelude::*;
use vstd::string::*;

use super::mrf::{MrfEntry, MrfQueue};
use super::scanner;
use super::scanner::ScanState;
use crate::digest;
use crate::erasure;
use crate::erasure::CodecError;
use crate::storage;
use crate::storage::{ErasureMeta, MetaModel, ObjectMeta, StorageError};
use crate::text;

verus! {

/// Result of a single object heal attempt.
#[derive(Debug, PartialEq, Eq)]
pub enum HealResult {
    /// The object was already healthy on all disks.
    Healthy,
    /// One or more shards were repaired.
    Repaired { shards_fixed: usize },
    /// Not enough healthy shards to reconstruct.
    Unrecoverable,
}

/// What one disk holds of an object: a shard and its metadata.
#[derive(Debug)]
pub struct ShardRead {
    pub data: Vec<u8>,
    pub meta: ObjectMeta,
}

/// A shard to be written back to a disk.
#[derive(Debug)]
pub struct ShardWrite {
    pub disk: usize,
    pub data: Vec<u8>,
    pub meta: ObjectMeta,
}

/// What has to be done for an object.
#[derive(Debug)]
pub enum HealPlan {
    Healthy,
    Unrecoverable,
    Repair(Vec<ShardWrite>),
}

// ---------------------------------------------------------------- consensus

/// How many of the first `n` disks hold metadata of the same write.
pub open spec fn tally(reads: Seq<Option<ShardRead>>, meta: MetaModel, n: nat) -> nat
    decreases n,
{
    if n == 0 {
        0
    } else {
        tally(reads, meta, (n - 1) as nat) + (if reads[n - 1] is Some && storage::same_write(
            meta,
            reads[n - 1]->0.meta@,
        ) {
            1nat
        } else {
            0nat
        })
    }
}

/// On how many disks the write of disk `i` is found.
pub open spec fn votes(reads: Seq<Option<ShardRead>>, i: int) -> nat {
    tally(reads, reads[i]->0.meta@, reads.len())
}

/// The first of the first `n` disks whose write is found on the most disks.
pub open spec fn leader(reads: Seq<Option<ShardRead>>, n: nat) -> Option<int>
    decreases n,
{
    if n == 0 {
        None
    } else {
        let before = leader(reads, (n - 1) as nat);
        if reads[n - 1] is None {
            before
        } else if before is None || votes(reads, n - 1) > votes(reads, before->0) {
            Some(n - 1)
        } else {
            before
        }
    }
}

/// The first disk that holds anything of the object, from `i` on.
pub open spec fn first_read(reads: Seq<Option<ShardRead>>, i: int) -> Option<int>
    decreases reads.len() - i,
{
    if i >= reads.len() {
        None
    } else if reads[i] is Some {
        Some(i)
    } else {
        first_read(reads, i + 1)
    }
}

/// The leader is one of the disks that hold something, and none has more votes.
pub proof fn law_leader_has_most_votes(reads: Seq<Option<ShardRead>>, n: nat)
    requires
        n <= reads.len(),
    ensures
        leader(reads, n) is None <==> (forall|i: int| 0 <= i < n ==> (#[trigger] reads[i]) is None),
        leader(reads, n) matches Some(b) ==> {
            &&& 0 <= b < n
            &&& reads[b] is Some
            &&& forall|i: int|
                0 <= i < n && (#[trigger] reads[i]) is Some ==> votes(reads, i) <= votes(reads, b)
        },
    decreases n,
{
    if n > 0 {
        law_leader_has_most_votes(reads, (n - 1) as nat);
    }
}

fn count_votes(reads: &Vec<Option<ShardRead>>, meta: &ObjectMeta) -> (r: usize)
    ensures
        r == tally(reads@, meta@, reads@.len()),
        r <= reads@.len(),
{
    let mut n: usize = 0;
    let mut i: usize = 0;
    while i < reads.len()
        invariant
            i <= reads@.len(),
            n <= i,
            n == tally(reads@, meta@, i as nat),
        decreases reads@.len() - i,
    {
        if let Some(read) = &reads[i] {
            if meta.quorum_eq(&read.meta) {
                n = n + 1;
            }
        }
        i = i + 1;
    }
    n
}

/// Finds the metadata that the most disks agree on.
///
/// There must be at least `data_n` of them: fewer could not have been a complete
/// write.
pub fn find_consensus_meta(reads: &Vec<Option<ShardRead>>, data_n: usize) -> (r: Result<
    usize,
    StorageError,
>)
    ensures
        match leader(reads@, reads@.len()) {
            None => r == Err::<usize, StorageError>(StorageError::ObjectNotFound),
            Some(b) => if votes(reads@, b) < data_n {
                r == Err::<usize, StorageError>(StorageError::ReadQuorum)
            } else {
                r matches Ok(i) && i == b && i < reads@.len() && reads@[i as int] is Some
            },
        },
{
    let mut best: Option<usize> = None;
    let mut best_votes: usize = 0;
    let mut i: usize = 0;
    while i < reads.len()
        invariant
            i <= reads@.len(),
            match best {
                None => leader(reads@, i as nat) is None,
                Some(b) => leader(reads@, i as nat) == Some(b as int) && b < i && reads@[b as int]
                    is Some && best_votes == votes(reads@, b as int),
            },
        decreases reads@.len() - i,
    {
        if let Some(read) = &reads[i] {
            let n: usize = count_votes(reads, &read.meta);
            if best.is_none() || n > best_votes {
                best = Some(i);
                best_votes = n;
            }
        }
        i = i + 1;
    }
    match best {
        None => Err(StorageError::ObjectNotFound),
        Some(b) => if best_votes < data_n {
            Err(StorageError::ReadQuorum)
        } else {
            Ok(b)
        },
    }
}

// ---------------------------------------------------------------- diagnosis

/// The disk of shard `s` holds it: the metadata is that of the agreed write and the
/// digest fits.
pub open spec fn shard_good(reads: Seq<Option<ShardRead>>, agreed: MetaModel, s: int) -> bool {
    let disk = agreed.erasure.distribution[s] as int;
    &&& 0 <= s < agreed.erasure.distribution.len()
    &&& disk < reads.len()
    &&& reads[disk] is Some
    &&& storage::same_write(reads[disk]->0.meta@, agreed)
    &&& digest::hex_chars(digest::sha256_digest(reads[disk]->0.data@))
        == reads[disk]->0.meta.checksum@
}

/// What is there of each shard.
pub open spec fn good_slots(
    reads: Seq<Option<ShardRead>>,
    agreed: MetaModel,
    total: nat,
) -> Seq<Option<Seq<u8>>> {
    Seq::new(
        total,
        |s: int|
            if shard_good(reads, agreed, s) {
                Some(reads[agreed.erasure.distribution[s] as int]->0.data@)
            } else {
                None
            },
    )
}

/// Whether a shard belongs to the agreed write and its digest fits.
pub fn shard_intact(read: &ShardRead, agreed: &ObjectMeta) -> (r: bool)
    ensures
        r == (storage::same_write(read.meta@, agreed@) && digest::hex_chars(
            digest::sha256_digest(read.data@),
        ) == read.meta.checksum@),
{
    if !read.meta.quorum_eq(agreed) {
        return false;
    }
    let digest = digest::sha256(read.data.as_slice());
    let hex = digest::hex_encode(digest.as_slice());
    text::str_eq(hex.as_str(), read.meta.checksum.as_str())
}

/// Whether the disk of a shard holds it.
fn is_good(reads: &Vec<Option<ShardRead>>, agreed: &ObjectMeta, s: usize) -> (r: bool)
    ensures
        r == shard_good(reads@, agreed@, s as int),
{
    if s < agreed.erasure.distribution.len() {
        let disk: usize = agreed.erasure.distribution[s];
        if disk < reads.len() {
            if let Some(read) = &reads[disk] {
                return shard_intact(read, agreed);
            }
        }
    }
    false
}

fn copy_bytes(data: &Vec<u8>) -> (r: Vec<u8>)
    ensures
        r@ == data@,
{
    vstd::slice::slice_to_vec(data.as_slice())
}

/// Collects the healthy shards of an object; the others stay empty.
fn collect_good(reads: &Vec<Option<ShardRead>>, agreed: &ObjectMeta, total: usize) -> (r: (
    Vec<Option<Vec<u8>>>,
    usize,
))
    ensures
        erasure::slot_views(r.0@) == good_slots(reads@, agreed@, total as nat),
        r.1 == erasure::present(good_slots(reads@, agreed@, total as nat), total as nat),
        r.1 <= total,
{
    let ghost want = good_slots(reads@, agreed@, total as nat);
    let mut slots: Vec<Option<Vec<u8>>> = Vec::new();
    let mut good: usize = 0;
    let mut s: usize = 0;
    while s < total
        invariant
            s <= total,
            slots@.len() == s,
            good <= s,
            want == good_slots(reads@, agreed@, total as nat),
            good == erasure::present(want, s as nat),
            forall|k: int|
                0 <= k < s ==> (match #[trigger] slots@[k] {
                    Some(v) => want[k] == Some(v@),
                    None => want[k] is None,
                }),
        decreases total - s,
    {
        let mut slot: Option<Vec<u8>> = None;
        if is_good(reads, agreed, s) {
            if let Some(read) = &reads[agreed.erasure.distribution[s]] {
                slot = Some(copy_bytes(&read.data));
                good = good + 1;
            }
        }
        slots.push(slot);
        s = s + 1;
    }
    assert(erasure::slot_views(slots@) =~= want);
    (slots, good)
}

// ------------------------------------------------------------------- repair

/// Shards can be restored from those that are there.
pub open spec fn restorable(data: int, parity: int, slots: Seq<Option<Seq<u8>>>) -> bool {
    &&& erasure::present(slots, slots.len()) >= data
    &&& parity > 0 ==> erasure::codec_exists(data, parity) && erasure::uniform_slots(slots)
}

/// The agreed write names a disk for every shard that has to be written, and holds no shard
/// beyond those of the code.
pub open spec fn places_fit(
    reads: Seq<Option<ShardRead>>,
    agreed: MetaModel,
    data: int,
    parity: int,
) -> bool {
    let total = data + parity;
    let places = agreed.erasure.distribution.len();
    &&& forall|s: int| total <= s < places ==> !#[trigger] shard_good(reads, agreed, s)
    &&& places >= total || !restorable(data, parity, good_slots(reads, agreed, total as nat))
}

/// The write that the disks agree on fits the shard counts of the first metadata found.
pub open spec fn coherent(reads: Seq<Option<ShardRead>>) -> bool {
    match first_read(reads, 0) {
        None => true,
        Some(f) => {
            let e = reads[f]->0.meta.erasure;
            &&& e.data + e.parity <= usize::MAX
            &&& leader(reads, reads.len()) matches Some(b) ==> votes(reads, b) >= e.data
                ==> places_fit(reads, reads[b]->0.meta@, e.data as int, e.parity as int)
        },
    }
}

/// The metadata to be stored beside a repaired shard.
pub open spec fn repaired_meta(agreed: MetaModel, s: int, data: Seq<u8>) -> MetaModel {
    MetaModel {
        erasure: storage::ErasureModel { index: s as usize, ..agreed.erasure },
        checksum: digest::hex_chars(digest::sha256_digest(data)),
        ..agreed
    }
}

/// The shards among the first `n` that are damaged, can be restored, and have a disk.
pub open spec fn to_write(
    slots: Seq<Option<Seq<u8>>>,
    restored: Seq<Option<Seq<u8>>>,
    distribution: Seq<usize>,
    disks: int,
    n: nat,
) -> Seq<int>
    decreases n,
{
    if n == 0 {
        Seq::empty()
    } else {
        let before = to_write(slots, restored, distribution, disks, (n - 1) as nat);
        if slots[n - 1] is None && restored[n - 1] is Some && distribution[n - 1] < disks {
            before.push(n - 1)
        } else {
            before
        }
    }
}

/// The shards after reconstruction; without parity nothing can be restored.
pub open spec fn restored_slots(data: nat, parity: nat, slots: Seq<Option<Seq<u8>>>) -> Seq<
    Option<Seq<u8>>,
> {
    if parity == 0 {
        slots
    } else {
        erasure::filled(erasure::completed(data, parity, slots))
    }
}

/// The writes repair exactly the shards `which`, in order.
pub open spec fn writes_restore(
    writes: Seq<ShardWrite>,
    which: Seq<int>,
    restored: Seq<Option<Seq<u8>>>,
    agreed: MetaModel,
) -> bool {
    &&& writes.len() == which.len()
    &&& forall|i: int|
        0 <= i < writes.len() ==> {
            let s = which[i];
            &&& (#[trigger] writes[i]).disk == agreed.erasure.distribution[s]
            &&& restored[s] == Some(writes[i].data@)
            &&& writes[i].meta@ == repaired_meta(agreed, s, writes[i].data@)
        }
}

/// Decides what has to be done for an object, given what each disk holds of it:
/// finds the metadata that the disks agree on, checks every shard against it, and
/// reconstructs the missing and corrupt shards. The shard counts are those of the
/// first metadata found.
pub fn heal_object(reads: &Vec<Option<ShardRead>>) -> (r: Result<HealPlan, StorageError>)
    requires
        coherent(reads@),
    ensures
        first_read(reads@, 0) is None ==> r == Err::<HealPlan, StorageError>(
            StorageError::ObjectNotFound,
        ),
        first_read(reads@, 0) matches Some(f) ==> {
            let data = reads@[f]->0.meta.erasure.data;
            let parity = reads@[f]->0.meta.erasure.parity;
            let total = (data + parity) as nat;
            let b = leader(reads@, reads@.len())->0;
            let agreed = reads@[b]->0.meta@;
            let slots = good_slots(reads@, agreed, total);
            let good = erasure::present(slots, total);
            if votes(reads@, b) < data {
                r == Err::<HealPlan, StorageError>(StorageError::ReadQuorum)
            } else if good == total {
                r matches Ok(plan) && plan is Healthy
            } else if good < data {
                r matches Ok(plan) && plan is Unrecoverable
            } else if parity > 0 && !erasure::codec_exists(data as int, parity as int) {
                r matches Err(StorageError::InvalidConfig(m)) && m@ == "reed-solomon: "@
                    + erasure::config_complaint(data as int, parity as int)
            } else if parity > 0 && !erasure::uniform_slots(slots) {
                r == Err::<HealPlan, StorageError>(StorageError::ReadQuorum)
            } else {
                let restored = restored_slots(data as nat, parity as nat, slots);
                &&& r matches Ok(HealPlan::Repair(writes))
                &&& restored.len() == total
                &&& writes_restore(
                    writes@,
                    to_write(
                        slots,
                        restored,
                        agreed.erasure.distribution,
                        reads@.len() as int,
                        total,
                    ),
                    restored,
                    agreed,
                )
                &&& forall|x: Seq<Seq<u8>>|
                    x.len() == data && erasure::uniform(x) && erasure::agrees(
                        slots,
                        #[trigger] erasure::code_word(data as nat, parity as nat, x),
                    ) && parity > 0 ==> restored == erasure::filled(
                        erasure::code_word(data as nat, parity as nat, x),
                    )
            }
        },
{
    let mut f: usize = 0;
    while f < reads.len() && reads[f].is_none()
        invariant
            f <= reads@.len(),
            first_read(reads@, 0) == first_read(reads@, f as int),
        ensures
            f <= reads@.len(),
            first_read(reads@, 0) == first_read(reads@, f as int),
            f < reads@.len() ==> reads@[f as int] is Some,
        decreases reads@.len() - f,
    {
        f = f + 1;
    }
    if f == reads.len() {
        return Err(StorageError::ObjectNotFound);
    }
    let (data_n, parity_n): (usize, usize) = match &reads[f] {
        Some(read) => (read.meta.erasure.data, read.meta.erasure.parity),
        None => {
            return Err(StorageError::ObjectNotFound);
        },
    };
    proof {
        law_leader_has_most_votes(reads@, reads@.len());
    }
    let total: usize = data_n + parity_n;
    let b: usize = match find_consensus_meta(reads, data_n) {
        Ok(b) => b,
        Err(e) => {
            return Err(e);
        },
    };
    let agreed = match &reads[b] {
        Some(read) => read.meta.clone(),
        None => {
            return Err(StorageError::ObjectNotFound);
        },
    };
    let (slots, good) = collect_good(reads, &agreed, total);
    let ghost seen = good_slots(reads@, agreed@, total as nat);
    if good == total {
        return Ok(HealPlan::Healthy);
    }
    if good < data_n {
        return Ok(HealPlan::Unrecoverable);
    }
    let damaged = damage(&slots);
    assert(slots@.len() == erasure::slot_views(slots@).len());
    let restored: Vec<Option<Vec<u8>>> = if parity_n > 0 {
        match erasure::reconstruct(data_n, parity_n, slots) {
            Ok(v) => v,
            Err(CodecError::Config(m)) => {
                let mut out = "reed-solomon: ".to_owned();
                out.append(m.as_str());
                return Err(StorageError::InvalidConfig(out));
            },
            Err(CodecError::Shards(_)) => {
                return Err(StorageError::ReadQuorum);
            },
        }
    } else {
        slots
    };
    assert(erasure::slot_views(restored@) == restored_slots(
        data_n as nat,
        parity_n as nat,
        seen,
    ));
    let writes = plan_writes(reads.len(), &damaged, &restored, &agreed, Ghost(seen));
    Ok(HealPlan::Repair(writes))
}

/// Which shards are not there.
fn damage(slots: &Vec<Option<Vec<u8>>>) -> (r: Vec<bool>)
    ensures
        r@.len() == slots@.len(),
        forall|i: int|
            0 <= i < r@.len() ==> #[trigger] r@[i] == (erasure::slot_views(slots@)[i] is None),
{
    let mut out: Vec<bool> = Vec::new();
    while out.len() < slots.len()
        invariant
            out@.len() <= slots@.len(),
            forall|i: int|
                0 <= i < out@.len() ==> #[trigger] out@[i] == (erasure::slot_views(slots@)[i] is None),
        decreases slots@.len() - out@.len(),
    {
        let missing = slots[out.len()].is_none();
        out.push(missing);
    }
    out
}

fn plan_writes(
    disks: usize,
    damaged: &Vec<bool>,
    restored: &Vec<Option<Vec<u8>>>,
    agreed: &ObjectMeta,
    Ghost(slots): Ghost<Seq<Option<Seq<u8>>>>,
) -> (r: Vec<ShardWrite>)
    requires
        damaged@.len() == slots.len(),
        restored@.len() == slots.len(),
        agreed.erasure.distribution@.len() >= slots.len(),
        forall|i: int| 0 <= i < damaged@.len() ==> #[trigger] damaged@[i] == (slots[i] is None),
    ensures
        writes_restore(
            r@,
            to_write(
                slots,
                erasure::slot_views(restored@),
                agreed@.erasure.distribution,
                disks as int,
                slots.len(),
            ),
            erasure::slot_views(restored@),
            agreed@,
        ),
{
    let ghost rv = erasure::slot_views(restored@);
    let ghost dist = agreed@.erasure.distribution;
    let mut out: Vec<ShardWrite> = Vec::new();
    let mut s: usize = 0;
    while s < damaged.len()
        invariant
            s <= damaged@.len(),
            damaged@.len() == slots.len(),
            restored@.len() == slots.len(),
            agreed.erasure.distribution@.len() >= slots.len(),
            forall|i: int| 0 <= i < damaged@.len() ==> #[trigger] damaged@[i] == (slots[i] is None),
            rv == erasure::slot_views(restored@),
            dist == agreed@.erasure.distribution,
            writes_restore(
                out@,
                to_write(slots, rv, dist, disks as int, s as nat),
                rv,
                agreed@,
            ),
        decreases damaged@.len() - s,
    {
        let disk: usize = agreed.erasure.distribution[s];
        if damaged[s] && disk < disks {
            if let Some(data) = &restored[s] {
                let digest = digest::sha256(data.as_slice());
                let checksum = digest::hex_encode(digest.as_slice());
                let base = agreed.clone();
                let erasure = ErasureMeta { index: s, ..agreed.erasure.clone() };
                let meta = ObjectMeta { erasure, checksum, ..base };
                assert(meta@ == repaired_meta(agreed@, s as int, data@));
                out.push(ShardWrite { disk, data: copy_bytes(data), meta });
                assert(rv[s as int] == Some(data@));
            }
        }
        s = s + 1;
    }
    out
}

/// What came of a plan, given how many of its writes succeeded.
pub fn heal_outcome(plan: &HealPlan, written: usize) -> (r: HealResult)
    ensures
        r == (match *plan {
            HealPlan::Healthy => HealResult::Healthy,
            HealPlan::Unrecoverable => HealResult::Unrecoverable,
            HealPlan::Repair(_) => HealResult::Repaired { shards_fixed: written },
        }),
{
    match plan {
        HealPlan::Healthy => HealResult::Healthy,
        HealPlan::Unrecoverable => HealResult::Unrecoverable,
        HealPlan::Repair(_) => HealResult::Repaired { shards_fixed: written },
    }
}

/// Whether the disks agree on a write whose shard count fits the first metadata found.
pub fn reads_coherent(reads: &Vec<Option<ShardRead>>) -> (r: bool)
    ensures
        r == coherent(reads@),
{
    let mut f: usize = 0;
    while f < reads.len() && reads[f].is_none()
        invariant
            f <= reads@.len(),
            first_read(reads@, 0) == first_read(reads@, f as int),
        ensures
            f <= reads@.len(),
            first_read(reads@, 0) == first_read(reads@, f as int),
            f < reads@.len() ==> reads@[f as int] is Some,
        decreases reads@.len() - f,
    {
        f = f + 1;
    }
    if f == reads.len() {
        return true;
    }
    let (data_n, parity_n): (usize, usize) = match &reads[f] {
        Some(read) => (read.meta.erasure.data, read.meta.erasure.parity),
        None => {
            return true;
        },
    };
    proof {
        law_leader_has_most_votes(reads@, reads@.len());
    }
    let total: usize = match data_n.checked_add(parity_n) {
        Some(n) => n,
        None => {
            return false;
        },
    };
    match find_consensus_meta(reads, data_n) {
        Ok(b) => match &reads[b] {
            Some(read) => fits(reads, &read.meta, data_n, parity_n, total),
            None => true,
        },
        Err(_) => true,
    }
}

fn fits(
    reads: &Vec<Option<ShardRead>>,
    agreed: &ObjectMeta,
    data_n: usize,
    parity_n: usize,
    total: usize,
) -> (r: bool)
    requires
        total == data_n + parity_n,
    ensures
        r == places_fit(reads@, agreed@, data_n as int, parity_n as int),
{
    let places: usize = agreed.erasure.distribution.len();
    let mut s: usize = total;
    while s < places
        invariant
            total <= s,
            total == data_n + parity_n,
            places == agreed@.erasure.distribution.len(),
            forall|k: int| total <= k < s ==> !#[trigger] shard_good(reads@, agreed@, k),
        decreases places - s,
    {
        if is_good(reads, agreed, s) {
            assert(shard_good(reads@, agreed@, s as int));
            return false;
        }
        s = s + 1;
    }
    if places >= total {
        return true;
    }
    let (slots, good) = collect_good(reads, agreed, total);
    if good < data_n {
        return true;
    }
    if parity_n == 0 {
        return false;
    }
    !(data_n > 0 && total <= 256 && one_length(&slots))
}

fn one_length(slots: &Vec<Option<Vec<u8>>>) -> (r: bool)
    ensures
        r == erasure::uniform_slots(erasure::slot_views(slots@)),
{
    let ghost v = erasure::slot_views(slots@);
    let mut known: Option<usize> = None;
    let mut i: usize = 0;
    while i < slots.len()
        invariant
            i <= slots@.len(),
            v == erasure::slot_views(slots@),
            match known {
                Some(n) => n > 0 && (exists|k: int|
                    0 <= k < i && (#[trigger] v[k]) is Some && v[k]->0.len() == n) && forall|k: int|
                    0 <= k < i && (#[trigger] v[k]) is Some ==> v[k]->0.len() == n,
                None => forall|k: int| 0 <= k < i ==> (#[trigger] v[k]) is None,
            },
        decreases slots@.len() - i,
    {
        if let Some(s) = &slots[i] {
            assert(v[i as int] == Some(s@));
            if s.len() == 0 {
                return false;
            }
            match known {
                Some(n) => {
                    if n != s.len() {
                        proof {
                            let k = choose|k: int|
                                0 <= k < i && (#[trigger] v[k]) is Some && v[k]->0.len() == n;
                            assert(v[k]->0.len() != v[i as int]->0.len());
                        }
                        return false;
                    }
                },
                None => {
                    known = Some(s.len());
                },
            }
        } else {
            assert(v[i as int] is None);
        }
        i = i + 1;
    }
    true
}

/// Whether an object has missing or corrupt shards, given the first metadata found
/// and what each disk holds. An object that is gone needs no healing.
pub fn object_needs_healing(meta: &Option<ObjectMeta>, reads: &Vec<Option<ShardRead>>) -> (r: bool)
    requires
        meta matches Some(m) ==> m.erasure.data + m.erasure.parity <= usize::MAX,
    ensures
        r == (match *meta {
            None => false,
            Some(m) => {
                let total = (m.erasure.data + m.erasure.parity) as nat;
                erasure::present(good_slots(reads@, m@, total), total) < total
            },
        }),
{
    let m = match meta {
        Some(m) => m,
        None => {
            return false;
        },
    };
    let total: usize = m.erasure.data + m.erasure.parity;
    let ghost slots = good_slots(reads@, m@, total as nat);
    let mut good: usize = 0;
    let mut s: usize = 0;
    while s < total
        invariant
            s <= total,
            good <= s,
            slots == good_slots(reads@, m@, total as nat),
            good == erasure::present(slots, s as nat),
        decreases total - s,
    {
        if s < m.erasure.distribution.len() {
            let disk: usize = m.erasure.distribution[s];
            if disk < reads.len() {
                if let Some(read) = &reads[disk] {
                    if shard_intact(read, m) {
                        good = good + 1;
                    }
                }
            }
        }
        s = s + 1;
    }
    good < total
}

/// One step of a scan: a damaged object is queued for healing, as far as the queue
/// takes it, and the object counts as just checked.
pub fn scan_object(
    queue: &mut MrfQueue,
    scan_state: &mut ScanState,
    bucket: &str,
    key: &str,
    damaged: bool,
)
    ensures
        exists|at: std::time::Instant|
            final(scan_state).checks() == #[trigger] old(scan_state).checks().insert(
                scanner::object_name(bucket@, key@),
                at,
            ),
        final(scan_state).interval() == old(scan_state).interval(),
        damaged && !old(queue).is_closed() && old(queue).queued().len() < old(queue).limit()
            ==> final(queue).pending() == old(queue).pending().insert((bucket@, key@)),
        !damaged || old(queue).pending().contains((bucket@, key@)) || old(queue).is_closed() || old(
            queue,
        ).queued().len() >= old(queue).limit() ==> final(queue).queued() == old(queue).queued()
            && final(queue).pending() == old(queue).pending(),
        damaged && !old(queue).pending().contains((bucket@, key@)) && !old(queue).is_closed()
            && old(queue).queued().len() < old(queue).limit() ==> final(queue).queued() == old(
            queue,
        ).queued().push((bucket@, key@)),
{
    if damaged {
        let entry = MrfEntry { bucket: bucket.to_owned(), key: key.to_owned() };
        let _ = queue.enqueue(entry);
        assert(old(queue).pending().contains((bucket@, key@)) ==> old(queue).pending()
            =~= old(queue).pending().insert((bucket@, key@)));
    }
    scan_state.mark_checked(bucket, key);
}

/// A repaired shard is the one that was written: where the healthy shards are those
/// of one code word, so are all shards after the repair.
pub proof fn law_repair_restores_the_code_word(
    data: nat,
    parity: nat,
    slots: Seq<Option<Seq<u8>>>,
    restored: Seq<Option<Seq<u8>>>,
    distribution: Seq<usize>,
    disks: int,
    writes: Seq<ShardWrite>,
    agreed: MetaModel,
    x: Seq<Seq<u8>>,
    i: int,
)
    requires
        slots.len() == data + parity,
        restored == erasure::filled(erasure::code_word(data, parity, x)),
        erasure::code_word(data, parity, x).len() == data + parity,
        writes_restore(
            writes,
            to_write(slots, restored, distribution, disks, slots.len()),
            restored,
            agreed,
        ),
        0 <= i < writes.len(),
    ensures
        ({
            let s = to_write(slots, restored, distribution, disks, slots.len())[i];
            &&& 0 <= s < data + parity
            &&& writes[i].data@ == erasure::code_word(data, parity, x)[s]
        }),
{
    lemma_to_write(slots, restored, distribution, disks, slots.len());
    let which = to_write(slots, restored, distribution, disks, slots.len());
    assert(which.contains(which[i]));
}

/// What the disks hold after the writes, where they held `before`.
pub open spec fn applied(
    before: Seq<Option<ShardRead>>,
    writes: Seq<ShardWrite>,
    after: Seq<Option<ShardRead>>,
) -> bool {
    &&& after.len() == before.len()
    &&& forall|i: int|
        0 <= i < writes.len() ==> (after[(#[trigger] writes[i]).disk as int] matches Some(x)
            && x.data@ == writes[i].data@ && x.meta@ == writes[i].meta@)
    &&& forall|d: int|
        0 <= d < after.len() && (forall|i: int|
            0 <= i < writes.len() ==> (#[trigger] writes[i]).disk != d) ==> #[trigger] after[d]
            == before[d]
}

proof fn lemma_all_present(slots: Seq<Option<Seq<u8>>>, n: nat)
    requires
        n <= slots.len(),
        forall|s: int| 0 <= s < n ==> (#[trigger] slots[s]) is Some,
    ensures
        erasure::present(slots, n) == n,
    decreases n,
{
    if n > 0 {
        lemma_all_present(slots, (n - 1) as nat);
    }
}

/// A repaired object is healthy: once the writes of a plan are on the disks, every shard is
/// there, where each shard has a disk of its own and all of them could be restored.
pub proof fn law_repaired_object_is_healthy(
    reads: Seq<Option<ShardRead>>,
    after: Seq<Option<ShardRead>>,
    agreed: MetaModel,
    total: nat,
    restored: Seq<Option<Seq<u8>>>,
    writes: Seq<ShardWrite>,
)
    requires
        agreed.erasure.distribution.len() == total,
        agreed.erasure.distribution.no_duplicates(),
        forall|s: int| 0 <= s < total ==> (#[trigger] agreed.erasure.distribution[s]) < reads.len(),
        restored.len() == total,
        forall|s: int| 0 <= s < total ==> (#[trigger] restored[s]) is Some,
        writes_restore(
            writes,
            to_write(
                good_slots(reads, agreed, total),
                restored,
                agreed.erasure.distribution,
                reads.len() as int,
                total,
            ),
            restored,
            agreed,
        ),
        applied(reads, writes, after),
    ensures
        erasure::present(good_slots(after, agreed, total), total) == total,
{
    let slots = good_slots(reads, agreed, total);
    let dist = agreed.erasure.distribution;
    let which = to_write(slots, restored, dist, reads.len() as int, total);
    lemma_to_write(slots, restored, dist, reads.len() as int, total);
    let now = good_slots(after, agreed, total);
    assert forall|s: int| 0 <= s < total implies (#[trigger] now[s]) is Some by {
        let d = dist[s] as int;
        if slots[s] is Some {
            assert(shard_good(reads, agreed, s));
            assert forall|i: int| 0 <= i < writes.len() implies (#[trigger] writes[i]).disk != d by {
                assert(which.contains(which[i]));
                assert(slots[which[i]] is None);
                assert(dist[which[i]] != dist[s]);
            }
            assert(after[d] == reads[d]);
        } else {
            assert(restored[s] is Some && dist[s] < reads.len());
            assert(which.contains(s));
            let i = choose|i: int| 0 <= i < which.len() && which[i] == s;
            assert(writes[i].disk == dist[s]);
            assert(storage::same_write(writes[i].meta@, agreed));
        }
        assert(shard_good(after, agreed, s));
    }
    lemma_all_present(now, total);
}

/// Exactly the damaged shards that can be restored and have a disk are written.
pub proof fn lemma_to_write(
    slots: Seq<Option<Seq<u8>>>,
    restored: Seq<Option<Seq<u8>>>,
    distribution: Seq<usize>,
    disks: int,
    n: nat,
)
    ensures
        forall|s: int| #[trigger]
            to_write(slots, restored, distribution, disks, n).contains(s) <==> 0 <= s < n
                && slots[s] is None && restored[s] is Some && distribution[s] < disks,
    decreases n,
{
    if n > 0 {
        let m = (n - 1) as nat;
        lemma_to_write(slots, restored, distribution, disks, m);
        let before = to_write(slots, restored, distribution, disks, m);
        let after = to_write(slots, restored, distribution, disks, n);
        assert forall|s: int| #[trigger] after.contains(s) <==> 0 <= s < n && slots[s] is None
            && restored[s] is Some && distribution[s] < disks by {
            if after.contains(s) {
                let k = choose|k: int| 0 <= k < after.len() && after[k] == s;
                if k < before.len() {
                    assert(before[k] == s);
                    assert(before.contains(s));
                }
            }
            if before.contains(s) {
                let k = choose|k: int| 0 <= k < before.len() && before[k] == s;
                assert(after[k] == s);
            }
            if s == n - 1 && slots[s] is None && restored[s] is Some && distribution[s] < disks {
                assert(after[before.len() as int] == s);
            }
        }
    }
}

} // verus!
