//! What holds of diagnoses and repairs.

use vstd::prelude::*;

use super::worker;
use super::worker::{HealPlan, ShardRead, ShardWrite};
use crate::digest;
use crate::erasure;
use crate::storage::{ObjectMeta, StorageError};

verus! {

/// Two lists of names and values hold the same texts in the same order.
pub open spec fn equal_pairs(a: Seq<(String, String)>, b: Seq<(String, String)>) -> bool {
    a.len() == b.len() && forall|k: int|
        #![trigger a[k]]
        #![trigger b[k]]
        0 <= k < a.len() ==> a[k].0@ == b[k].0@ && a[k].1@ == b[k].1@
}

/// Two metadata were left by one write: whatever tells one write of an object from another is
/// the same in both.
pub open spec fn of_one_write(a: ObjectMeta, b: ObjectMeta) -> bool {
    &&& a.size == b.size
    &&& a.etag@ == b.etag@
    &&& a.content_type@ == b.content_type@
    &&& a.created_at == b.created_at
    &&& a.version_id@ == b.version_id@
    &&& a.is_delete_marker == b.is_delete_marker
    &&& a.erasure.data == b.erasure.data
    &&& a.erasure.parity == b.erasure.parity
    &&& a.erasure.epoch_id == b.erasure.epoch_id
    &&& a.erasure.distribution@ == b.erasure.distribution@
}

/// A shard is unharmed: its bytes have the digest that stands beside them.
pub open spec fn unharmed(read: ShardRead) -> bool {
    digest::hex_chars(digest::sha256_digest(read.data@)) == read.meta.checksum@
}

/// A repair changes nothing that a reader of the object is told: beside each shard that is
/// written stands the agreed metadata, and only the number of the shard and the digest of its
/// bytes are its own. The shard goes to the disk that the agreed write gave it.
pub proof fn law_repair_keeps_the_metadata(
    reads: Seq<Option<ShardRead>>,
    agreed: ObjectMeta,
    total: nat,
    restored: Seq<Option<Seq<u8>>>,
    writes: Seq<ShardWrite>,
    i: int,
)
    requires
        total <= usize::MAX,
        worker::writes_restore(
            writes,
            worker::to_write(
                worker::good_slots(reads, agreed@, total),
                restored,
                agreed.erasure.distribution@,
                reads.len() as int,
                total,
            ),
            restored,
            agreed@,
        ),
        0 <= i < writes.len(),
    ensures
        ({
            let m = writes[i].meta;
            &&& m.size == agreed.size
            &&& m.etag@ == agreed.etag@
            &&& m.content_type@ == agreed.content_type@
            &&& m.created_at == agreed.created_at
            &&& m.version_id@ == agreed.version_id@
            &&& m.is_latest == agreed.is_latest
            &&& m.is_delete_marker == agreed.is_delete_marker
            &&& equal_pairs(m.user_metadata@, agreed.user_metadata@)
            &&& equal_pairs(m.tags@, agreed.tags@)
            &&& m.erasure.data == agreed.erasure.data
            &&& m.erasure.parity == agreed.erasure.parity
            &&& m.erasure.epoch_id == agreed.erasure.epoch_id
            &&& m.erasure.distribution@ == agreed.erasure.distribution@
            &&& m.erasure.volume_ids@.len() == agreed.erasure.volume_ids@.len()
            &&& forall|k: int|
                0 <= k < agreed.erasure.volume_ids@.len() ==> (
                #[trigger] m.erasure.volume_ids@[k])@ == agreed.erasure.volume_ids@[k]@
            &&& m.erasure.index < total
            &&& writes[i].disk == agreed.erasure.distribution@[m.erasure.index as int]
            &&& restored[m.erasure.index as int] == Some(writes[i].data@)
            &&& m.checksum@ == digest::hex_chars(digest::sha256_digest(writes[i].data@))
        }),
{
    let slots = worker::good_slots(reads, agreed@, total);
    let which = worker::to_write(
        slots,
        restored,
        agreed.erasure.distribution@,
        reads.len() as int,
        total,
    );
    worker::lemma_to_write(
        slots,
        restored,
        agreed.erasure.distribution@,
        reads.len() as int,
        total,
    );
    assert(which.contains(which[i]));
    let w = writes[i];
    let m = w.meta;
    assert(m@.user_metadata == agreed@.user_metadata);
    assert(m@.tags == agreed@.tags);
    assert(m@.erasure.volume_ids == agreed@.erasure.volume_ids);
    assert(m@.user_metadata.len() == m.user_metadata@.len());
    assert(m@.tags.len() == m.tags@.len());
    assert(m@.erasure.volume_ids.len() == m.erasure.volume_ids@.len());
    assert(agreed@.user_metadata.len() == agreed.user_metadata@.len());
    assert(agreed@.tags.len() == agreed.tags@.len());
    assert(agreed@.erasure.volume_ids.len() == agreed.erasure.volume_ids@.len());
    assert forall|k: int|
        #![trigger m.user_metadata@[k]]
        #![trigger agreed.user_metadata@[k]]
        0 <= k < m.user_metadata@.len() implies m.user_metadata@[k].0@
        == agreed.user_metadata@[k].0@ && m.user_metadata@[k].1@ == agreed.user_metadata@[k].1@ by {
        assert(m@.user_metadata[k] == agreed@.user_metadata[k]);
    }
    assert forall|k: int|
        #![trigger m.tags@[k]]
        #![trigger agreed.tags@[k]]
        0 <= k < m.tags@.len() implies m.tags@[k].0@ == agreed.tags@[k].0@ && m.tags@[k].1@
        == agreed.tags@[k].1@ by {
        assert(m@.tags[k] == agreed@.tags[k]);
    }
    assert forall|k: int| 0 <= k < agreed.erasure.volume_ids@.len() implies (
    #[trigger] m.erasure.volume_ids@[k])@ == agreed.erasure.volume_ids@[k]@ by {
        assert(m@.erasure.volume_ids[k] == agreed@.erasure.volume_ids[k]);
    }
}

/// A shard counts as there exactly where the disk that the agreed write gave it holds a shard
/// of that write whose bytes have the digest that stands beside them, and it is then taken as
/// it stands.
pub proof fn law_only_unharmed_shards_count(
    reads: Seq<Option<ShardRead>>,
    agreed: ObjectMeta,
    total: nat,
    s: int,
)
    requires
        0 <= s < total,
        s < agreed.erasure.distribution@.len(),
    ensures
        ({
            let disk = agreed.erasure.distribution@[s] as int;
            let slot = worker::good_slots(reads, agreed@, total)[s];
            &&& disk >= reads.len() ==> slot is None
            &&& disk < reads.len() && reads[disk] is None ==> slot is None
            &&& disk < reads.len() ==> (reads[disk] matches Some(r) ==> slot == (if of_one_write(
                r.meta,
                agreed,
            ) && unharmed(r) {
                Some(r.data@)
            } else {
                None
            }))
        }),
{
}

/// The disks that hold a shard of the same write as disk `i`.
pub open spec fn fellows(reads: Seq<Option<ShardRead>>, i: int, n: nat) -> Set<int> {
    Set::new(
        |k: int|
            0 <= k < n && reads[k] is Some && of_one_write(reads[i]->0.meta, reads[k]->0.meta),
    )
}

/// A write has as many votes as there are disks that hold a shard of it.
pub proof fn law_votes_are_disks(reads: Seq<Option<ShardRead>>, i: int)
    requires
        0 <= i < reads.len(),
        reads[i] is Some,
    ensures
        fellows(reads, i, reads.len()).finite(),
        worker::votes(reads, i) == fellows(reads, i, reads.len()).len(),
        fellows(reads, i, reads.len()).contains(i),
{
    lemma_votes(reads, i, reads.len());
}

proof fn lemma_votes(reads: Seq<Option<ShardRead>>, i: int, n: nat)
    requires
        0 <= i < reads.len(),
        reads[i] is Some,
        n <= reads.len(),
    ensures
        fellows(reads, i, n).finite(),
        worker::tally(reads, reads[i]->0.meta@, n) == fellows(reads, i, n).len(),
    decreases n,
{
    if n == 0 {
        assert(fellows(reads, i, 0) =~= Set::empty());
    } else {
        let m = (n - 1) as nat;
        lemma_votes(reads, i, m);
        let before = fellows(reads, i, m);
        let now = fellows(reads, i, n);
        if reads[n - 1] is Some && of_one_write(reads[i]->0.meta, reads[n - 1]->0.meta) {
            assert(now =~= before.insert(n - 1));
        } else {
            assert(now =~= before);
        }
    }
}

/// The write that is agreed on is one that some disk holds, and no write is found on more
/// disks.
pub proof fn law_agreed_write_is_the_most_common(reads: Seq<Option<ShardRead>>, i: int)
    requires
        0 <= i < reads.len(),
        reads[i] is Some,
    ensures
        worker::leader(reads, reads.len()) matches Some(b) && 0 <= b < reads.len() && reads[b]
            is Some && fellows(reads, i, reads.len()).len() <= fellows(
            reads,
            b,
            reads.len(),
        ).len(),
{
    worker::law_leader_has_most_votes(reads, reads.len());
    let b = worker::leader(reads, reads.len())->0;
    law_votes_are_disks(reads, i);
    law_votes_are_disks(reads, b);
}

/// A damaged shard is written back wherever it could be restored and its disk is there, and
/// no other shard is touched.
pub proof fn law_exactly_the_damaged_shards_are_written(
    reads: Seq<Option<ShardRead>>,
    agreed: ObjectMeta,
    total: nat,
    restored: Seq<Option<Seq<u8>>>,
    writes: Seq<ShardWrite>,
    s: int,
)
    requires
        total <= usize::MAX,
        0 <= s < total,
        s < agreed.erasure.distribution@.len(),
        restored.len() == total,
        worker::writes_restore(
            writes,
            worker::to_write(
                worker::good_slots(reads, agreed@, total),
                restored,
                agreed.erasure.distribution@,
                reads.len() as int,
                total,
            ),
            restored,
            agreed@,
        ),
    ensures
        ({
            let disk = agreed.erasure.distribution@[s] as int;
            let there = disk < reads.len() && (reads[disk] matches Some(r) && of_one_write(
                r.meta,
                agreed,
            ) && unharmed(r));
            (exists|i: int| 0 <= i < writes.len() && (#[trigger] writes[i]).meta.erasure.index == s)
                <==> disk < reads.len() && !there && restored[s] is Some
        }),
{
    let slots = worker::good_slots(reads, agreed@, total);
    let dist = agreed.erasure.distribution@;
    let which = worker::to_write(slots, restored, dist, reads.len() as int, total);
    worker::lemma_to_write(slots, restored, dist, reads.len() as int, total);
    law_only_unharmed_shards_count(reads, agreed, total, s);
    assert forall|i: int| 0 <= i < writes.len() implies (#[trigger] writes[i]).meta.erasure.index
        == which[i] by {
        assert(which.contains(which[i]));
        assert(writes[i].meta@.erasure.index == which[i] as usize);
    }
    if which.contains(s) {
        let i = choose|i: int| 0 <= i < which.len() && which[i] == s;
        assert(writes[i].meta.erasure.index == s);
    }
    if exists|i: int| 0 <= i < writes.len() && (#[trigger] writes[i]).meta.erasure.index == s {
        let i = choose|i: int|
            0 <= i < writes.len() && (#[trigger] writes[i]).meta.erasure.index == s;
        assert(which[i] == s);
        assert(which.contains(s));
    }
}

// -------------------------------------------------------------------- answers

/// Shard `s` of the agreed write is there: the disk that the write gave it holds a shard of the
/// same write, and its bytes have the digest that stands beside them.
pub open spec fn shard_is_there(reads: Seq<Option<ShardRead>>, agreed: ObjectMeta, s: int) -> bool {
    &&& 0 <= s < agreed.erasure.distribution@.len()
    &&& agreed.erasure.distribution@[s] < reads.len()
    &&& reads[agreed.erasure.distribution@[s] as int] matches Some(r) && of_one_write(
        r.meta,
        agreed,
    ) && unharmed(r)
}

/// How many of the first `n` shards of the agreed write are there.
pub open spec fn shards_there(reads: Seq<Option<ShardRead>>, agreed: ObjectMeta, n: nat) -> nat
    decreases n,
{
    if n == 0 {
        0
    } else if shard_is_there(reads, agreed, n - 1) {
        shards_there(reads, agreed, (n - 1) as nat) + 1
    } else {
        shards_there(reads, agreed, (n - 1) as nat)
    }
}

proof fn lemma_shards_there(reads: Seq<Option<ShardRead>>, agreed: ObjectMeta, total: nat, n: nat)
    requires
        n <= total,
    ensures
        erasure::present(worker::good_slots(reads, agreed@, total), n) == shards_there(
            reads,
            agreed,
            n,
        ),
        shards_there(reads, agreed, n) <= n,
    decreases n,
{
    if n > 0 {
        lemma_shards_there(reads, agreed, total, (n - 1) as nat);
        if n - 1 < agreed.erasure.distribution@.len() {
            law_only_unharmed_shards_count(reads, agreed, total, n - 1);
        }
    }
}

/// What is done for an object follows from what its disks hold: nothing can be said of an object
/// of which no disk holds anything, or on which too few agree; one whose shards are all there is
/// healthy; one of which fewer are there than it has data shards is lost; and any other is
/// repaired.
pub proof fn law_plan_follows_from_the_shards(
    reads: &Vec<Option<ShardRead>>,
    r: Result<HealPlan, StorageError>,
    f: int,
    b: int,
)
    requires
        call_ensures(worker::heal_object, (reads,), r),
        0 <= f < reads@.len(),
        reads@[f] is Some,
        forall|x: int| 0 <= x < f ==> (#[trigger] reads@[x]) is None,
        worker::leader(reads@, reads@.len()) == Some(b),
    ensures
        ({
            let data = reads@[f]->0.meta.erasure.data;
            let parity = reads@[f]->0.meta.erasure.parity;
            let there = shards_there(reads@, reads@[b]->0.meta, (data + parity) as nat);
            let agree = fellows(reads@, b, reads@.len()).len() >= data;
            &&& !agree ==> r == Err::<HealPlan, StorageError>(StorageError::ReadQuorum)
            &&& agree && there == data + parity <==> (r matches Ok(p) && p is Healthy)
            &&& agree && there < data <==> (r matches Ok(p) && p is Unrecoverable)
            &&& (r matches Ok(p) && p is Repair) ==> agree && data <= there < data + parity
            &&& agree && parity == 0 && there != data + parity ==> (r matches Ok(p)
                && p is Unrecoverable)
        }),
{
    lemma_first_read(reads@, 0, f);
    worker::law_leader_has_most_votes(reads@, reads@.len());
    law_votes_are_disks(reads@, b);
    let total = (reads@[f]->0.meta.erasure.data + reads@[f]->0.meta.erasure.parity) as nat;
    lemma_shards_there(reads@, reads@[b]->0.meta, total, total);
}

proof fn lemma_first_read(reads: Seq<Option<ShardRead>>, i: int, f: int)
    requires
        0 <= i <= f < reads.len(),
        reads[f] is Some,
        forall|x: int| i <= x < f ==> (#[trigger] reads[x]) is None,
    ensures
        worker::first_read(reads, i) == Some(f),
    decreases f - i,
{
    if i < f {
        assert(reads[i] is None);
        lemma_first_read(reads, i + 1, f);
    }
}

/// A repair writes nothing but shards of the agreed write, to their own disks, with all that the
/// write says of the object: its names and values, its tags, and everything that tells it from
/// another.
pub proof fn law_repair_writes_the_agreed_object(
    reads: &Vec<Option<ShardRead>>,
    r: Result<HealPlan, StorageError>,
    writes: Vec<ShardWrite>,
    f: int,
    b: int,
    i: int,
)
    requires
        call_ensures(worker::heal_object, (reads,), r),
        0 <= f < reads@.len(),
        reads@[f] is Some,
        forall|x: int| 0 <= x < f ==> (#[trigger] reads@[x]) is None,
        worker::leader(reads@, reads@.len()) == Some(b),
        reads@[f]->0.meta.erasure.data + reads@[f]->0.meta.erasure.parity <= usize::MAX,
        r == Ok::<HealPlan, StorageError>(HealPlan::Repair(writes)),
        0 <= i < writes@.len(),
    ensures
        ({
            let m = writes@[i].meta;
            let agreed = reads@[b]->0.meta;
            &&& of_one_write(m, agreed)
            &&& m.is_latest == agreed.is_latest
            &&& equal_pairs(m.user_metadata@, agreed.user_metadata@)
            &&& equal_pairs(m.tags@, agreed.tags@)
            &&& unharmed(ShardRead { data: writes@[i].data, meta: m })
            &&& writes@[i].disk == agreed.erasure.distribution@[m.erasure.index as int]
        }),
{
    lemma_first_read(reads@, 0, f);
    worker::law_leader_has_most_votes(reads@, reads@.len());
    let data = reads@[f]->0.meta.erasure.data as nat;
    let parity = reads@[f]->0.meta.erasure.parity as nat;
    let total = data + parity;
    let agreed = reads@[b]->0.meta;
    let slots = worker::good_slots(reads@, agreed@, total);
    law_repair_keeps_the_metadata(
        reads@,
        agreed,
        total,
        worker::restored_slots(data, parity, slots),
        writes@,
        i,
    );
}

/// An object needs healing exactly where one of its shards is not there; one that is gone needs
/// none.
pub proof fn law_healing_is_needed_for_a_lost_shard(
    meta: &Option<ObjectMeta>,
    reads: &Vec<Option<ShardRead>>,
    r: bool,
)
    requires
        call_ensures(worker::object_needs_healing, (meta, reads), r),
    ensures
        *meta is None ==> !r,
        *meta matches Some(m) ==> (r <==> shards_there(
            reads@,
            m,
            (m.erasure.data + m.erasure.parity) as nat,
        ) < m.erasure.data + m.erasure.parity),
{
    if let Some(m) = *meta {
        let total = (m.erasure.data + m.erasure.parity) as nat;
        lemma_shards_there(reads@, m, total, total);
    }
}

/// Not all shards are there exactly where one is missing.
pub proof fn law_one_lost_shard_is_missed(
    reads: Seq<Option<ShardRead>>,
    agreed: ObjectMeta,
    n: nat,
    s: int,
)
    requires
        0 <= s < n,
    ensures
        !shard_is_there(reads, agreed, s) ==> shards_there(reads, agreed, n) < n,
        shards_there(reads, agreed, n) == n ==> shard_is_there(reads, agreed, s),
    decreases n,
{
    lemma_shards_there(reads, agreed, n, n);
    lemma_shards_there(reads, agreed, n, (n - 1) as nat);
    if s < n - 1 {
        law_one_lost_shard_is_missed(reads, agreed, (n - 1) as nat, s);
    }
}

/// A shard is sound exactly where it belongs to the agreed write and its bytes have the digest
/// that stands beside them.
pub proof fn law_sound_shard_is_unharmed(read: &ShardRead, agreed: &ObjectMeta, r: bool)
    requires
        call_ensures(worker::shard_intact, (read, agreed), r),
    ensures
        r <==> of_one_write(read.meta, *agreed) && unharmed(*read),
{
}

} // verus!
