//! Placement of an object's shards on volumes.
//!
//! Every node contributes one volume before any node contributes a second one.
//! Nodes, and the volumes of a node, are ranked by a hash of the object's name,
//! so that objects spread over the cluster and every node computes the same plan.

use vstd::prelude::*;
use vstd::string::*;

use crate::digest;
use crate::order;
use crate::text;

verus! {

/// A volume that can carry a shard.
#[derive(Debug, Clone, PartialEq, Eq)]
pub struct PlacementVolume {
    pub backend_index: usize,
    pub node_id: String,
    pub volume_id: String,
}

/// One shard of an object, bound to the volume that carries it.
#[derive(Debug, Clone, PartialEq, Eq)]
pub struct PlacementShard {
    pub index: usize,
    pub backend_index: usize,
    pub node_id: String,
    pub volume_id: String,
}

/// Where the shards of one object go.
#[derive(Debug, Clone, PartialEq, Eq)]
pub struct PlacementRecord {
    pub epoch_id: u64,
    pub cluster_id: String,
    pub data: usize,
    pub parity: usize,
    pub shards: Vec<PlacementShard>,
}

/// Plans shard placement over a fixed list of volumes.
#[derive(Debug, Clone)]
pub struct PlacementPlanner {
    epoch_id: u64,
    cluster_id: String,
    disks: Vec<PlacementVolume>,
}

/// The text that stands for an object in one epoch of one cluster.
pub open spec fn key_material(
    epoch_id: u64,
    cluster_id: Seq<char>,
    bucket: Seq<char>,
    key: Seq<char>,
) -> Seq<char> {
    text::decimal(epoch_id as nat) + ":"@ + cluster_id + ":"@ + bucket + "/"@ + key
}

/// The rank key of a node for an object.
pub open spec fn node_rank_key(material: Seq<char>, node: Seq<char>) -> Seq<char> {
    digest::text_hash("node:"@ + material + ":"@ + node)
}

/// The rank key of a volume for an object.
pub open spec fn disk_rank_key(material: Seq<char>, volume: Seq<char>) -> Seq<char> {
    digest::text_hash("disk:"@ + material + ":"@ + volume)
}

/// The node of each volume.
pub open spec fn node_ids(disks: Seq<PlacementVolume>) -> Seq<Seq<char>> {
    Seq::new(disks.len(), |i: int| disks[i].node_id@)
}

/// The nodes that own a volume, each once, in ascending order.
pub open spec fn nodes_of(disks: Seq<PlacementVolume>) -> Seq<Seq<char>> {
    order::distinct_sorted(node_ids(disks))
}

/// The integers `0..n`.
pub open spec fn upto(n: nat) -> Seq<int> {
    Seq::new(n, |i: int| i)
}

/// Positions in `nodes_of(disks)`, best ranked node first.
pub open spec fn node_order(disks: Seq<PlacementVolume>, material: Seq<char>) -> Seq<int> {
    let nodes = nodes_of(disks);
    order::stable_sorted(
        Seq::new(nodes.len(), |i: int| node_rank_key(material, nodes[i])),
        upto(nodes.len()),
    )
}

/// The rank key of every volume.
pub open spec fn disk_keys(disks: Seq<PlacementVolume>, material: Seq<char>) -> Seq<Seq<char>> {
    Seq::new(disks.len(), |i: int| disk_rank_key(material, disks[i].volume_id@))
}

/// Positions below `n` of the volumes that a node owns, in list order.
pub open spec fn owned_by(disks: Seq<PlacementVolume>, node: Seq<char>, n: nat) -> Seq<int>
    decreases n,
{
    if n == 0 {
        Seq::empty()
    } else if disks[n - 1].node_id@ == node {
        owned_by(disks, node, (n - 1) as nat).push(n - 1)
    } else {
        owned_by(disks, node, (n - 1) as nat)
    }
}

/// Positions of a node's volumes, best ranked volume first.
pub open spec fn ranked_disks(
    disks: Seq<PlacementVolume>,
    material: Seq<char>,
    node: Seq<char>,
) -> Seq<int> {
    order::stable_sorted(disk_keys(disks, material), owned_by(disks, node, disks.len()))
}

/// For each node in rank order, its ranked volumes.
pub open spec fn ranked_lists(disks: Seq<PlacementVolume>, material: Seq<char>) -> Seq<Seq<int>> {
    let ranks = node_order(disks, material);
    Seq::new(
        ranks.len(),
        |k: int| ranked_disks(disks, material, nodes_of(disks)[ranks[k]]),
    )
}

/// What the first `n` lists contribute to one round: their item at `round`.
pub open spec fn round_items(lists: Seq<Seq<int>>, round: nat, n: nat) -> Seq<int>
    decreases n,
{
    if n == 0 {
        Seq::empty()
    } else if round < lists[n - 1].len() {
        round_items(lists, round, (n - 1) as nat).push(lists[n - 1][round as int])
    } else {
        round_items(lists, round, (n - 1) as nat)
    }
}

/// The first `rounds` rounds, one after the other.
pub open spec fn round_robin(lists: Seq<Seq<int>>, rounds: nat) -> Seq<int>
    decreases rounds,
{
    if rounds == 0 {
        Seq::empty()
    } else {
        round_robin(lists, (rounds - 1) as nat) + round_items(
            lists,
            (rounds - 1) as nat,
            lists.len(),
        )
    }
}

/// The positions of the volumes that carry the shards of an object, in shard order.
pub open spec fn chosen_disks(
    disks: Seq<PlacementVolume>,
    material: Seq<char>,
    total: nat,
) -> Seq<int> {
    round_robin(ranked_lists(disks, material), disks.len()).take(total as int)
}

/// The shard bound to volume `p`.
pub open spec fn is_shard_on(shard: PlacementShard, index: int, disk: PlacementVolume) -> bool {
    &&& shard.index == index
    &&& shard.backend_index == disk.backend_index
    &&& shard.node_id@ == disk.node_id@
    &&& shard.volume_id@ == disk.volume_id@
}

proof fn lemma_owned_by(disks: Seq<PlacementVolume>, node: Seq<char>, n: nat)
    requires
        n <= disks.len(),
    ensures
        owned_by(disks, node, n).no_duplicates(),
        owned_by(disks, node, n).len() <= n,
        forall|p: int| #[trigger]
            owned_by(disks, node, n).contains(p) <==> 0 <= p < n && disks[p].node_id@ == node,
    decreases n,
{
    if n > 0 {
        let m = (n - 1) as nat;
        lemma_owned_by(disks, node, m);
        let before = owned_by(disks, node, m);
        let after = owned_by(disks, node, n);
        if disks[n - 1].node_id@ == node {
            assert forall|p: int| #[trigger] after.contains(p) <==> 0 <= p < n
                && disks[p].node_id@ == node by {
                if after.contains(p) {
                    let i = choose|i: int| 0 <= i < after.len() && after[i] == p;
                    if i < before.len() {
                        assert(before[i] == p);
                        assert(before.contains(p));
                    }
                }
                if 0 <= p < n && disks[p].node_id@ == node {
                    if p < m {
                        assert(before.contains(p));
                        let i = choose|i: int| 0 <= i < before.len() && before[i] == p;
                        assert(after[i] == p);
                    } else {
                        assert(after[before.len() as int] == p);
                    }
                }
            }
            assert(!before.contains(n - 1));
            assert forall|i: int, j: int|
                0 <= i < after.len() && 0 <= j < after.len() && i != j implies after[i]
                != after[j] by {
                if i < before.len() {
                    assert(before.contains(before[i]));
                }
                if j < before.len() {
                    assert(before.contains(before[j]));
                }
            }
        }
    }
}

/// Some list holds `p`.
pub open spec fn listed(lists: Seq<Seq<int>>, p: int) -> bool {
    exists|k: int| 0 <= k < lists.len() && #[trigger] lists[k].contains(p)
}

/// The lists partition the volumes: each volume stands in exactly one list, once.
pub open spec fn partition(lists: Seq<Seq<int>>, n: nat) -> bool {
    &&& forall|k: int| 0 <= k < lists.len() ==> (#[trigger] lists[k]).no_duplicates()
    &&& forall|k: int| 0 <= k < lists.len() ==> 1 <= (#[trigger] lists[k]).len() <= n
    &&& forall|k: int, p: int| #[trigger]
        lists[k].contains(p) && 0 <= k < lists.len() ==> 0 <= p < n
    &&& forall|k: int, l: int, p: int|
        #![trigger lists[k].contains(p), lists[l].contains(p)]
        0 <= k < lists.len() && 0 <= l < lists.len() && lists[k].contains(p)
            && lists[l].contains(p) ==> k == l
    &&& forall|p: int| 0 <= p < n ==> #[trigger] listed(lists, p)
}

proof fn lemma_upto(n: nat)
    ensures
        upto(n).no_duplicates(),
        forall|i: int| #[trigger] upto(n).contains(i) <==> 0 <= i < n,
{
    assert forall|i: int| #[trigger] upto(n).contains(i) <==> 0 <= i < n by {
        if 0 <= i < n {
            assert(upto(n)[i] == i);
        }
    }
}

/// Every node with a volume is ranked, once.
proof fn lemma_node_order(disks: Seq<PlacementVolume>, material: Seq<char>)
    ensures
        node_order(disks, material).no_duplicates(),
        node_order(disks, material).len() == nodes_of(disks).len(),
        forall|i: int| #[trigger]
            node_order(disks, material).contains(i) <==> 0 <= i < nodes_of(disks).len(),
        forall|k: int|
            0 <= k < node_order(disks, material).len() ==> 0
                <= #[trigger] node_order(disks, material)[k] < nodes_of(disks).len(),
{
    let nodes = nodes_of(disks);
    let keys = Seq::new(nodes.len(), |i: int| node_rank_key(material, nodes[i]));
    lemma_upto(nodes.len());
    order::lemma_sorted_same_items(keys, upto(nodes.len()));
    assert forall|k: int| 0 <= k < node_order(disks, material).len() implies 0
        <= #[trigger] node_order(disks, material)[k] < nodes.len() by {
        assert(node_order(disks, material).contains(node_order(disks, material)[k]));
    }
}

proof fn lemma_ranked_lists(disks: Seq<PlacementVolume>, material: Seq<char>)
    ensures
        partition(ranked_lists(disks, material), disks.len()),
{
    let nodes = nodes_of(disks);
    let ranks = node_order(disks, material);
    let lists = ranked_lists(disks, material);
    let keys = disk_keys(disks, material);
    order::lemma_distinct_sorted(node_ids(disks));
    order::lemma_ascending_distinct(nodes);
    lemma_node_order(disks, material);
    assert forall|k: int, p: int| 0 <= k < lists.len() implies (#[trigger] lists[k].contains(p)
        <==> 0 <= p < disks.len() && disks[p].node_id@ == nodes[ranks[k]]) by {
        lemma_owned_by(disks, nodes[ranks[k]], disks.len());
        order::lemma_sorted_same_items(keys, owned_by(disks, nodes[ranks[k]], disks.len()));
    }
    assert forall|k: int| 0 <= k < lists.len() implies (#[trigger] lists[k]).no_duplicates() && 1
        <= lists[k].len() <= disks.len() by {
        lemma_owned_by(disks, nodes[ranks[k]], disks.len());
        order::lemma_sorted_same_items(keys, owned_by(disks, nodes[ranks[k]], disks.len()));
        assert(nodes.contains(nodes[ranks[k]]));
        assert(node_ids(disks).contains(nodes[ranks[k]]));
        let p = choose|p: int| 0 <= p < disks.len() && node_ids(disks)[p] == nodes[ranks[k]];
        assert(lists[k].contains(p));
    }
    assert forall|p: int| 0 <= p < disks.len() implies #[trigger] listed(lists, p) by {
        assert(node_ids(disks)[p] == disks[p].node_id@);
        assert(node_ids(disks).contains(disks[p].node_id@));
        assert(nodes.contains(disks[p].node_id@));
        let i = choose|i: int| 0 <= i < nodes.len() && nodes[i] == disks[p].node_id@;
        assert(ranks.contains(i));
        let k = choose|k: int| 0 <= k < ranks.len() && ranks[k] == i;
        assert(lists[k].contains(p));
    }
}

/// What a round holds: the items at that round, from the first `n` lists.
proof fn lemma_round_items(lists: Seq<Seq<int>>, round: nat, n: nat, size: nat)
    requires
        partition(lists, size),
        n <= lists.len(),
    ensures
        round_items(lists, round, n).no_duplicates(),
        round_items(lists, round, n).len() <= n,
        forall|p: int| #[trigger]
            round_items(lists, round, n).contains(p) <==> exists|k: int|
                0 <= k < n && round < #[trigger] lists[k].len() && lists[k][round as int] == p,
    decreases n,
{
    if n > 0 {
        let m = (n - 1) as nat;
        lemma_round_items(lists, round, m, size);
        let before = round_items(lists, round, m);
        let after = round_items(lists, round, n);
        if round < lists[n - 1].len() {
            let x = lists[n - 1][round as int];
            assert(lists[n - 1].contains(x));
            if before.contains(x) {
                let k = choose|k: int|
                    0 <= k < m && round < #[trigger] lists[k].len() && lists[k][round as int] == x;
                assert(lists[k].contains(x));
                assert(false);
            }
            assert forall|p: int| #[trigger] after.contains(p) <==> exists|k: int|
                0 <= k < n && round < #[trigger] lists[k].len() && lists[k][round as int] == p by {
                if after.contains(p) {
                    let i = choose|i: int| 0 <= i < after.len() && after[i] == p;
                    if i < before.len() {
                        assert(before[i] == p);
                        assert(before.contains(p));
                    } else {
                        assert(lists[n - 1][round as int] == p);
                    }
                }
                if exists|k: int|
                    0 <= k < n && round < #[trigger] lists[k].len() && lists[k][round as int]
                        == p {
                    let k = choose|k: int|
                        0 <= k < n && round < #[trigger] lists[k].len() && lists[k][round as int]
                            == p;
                    if k < m {
                        assert(before.contains(p));
                        let i = choose|i: int| 0 <= i < before.len() && before[i] == p;
                        assert(after[i] == p);
                    } else {
                        assert(after[before.len() as int] == p);
                    }
                }
            }
            assert forall|i: int, j: int|
                0 <= i < after.len() && 0 <= j < after.len() && i != j implies after[i]
                != after[j] by {
                if i < before.len() {
                    assert(before.contains(before[i]));
                }
                if j < before.len() {
                    assert(before.contains(before[j]));
                }
            }
        }
    }
}

/// What the rounds hold together: the leading items of every list, each once.
proof fn lemma_round_robin(lists: Seq<Seq<int>>, rounds: nat, size: nat)
    requires
        partition(lists, size),
    ensures
        round_robin(lists, rounds).no_duplicates(),
        forall|p: int| #[trigger]
            round_robin(lists, rounds).contains(p) <==> exists|k: int, r: int|
                0 <= k < lists.len() && 0 <= r < rounds && r < lists[k].len()
                    && #[trigger] lists[k][r] == p,
    decreases rounds,
{
    if rounds > 0 {
        let m = (rounds - 1) as nat;
        lemma_round_robin(lists, m, size);
        lemma_round_items(lists, m, lists.len(), size);
        let before = round_robin(lists, m);
        let row = round_items(lists, m, lists.len());
        let after = round_robin(lists, rounds);
        assert forall|p: int| before.contains(p) && row.contains(p) implies false by {
            let (k, r) = choose|k: int, r: int|
                0 <= k < lists.len() && 0 <= r < m && r < lists[k].len() && #[trigger] lists[k][r]
                    == p;
            let l = choose|l: int|
                0 <= l < lists.len() && m < #[trigger] lists[l].len() && lists[l][m as int] == p;
            assert(lists[k].contains(p));
            assert(lists[l].contains(p));
            assert(k == l);
            assert(lists[k].no_duplicates());
        }
        assert forall|i: int, j: int|
            0 <= i < after.len() && 0 <= j < after.len() && i != j implies after[i] != after[j] by {
            if i < before.len() && j >= before.len() {
                assert(before.contains(after[i]));
                assert(row[j - before.len()] == after[j]);
                assert(row.contains(after[j]));
            }
            if j < before.len() && i >= before.len() {
                assert(before.contains(after[j]));
                assert(row[i - before.len()] == after[i]);
                assert(row.contains(after[i]));
            }
            if i >= before.len() && j >= before.len() {
                assert(row[i - before.len()] == after[i]);
                assert(row[j - before.len()] == after[j]);
            }
        }
        assert forall|p: int| #[trigger] after.contains(p) <==> exists|k: int, r: int|
            0 <= k < lists.len() && 0 <= r < rounds && r < lists[k].len() && #[trigger] lists[k][r]
                == p by {
            if after.contains(p) {
                let i = choose|i: int| 0 <= i < after.len() && after[i] == p;
                if i < before.len() {
                    assert(before[i] == p);
                    assert(before.contains(p));
                } else {
                    assert(row[i - before.len()] == p);
                    assert(row.contains(p));
                    let l = choose|l: int|
                        0 <= l < lists.len() && m < #[trigger] lists[l].len() && lists[l][m as int]
                            == p;
                    assert(lists[l][m as int] == p);
                }
            }
            if exists|k: int, r: int|
                0 <= k < lists.len() && 0 <= r < rounds && r < lists[k].len()
                    && #[trigger] lists[k][r] == p {
                let (k, r) = choose|k: int, r: int|
                    0 <= k < lists.len() && 0 <= r < rounds && r < lists[k].len()
                        && #[trigger] lists[k][r] == p;
                if r < m {
                    assert(before.contains(p));
                    let i = choose|i: int| 0 <= i < before.len() && before[i] == p;
                    assert(after[i] == p);
                } else {
                    assert(row.contains(p));
                    let i = choose|i: int| 0 <= i < row.len() && row[i] == p;
                    assert(after[before.len() + i] == p);
                }
            }
        }
    }
}

proof fn lemma_enough(s: Seq<int>, n: nat)
    requires
        s.no_duplicates(),
        forall|p: int| #[trigger] s.contains(p) <==> 0 <= p < n,
    ensures
        s.len() == n,
{
    lemma_upto(n);
    s.unique_seq_to_set();
    upto(n).unique_seq_to_set();
    assert(s.to_set() =~= upto(n).to_set()) by {
        assert forall|p: int| s.to_set().contains(p) <==> upto(n).to_set().contains(p) by {
            assert(s.contains(p) <==> upto(n).contains(p));
        }
    }
}

/// All rounds together visit every volume exactly once.
proof fn lemma_rounds_cover(lists: Seq<Seq<int>>, n: nat)
    requires
        partition(lists, n),
    ensures
        round_robin(lists, n).len() == n,
        round_robin(lists, n).no_duplicates(),
        forall|p: int| #[trigger] round_robin(lists, n).contains(p) <==> 0 <= p < n,
{
    lemma_round_robin(lists, n, n);
    let all = round_robin(lists, n);
    assert forall|p: int| #[trigger] all.contains(p) <==> 0 <= p < n by {
        if all.contains(p) {
            let (k, r) = choose|k: int, r: int|
                0 <= k < lists.len() && 0 <= r < n && r < lists[k].len() && #[trigger] lists[k][r]
                    == p;
            assert(lists[k].contains(p));
        }
        if 0 <= p < n {
            assert(listed(lists, p));
            let k = choose|k: int| 0 <= k < lists.len() && #[trigger] lists[k].contains(p);
            let r = choose|r: int| 0 <= r < lists[k].len() && lists[k][r] == p;
            assert(lists[k][r] == p);
        }
    }
    lemma_enough(all, n);
}

/// More rounds only append.
proof fn lemma_rounds_prefix(lists: Seq<Seq<int>>, a: nat, b: nat)
    requires
        a <= b,
    ensures
        round_robin(lists, a).len() <= round_robin(lists, b).len(),
        round_robin(lists, b).take(round_robin(lists, a).len() as int) == round_robin(lists, a),
    decreases b,
{
    if a < b {
        lemma_rounds_prefix(lists, a, (b - 1) as nat);
        let x = round_robin(lists, a);
        let y = round_robin(lists, (b - 1) as nat);
        assert(round_robin(lists, b).take(x.len() as int) =~= y.take(x.len() as int));
    } else {
        assert(round_robin(lists, b).take(round_robin(lists, a).len() as int) =~= round_robin(
            lists,
            a,
        ));
    }
}

/// The leading lists of a round are a prefix of the round.
proof fn lemma_round_prefix(lists: Seq<Seq<int>>, round: nat, a: nat, b: nat)
    requires
        a <= b,
    ensures
        round_items(lists, round, a).len() <= round_items(lists, round, b).len(),
        round_items(lists, round, b).take(round_items(lists, round, a).len() as int) == round_items(
            lists,
            round,
            a,
        ),
    decreases b,
{
    if a < b {
        lemma_round_prefix(lists, round, a, (b - 1) as nat);
        let x = round_items(lists, round, a);
        let y = round_items(lists, round, (b - 1) as nat);
        assert(round_items(lists, round, b).take(x.len() as int) =~= y.take(x.len() as int));
    } else {
        assert(round_items(lists, round, b).take(round_items(lists, round, a).len() as int)
            =~= round_items(lists, round, a));
    }
}

/// The record is what the planner plans for an object with so many data and parity shards.
pub open spec fn is_plan(
    record: PlacementRecord,
    planner: PlacementPlanner,
    bucket: Seq<char>,
    key: Seq<char>,
    data: usize,
    parity: usize,
) -> bool {
    let chosen = chosen_disks(
        planner.volumes(),
        planner.material(bucket, key),
        (data + parity) as nat,
    );
    &&& record.epoch_id == planner.epoch()
    &&& record.cluster_id@ == planner.cluster()
    &&& record.data == data
    &&& record.parity == parity
    &&& record.shards@.len() == data + parity
    &&& chosen.len() == data + parity
    &&& forall|i: int|
        #![trigger record.shards@[i]]
        0 <= i < record.shards@.len() ==> 0 <= chosen[i] < planner.volumes().len() && is_shard_on(
            record.shards@[i],
            i,
            planner.volumes()[chosen[i]],
        )
}

impl PlacementPlanner {
    /// The epoch that the planner plans for.
    pub closed spec fn epoch(&self) -> u64 {
        self.epoch_id
    }

    /// The cluster that the planner plans for.
    pub closed spec fn cluster(&self) -> Seq<char> {
        self.cluster_id@
    }

    /// The volumes that the planner chooses from.
    pub closed spec fn volumes(&self) -> Seq<PlacementVolume> {
        self.disks@
    }

    /// The text that stands for an object under this planner.
    pub open spec fn material(&self, bucket: Seq<char>, key: Seq<char>) -> Seq<char> {
        key_material(self.epoch(), self.cluster(), bucket, key)
    }

    /// A planner over the given volumes.
    pub fn new(epoch_id: u64, cluster_id: &str, disks: Vec<PlacementVolume>) -> (r: Self)
        ensures
            r.epoch() == epoch_id,
            r.cluster() == cluster_id@,
            r.volumes() == disks@,
    {
        PlacementPlanner { epoch_id, cluster_id: cluster_id.to_owned(), disks }
    }

    /// The volumes that the planner chooses from.
    pub fn disks(&self) -> (r: &[PlacementVolume])
        ensures
            r@ == self.volumes(),
    {
        self.disks.as_slice()
    }

    /// Plans the shards of an object: `data + parity` of them, each on a volume
    /// of its own.
    pub fn plan(&self, bucket: &str, key: &str, data: usize, parity: usize) -> (r: Result<
        PlacementRecord,
        String,
    >)
        requires
            data + parity <= usize::MAX,
        ensures
            r is Ok <==> data > 0 && data + parity <= self.volumes().len(),
            r matches Ok(record) ==> is_plan(record, *self, bucket@, key@, data, parity),
            r matches Err(e) ==> e@ == (if data == 0 {
                "data shards must be >= 1"@
            } else {
                "need "@ + text::decimal((data + parity) as nat)
                    + " disks for placement, only "@ + text::decimal(self.volumes().len())
                    + " available"@
            }),
    {
        if data == 0 {
            return Err("data shards must be >= 1".to_owned());
        }
        let total: usize = data + parity;
        if total > self.disks.len() {
            let mut message = "need ".to_owned();
            message.append(text::decimal_u64(total as u64).as_str());
            message.append(" disks for placement, only ");
            message.append(text::decimal_u64(self.disks.len() as u64).as_str());
            message.append(" available");
            return Err(message);
        }
        let material = key_material_text(self.epoch_id, self.cluster_id.as_str(), bucket, key);
        let lists = rank_volumes(&self.disks, material.as_str());
        let chosen = pick_round_robin(&lists, total, self.disks.len(), Ghost(material@), Ghost(self.disks@));
        let mut shards: Vec<PlacementShard> = Vec::new();
        let ghost goal = chosen_disks(self.disks@, material@, total as nat);
        while shards.len() < chosen.len()
            invariant
                shards@.len() <= chosen@.len(),
                chosen@.len() == total,
                goal.len() == total,
                order::as_ints(chosen@) == goal,
                forall|i: int| 0 <= i < goal.len() ==> 0 <= #[trigger] goal[i] < self.disks@.len(),
                forall|i: int|
                    #![trigger shards@[i]]
                    0 <= i < shards@.len() ==> is_shard_on(shards@[i], i, self.disks@[goal[i]]),
            decreases chosen@.len() - shards@.len(),
        {
            let index: usize = shards.len();
            let p: usize = chosen[index];
            assert(goal[index as int] == p as int);
            let disk = &self.disks[p];
            shards.push(
                PlacementShard {
                    index,
                    backend_index: disk.backend_index,
                    node_id: disk.node_id.clone(),
                    volume_id: disk.volume_id.clone(),
                },
            );
        }
        Ok(
            PlacementRecord {
                epoch_id: self.epoch_id,
                cluster_id: self.cluster_id.clone(),
                data,
                parity,
                shards,
            },
        )
    }
}

/// The text that stands for an object.
fn key_material_text(epoch_id: u64, cluster_id: &str, bucket: &str, key: &str) -> (r: String)
    ensures
        r@ == key_material(epoch_id, cluster_id@, bucket@, key@),
{
    let mut out = text::decimal_u64(epoch_id);
    out.append(":");
    out.append(cluster_id);
    out.append(":");
    out.append(bucket);
    out.append("/");
    out.append(key);
    out
}

/// The rank key of a node or a volume, by its kind.
fn rank_key(kind: &str, material: &str, name: &str) -> (r: String)
    ensures
        r@ == digest::text_hash(kind@ + material@ + ":"@ + name@),
{
    let mut salt = kind.to_owned();
    salt.append(material);
    salt.append(":");
    salt.append(name);
    digest::hash_hex(salt.as_str())
}

/// The volumes of each node, both in rank order.
fn rank_volumes(disks: &Vec<PlacementVolume>, material: &str) -> (r: Vec<Vec<usize>>)
    ensures
        r@.len() == ranked_lists(disks@, material@).len(),
        forall|k: int|
            0 <= k < r@.len() ==> order::as_ints(#[trigger] r@[k]@) == ranked_lists(
                disks@,
                material@,
            )[k],
{
    let ghost ids = node_ids(disks@);
    let mut nodes: Vec<String> = Vec::new();
    let mut keys: Vec<String> = Vec::new();
    let mut n: usize = 0;
    assert(order::views(nodes@) =~= Seq::<Seq<char>>::empty());
    assert(ids.take(0) =~= Seq::<Seq<char>>::empty());
    while n < disks.len()
        invariant
            n <= disks@.len(),
            ids == node_ids(disks@),
            order::views(nodes@) == order::distinct_sorted(ids.take(n as int)),
            keys@.len() == n,
            forall|i: int|
                0 <= i < n ==> (#[trigger] keys@[i])@ == disk_rank_key(
                    material@,
                    disks@[i].volume_id@,
                ),
        decreases disks@.len() - n,
    {
        order::add_distinct(&mut nodes, disks[n].node_id.as_str());
        keys.push(rank_key("disk:", material, disks[n].volume_id.as_str()));
        proof {
            assert(ids.take(n + 1).drop_last() =~= ids.take(n as int));
            assert(ids.take(n + 1).last() == disks@[n as int].node_id@);
        }
        n = n + 1;
    }
    assert(ids.take(n as int) =~= ids);
    assert(order::views(keys@) =~= disk_keys(disks@, material@));
    let mut node_keys: Vec<String> = Vec::new();
    let mut positions: Vec<usize> = Vec::new();
    let mut m: usize = 0;
    while m < nodes.len()
        invariant
            m <= nodes@.len(),
            node_keys@.len() == m,
            positions@.len() == m,
            forall|i: int|
                0 <= i < m ==> (#[trigger] node_keys@[i])@ == node_rank_key(
                    material@,
                    nodes@[i]@,
                ),
            forall|i: int| 0 <= i < m ==> (#[trigger] positions@[i]) == i,
        decreases nodes@.len() - m,
    {
        node_keys.push(rank_key("node:", material, nodes[m].as_str()));
        positions.push(m);
        m = m + 1;
    }
    assert(order::as_ints(positions@) =~= upto(nodes@.len()));
    proof {
        let nv = nodes_of(disks@);
        assert(order::views(node_keys@) =~= Seq::new(
            nv.len(),
            |i: int| node_rank_key(material@, nv[i]),
        )) by {
            assert forall|i: int| 0 <= i < nv.len() implies nodes@[i]@ == nv[i] by {
                assert(order::views(nodes@)[i] == nv[i]);
            }
        }
    }
    let ranks = order::sort_by_key(&node_keys, &positions);
    assert(order::as_ints(ranks@) == node_order(disks@, material@));
    let mut lists: Vec<Vec<usize>> = Vec::new();
    while lists.len() < ranks.len()
        invariant
            lists@.len() <= ranks@.len(),
            keys@.len() == disks@.len(),
            order::views(keys@) == disk_keys(disks@, material@),
            order::views(nodes@) == nodes_of(disks@),
            order::as_ints(ranks@) == node_order(disks@, material@),
            forall|i: int| 0 <= i < ranks@.len() ==> (#[trigger] ranks@[i]) < nodes@.len(),
            forall|k: int|
                0 <= k < lists@.len() ==> order::as_ints(#[trigger] lists@[k]@) == ranked_lists(
                    disks@,
                    material@,
                )[k],
        decreases ranks@.len() - lists@.len(),
    {
        let k: usize = lists.len();
        let node = &nodes[ranks[k]];
        let owned = positions_of(disks, node.as_str());
        let sorted = order::sort_by_key(&keys, &owned);
        proof {
            assert(order::as_ints(ranks@)[k as int] == ranks@[k as int] as int);
            assert(order::views(nodes@)[ranks@[k as int] as int] == node@);
        }
        lists.push(sorted);
    }
    lists
}

/// Positions of the volumes that a node owns.
fn positions_of(disks: &Vec<PlacementVolume>, node: &str) -> (r: Vec<usize>)
    ensures
        order::as_ints(r@) == owned_by(disks@, node@, disks@.len()),
        forall|i: int| 0 <= i < r@.len() ==> (#[trigger] r@[i]) < disks@.len(),
{
    let mut out: Vec<usize> = Vec::new();
    let mut i: usize = 0;
    assert(order::as_ints(out@) =~= Seq::<int>::empty());
    while i < disks.len()
        invariant
            i <= disks@.len(),
            order::as_ints(out@) == owned_by(disks@, node@, i as nat),
            forall|j: int| 0 <= j < out@.len() ==> (#[trigger] out@[j]) < disks@.len(),
        decreases disks@.len() - i,
    {
        if text::str_eq(disks[i].node_id.as_str(), node) {
            let ghost before = order::as_ints(out@);
            out.push(i);
            assert(order::as_ints(out@) =~= before.push(i as int));
        }
        i = i + 1;
    }
    out
}

/// Takes the first `total` items of the rounds.
fn pick_round_robin(
    lists: &Vec<Vec<usize>>,
    total: usize,
    size: usize,
    Ghost(material): Ghost<Seq<char>>,
    Ghost(disks): Ghost<Seq<PlacementVolume>>,
) -> (r: Vec<usize>)
    requires
        disks.len() == size,
        total <= size,
        lists@.len() == ranked_lists(disks, material).len(),
        forall|k: int|
            0 <= k < lists@.len() ==> order::as_ints(#[trigger] lists@[k]@) == ranked_lists(
                disks,
                material,
            )[k],
    ensures
        order::as_ints(r@) == chosen_disks(disks, material, total as nat),
        r@.len() == total,
        forall|i: int|
            0 <= i < r@.len() ==> 0 <= #[trigger] chosen_disks(disks, material, total as nat)[i]
                < size,
{
    let ghost want = ranked_lists(disks, material);
    let ghost all = round_robin(want, size as nat);
    proof {
        lemma_ranked_lists(disks, material);
        lemma_rounds_cover(want, size as nat);
    }
    let mut chosen: Vec<usize> = Vec::new();
    let mut round: usize = 0;
    assert(order::as_ints(chosen@) =~= Seq::<int>::empty());
    while chosen.len() < total
        invariant
            partition(want, size as nat),
            all == round_robin(want, size as nat),
            all.len() == size,
            total <= size,
            lists@.len() == want.len(),
            forall|k: int|
                0 <= k < lists@.len() ==> order::as_ints(#[trigger] lists@[k]@) == want[k],
            chosen@.len() < total ==> order::as_ints(chosen@) == round_robin(want, round as nat),
            chosen@.len() == total ==> order::as_ints(chosen@) == all.take(total as int),
            chosen@.len() <= total,
            round <= size,
        decreases size - round,
    {
        proof {
            if round >= size {
                assert(round_robin(want, round as nat).len() == size);
            }
            lemma_rounds_prefix(want, (round + 1) as nat, size as nat);
        }
        let ghost done = round_robin(want, round as nat);
        let ghost row = round_items(want, round as nat, want.len());
        let mut k: usize = 0;
        assert(order::as_ints(chosen@) =~= done + round_items(want, round as nat, 0));
        while k < lists.len() && chosen.len() < total
            invariant
                round < size,
                k <= lists@.len(),
                lists@.len() == want.len(),
                forall|j: int|
                    0 <= j < lists@.len() ==> order::as_ints(#[trigger] lists@[j]@) == want[j],
                order::as_ints(chosen@) == done + round_items(want, round as nat, k as nat),
                chosen@.len() <= total,
            decreases lists@.len() - k,
        {
            assert(order::as_ints(lists@[k as int]@).len() == want[k as int].len());
            if round < lists[k].len() {
                let ghost before = order::as_ints(chosen@);
                chosen.push(lists[k][round]);
                assert(order::as_ints(lists@[k as int]@)[round as int] == want[k as int][round as int]);
                assert(order::as_ints(chosen@) =~= before.push(want[k as int][round as int]));
                assert(order::as_ints(chosen@) =~= done + round_items(
                    want,
                    round as nat,
                    (k + 1) as nat,
                ));
            }
            k = k + 1;
        }
        proof {
            lemma_round_prefix(want, round as nat, k as nat, want.len());
            let part = round_items(want, round as nat, k as nat);
            assert(part =~= row.take(part.len() as int));
            assert(done + row == round_robin(want, (round + 1) as nat));
            if chosen@.len() == total {
                assert((done + row).take(total as int) =~= done + part);
                assert(all.take((done + row).len() as int).take(total as int) =~= all.take(
                    total as int,
                ));
            }
        }
        round = round + 1;
    }
    proof {
        if total == 0 {
            assert(order::as_ints(chosen@) =~= all.take(0));
        }
        assert forall|i: int| 0 <= i < total implies 0 <= #[trigger] chosen_disks(
            disks,
            material,
            total as nat,
        )[i] < size by {
            assert(all.contains(all[i]));
        }
    }
    chosen
}

/// No volume carries two shards of an object.
pub proof fn law_no_volume_twice(disks: Seq<PlacementVolume>, material: Seq<char>, total: nat)
    requires
        total <= disks.len(),
    ensures
        chosen_disks(disks, material, total).len() == total,
        chosen_disks(disks, material, total).no_duplicates(),
        forall|i: int|
            0 <= i < total ==> 0 <= #[trigger] chosen_disks(disks, material, total)[i]
                < disks.len(),
{
    lemma_ranked_lists(disks, material);
    let lists = ranked_lists(disks, material);
    lemma_rounds_cover(lists, disks.len());
    let all = round_robin(lists, disks.len());
    assert forall|i: int| 0 <= i < total implies 0 <= #[trigger] chosen_disks(
        disks,
        material,
        total,
    )[i] < disks.len() by {
        assert(all.contains(all[i]));
    }
}

/// A larger choice begins with the smaller one.
pub proof fn law_larger_choice_begins_with_the_smaller(
    disks: Seq<PlacementVolume>,
    material: Seq<char>,
    a: nat,
    b: nat,
)
    requires
        a <= b <= disks.len(),
    ensures
        chosen_disks(disks, material, a) == chosen_disks(disks, material, b).take(a as int),
{
    law_no_volume_twice(disks, material, b);
    lemma_ranked_lists(disks, material);
    lemma_rounds_cover(ranked_lists(disks, material), disks.len());
    let all = round_robin(ranked_lists(disks, material), disks.len());
    assert(all.take(a as int) =~= all.take(b as int).take(a as int));
}

/// Asking for more shards moves none: the larger plan of an object begins with the smaller
/// one, however the shards are divided into data and parity, and plans for as many shards
/// place them alike.
pub proof fn law_larger_plan_begins_with_the_smaller(
    planner: PlacementPlanner,
    bucket: Seq<char>,
    key: Seq<char>,
    small: PlacementRecord,
    large: PlacementRecord,
    i: int,
)
    requires
        is_plan(small, planner, bucket, key, small.data, small.parity),
        is_plan(large, planner, bucket, key, large.data, large.parity),
        small.data + small.parity <= large.data + large.parity <= planner.volumes().len(),
        0 <= i < small.shards@.len(),
    ensures
        small.epoch_id == large.epoch_id,
        small.cluster_id@ == large.cluster_id@,
        small.shards@[i].index == large.shards@[i].index,
        small.shards@[i].backend_index == large.shards@[i].backend_index,
        small.shards@[i].node_id@ == large.shards@[i].node_id@,
        small.shards@[i].volume_id@ == large.shards@[i].volume_id@,
{
    let m = planner.material(bucket, key);
    let a = (small.data + small.parity) as nat;
    let b = (large.data + large.parity) as nat;
    law_larger_choice_begins_with_the_smaller(planner.volumes(), m, a, b);
    assert(is_shard_on(
        small.shards@[i],
        i,
        planner.volumes()[chosen_disks(planner.volumes(), m, a)[i]],
    ));
    assert(is_shard_on(
        large.shards@[i],
        i,
        planner.volumes()[chosen_disks(planner.volumes(), m, b)[i]],
    ));
}

/// The first round takes the best volume of every node, in rank order.
proof fn lemma_first_round(lists: Seq<Seq<int>>, n: nat, size: nat)
    requires
        partition(lists, size),
        n <= lists.len(),
    ensures
        round_items(lists, 0, n).len() == n,
        forall|k: int|
            0 <= k < n ==> #[trigger] round_items(lists, 0, n)[k] == lists[k][0],
    decreases n,
{
    if n > 0 {
        lemma_first_round(lists, (n - 1) as nat, size);
        assert(lists[n - 1].len() >= 1);
    }
}

/// A node carries a second shard of an object only when every node that owns a
/// volume carries one.
pub proof fn law_every_node_before_any_twice(
    disks: Seq<PlacementVolume>,
    material: Seq<char>,
    total: nat,
    i: int,
    j: int,
    p: int,
)
    requires
        total <= disks.len(),
        0 <= i < j < total,
        disks[chosen_disks(disks, material, total)[i]].node_id@ == disks[chosen_disks(
            disks,
            material,
            total,
        )[j]].node_id@,
        0 <= p < disks.len(),
    ensures
        exists|k: int|
            0 <= k < j && disks[#[trigger] chosen_disks(disks, material, total)[k]].node_id@
                == disks[p].node_id@,
{
    let lists = ranked_lists(disks, material);
    let nodes = nodes_of(disks);
    let ranks = node_order(disks, material);
    let n = lists.len();
    let all = round_robin(lists, disks.len());
    let chosen = chosen_disks(disks, material, total);
    lemma_ranked_lists(disks, material);
    lemma_rounds_cover(lists, disks.len());
    lemma_first_round(lists, n, disks.len());
    lemma_rounds_prefix(lists, 1, disks.len());
    assert(round_robin(lists, 1) =~= round_robin(lists, 0) + round_items(lists, 0, n));
    assert(round_robin(lists, 1) =~= round_items(lists, 0, n));
    assert forall|k: int| 0 <= k < n implies #[trigger] all[k] == lists[k][0] by {
        assert(all.take(n as int)[k] == round_items(lists, 0, n)[k]);
    }
    lemma_node_order(disks, material);
    order::lemma_distinct_sorted(node_ids(disks));
    order::lemma_ascending_distinct(nodes);
    assert forall|k: int| 0 <= k < n implies disks[#[trigger] lists[k][0]].node_id@
        == nodes[ranks[k]] by {
        lemma_owned_by(disks, nodes[ranks[k]], disks.len());
        order::lemma_sorted_same_items(
            disk_keys(disks, material),
            owned_by(disks, nodes[ranks[k]], disks.len()),
        );
        assert(lists[k].contains(lists[k][0]));
    }
    if j < n {
        assert(chosen[i] == lists[i][0]);
        assert(chosen[j] == lists[j][0]);
        assert(ranks[i] != ranks[j]);
        assert(nodes[ranks[i]] != nodes[ranks[j]]);
        assert(false);
    }
    assert(node_ids(disks)[p] == disks[p].node_id@);
    assert(node_ids(disks).contains(disks[p].node_id@));
    assert(nodes.contains(disks[p].node_id@));
    let a = choose|a: int| 0 <= a < nodes.len() && nodes[a] == disks[p].node_id@;
    assert(ranks.contains(a));
    let k = choose|k: int| 0 <= k < ranks.len() && ranks[k] == a;
    assert(all[k] == lists[k][0]);
    assert(chosen[k] == all[k]);
}

/// An item of a round stands at that round in one of the lists.
proof fn lemma_round_source(lists: Seq<Seq<int>>, round: nat, n: nat, t: int) -> (k: int)
    requires
        n <= lists.len(),
        0 <= t < round_items(lists, round, n).len(),
    ensures
        0 <= k < n,
        round < lists[k].len(),
        lists[k][round as int] == round_items(lists, round, n)[t],
    decreases n,
{
    let before = round_items(lists, round, (n - 1) as nat);
    if t < before.len() {
        lemma_round_source(lists, round, (n - 1) as nat, t)
    } else {
        n - 1
    }
}

/// One list gives a round one item.
proof fn lemma_one_of_each_list(
    lists: Seq<Seq<int>>,
    round: nat,
    n: nat,
    size: nat,
    k: int,
    a: int,
    b: int,
)
    requires
        partition(lists, size),
        n <= lists.len(),
        0 <= a <= b < round_items(lists, round, n).len(),
        0 <= k < lists.len(),
        lists[k].contains(round_items(lists, round, n)[a]),
        lists[k].contains(round_items(lists, round, n)[b]),
    ensures
        a == b,
    decreases n,
{
    let all = round_items(lists, round, n);
    let before = round_items(lists, round, (n - 1) as nat);
    if b < before.len() {
        lemma_one_of_each_list(lists, round, (n - 1) as nat, size, k, a, b);
    } else if a < b {
        let x = lemma_round_source(lists, round, (n - 1) as nat, a);
        assert(all[a] == before[a]);
        assert(lists[x].contains(lists[x][round as int]));
        assert(lists[n - 1].contains(lists[n - 1][round as int]));
        assert(all[b] == lists[n - 1][round as int]);
        assert(x == k);
        assert(k == n - 1);
    }
}

/// The items of a list come in its order.
proof fn lemma_list_order(lists: Seq<Seq<int>>, rounds: nat, size: nat, k: int, i: int, j: int) -> (p:
    (int, int))
    requires
        partition(lists, size),
        0 <= k < lists.len(),
        0 <= i <= j < round_robin(lists, rounds).len(),
        lists[k].contains(round_robin(lists, rounds)[i]),
        lists[k].contains(round_robin(lists, rounds)[j]),
    ensures
        0 <= p.0 < lists[k].len(),
        0 <= p.1 < lists[k].len(),
        lists[k][p.0] == round_robin(lists, rounds)[i],
        lists[k][p.1] == round_robin(lists, rounds)[j],
        i < j ==> p.0 < p.1,
        p.1 < rounds,
    decreases rounds,
{
    let before = round_robin(lists, (rounds - 1) as nat);
    let items = round_items(lists, (rounds - 1) as nat, lists.len());
    if j < before.len() {
        lemma_list_order(lists, (rounds - 1) as nat, size, k, i, j)
    } else {
        let y = lemma_round_source(
            lists,
            (rounds - 1) as nat,
            lists.len(),
            j - before.len(),
        );
        assert(lists[y].contains(lists[y][rounds - 1]));
        assert(y == k);
        if i < before.len() {
            let q = lemma_list_order(lists, (rounds - 1) as nat, size, k, i, i);
            (q.0, rounds - 1)
        } else {
            if i < j {
                lemma_one_of_each_list(
                    lists,
                    (rounds - 1) as nat,
                    lists.len(),
                    size,
                    k,
                    i - before.len(),
                    j - before.len(),
                );
            }
            (rounds - 1, rounds - 1)
        }
    }
}

/// Of the volumes of one node, those whose digests sort first get the first shards: the digest
/// is that of the object and of the volume.
pub proof fn law_volumes_of_a_node_go_by_their_digests(
    disks: Seq<PlacementVolume>,
    epoch_id: u64,
    cluster_id: Seq<char>,
    bucket: Seq<char>,
    key: Seq<char>,
    total: nat,
    i: int,
    j: int,
)
    requires
        total <= disks.len(),
        0 <= i < j < total,
        ({
            let c = chosen_disks(disks, key_material(epoch_id, cluster_id, bucket, key), total);
            disks[c[i]].node_id@ == disks[c[j]].node_id@
        }),
    ensures
        ({
            let c = chosen_disks(disks, key_material(epoch_id, cluster_id, bucket, key), total);
            let object = text::decimal(epoch_id as nat) + ":"@ + cluster_id + ":"@ + bucket + "/"@
                + key;
            !text::str_less_spec(
                digest::text_hash("disk:"@ + object + ":"@ + disks[c[j]].volume_id@),
                digest::text_hash("disk:"@ + object + ":"@ + disks[c[i]].volume_id@),
            )
        }),
{
    let material = key_material(epoch_id, cluster_id, bucket, key);
    let lists = ranked_lists(disks, material);
    let nodes = nodes_of(disks);
    let ranks = node_order(disks, material);
    let keys = disk_keys(disks, material);
    let all = round_robin(lists, disks.len());
    lemma_ranked_lists(disks, material);
    lemma_rounds_cover(lists, disks.len());
    assert(all.contains(all[i]));
    assert(all.contains(all[j]));
    let k = lemma_own_list(disks, material, all[i]);
    lemma_owned_by(disks, nodes[ranks[k]], disks.len());
    let owned = owned_by(disks, nodes[ranks[k]], disks.len());
    order::lemma_sorted_same_items(keys, owned);
    order::lemma_sorted_is_ascending(keys, owned);
    assert(owned.contains(all[j]));
    let p = lemma_list_order(lists, disks.len(), disks.len(), k, i, j);
    assert(!order::key_less(keys, lists[k][p.1], lists[k][p.0]));
}

/// The list that holds a volume is that of its node.
proof fn lemma_own_list(disks: Seq<PlacementVolume>, material: Seq<char>, p: int) -> (k: int)
    requires
        0 <= p < disks.len(),
    ensures
        0 <= k < ranked_lists(disks, material).len(),
        ranked_lists(disks, material)[k].contains(p),
        nodes_of(disks)[node_order(disks, material)[k]] == disks[p].node_id@,
{
    let nodes = nodes_of(disks);
    let ranks = node_order(disks, material);
    let ids = node_ids(disks);
    lemma_node_order(disks, material);
    order::lemma_distinct_sorted(ids);
    assert(ids[p] == disks[p].node_id@);
    assert(ids.contains(disks[p].node_id@));
    assert(nodes.contains(disks[p].node_id@));
    let a = choose|a: int| 0 <= a < nodes.len() && nodes[a] == disks[p].node_id@;
    assert(ranks.contains(a));
    let k = choose|k: int| 0 <= k < ranks.len() && ranks[k] == a;
    lemma_owned_by(disks, nodes[a], disks.len());
    order::lemma_sorted_same_items(
        disk_keys(disks, material),
        owned_by(disks, nodes[a], disks.len()),
    );
    assert(owned_by(disks, nodes[a], disks.len()).contains(p));
    k
}

/// The nodes get their first shards in the order of their digests: the digest is that of the
/// object and of the node.
pub proof fn law_nodes_go_by_their_digests(
    disks: Seq<PlacementVolume>,
    epoch_id: u64,
    cluster_id: Seq<char>,
    bucket: Seq<char>,
    key: Seq<char>,
    total: nat,
    i: int,
    j: int,
)
    requires
        total <= disks.len(),
        0 <= i < j < total,
        j < nodes_of(disks).len(),
    ensures
        ({
            let c = chosen_disks(disks, key_material(epoch_id, cluster_id, bucket, key), total);
            let object = text::decimal(epoch_id as nat) + ":"@ + cluster_id + ":"@ + bucket + "/"@
                + key;
            !text::str_less_spec(
                digest::text_hash("node:"@ + object + ":"@ + disks[c[j]].node_id@),
                digest::text_hash("node:"@ + object + ":"@ + disks[c[i]].node_id@),
            )
        }),
{
    let material = key_material(epoch_id, cluster_id, bucket, key);
    let lists = ranked_lists(disks, material);
    let nodes = nodes_of(disks);
    let ranks = node_order(disks, material);
    let keys = Seq::new(nodes.len(), |i: int| node_rank_key(material, nodes[i]));
    let n = lists.len();
    let all = round_robin(lists, disks.len());
    lemma_ranked_lists(disks, material);
    lemma_rounds_cover(lists, disks.len());
    lemma_first_round(lists, n, disks.len());
    lemma_rounds_prefix(lists, 1, disks.len());
    assert(round_robin(lists, 1) =~= round_robin(lists, 0) + round_items(lists, 0, n));
    assert(round_robin(lists, 1) =~= round_items(lists, 0, n));
    lemma_node_order(disks, material);
    assert forall|k: int| 0 <= k < n implies disks[#[trigger] all[k]].node_id@
        == nodes[ranks[k]] by {
        assert(all.take(n as int)[k] == round_items(lists, 0, n)[k]);
        lemma_owned_by(disks, nodes[ranks[k]], disks.len());
        order::lemma_sorted_same_items(
            disk_keys(disks, material),
            owned_by(disks, nodes[ranks[k]], disks.len()),
        );
        assert(lists[k].contains(lists[k][0]));
    }
    order::lemma_sorted_is_ascending(keys, upto(nodes.len()));
    assert(!order::key_less(keys, ranks[j], ranks[i]));
}

/// A plan puts shard `i` on one of the volumes, under that volume's own node and number, and
/// keeps the epoch, the cluster and the shard counts.
pub proof fn law_plan_names_its_volumes(
    record: PlacementRecord,
    planner: PlacementPlanner,
    bucket: Seq<char>,
    key: Seq<char>,
    data: usize,
    parity: usize,
    i: int,
)
    requires
        is_plan(record, planner, bucket, key, data, parity),
        0 <= i < data + parity,
    ensures
        record.epoch_id == planner.epoch(),
        record.cluster_id@ == planner.cluster(),
        record.data == data,
        record.parity == parity,
        record.shards@.len() == data + parity,
        record.shards@[i].index == i,
        exists|p: int|
            0 <= p < planner.volumes().len() && record.shards@[i].volume_id@ == (
            #[trigger] planner.volumes()[p]).volume_id@ && record.shards@[i].node_id@
                == planner.volumes()[p].node_id@ && record.shards@[i].backend_index
                == planner.volumes()[p].backend_index,
{
    let c = chosen_disks(
        planner.volumes(),
        planner.material(bucket, key),
        (data + parity) as nat,
    );
    assert(is_shard_on(record.shards@[i], i, planner.volumes()[c[i]]));
}

} // verus!
