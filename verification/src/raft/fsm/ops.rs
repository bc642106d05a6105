//! Typed operations that go into the Raft log. Each `Op` is a single atomic change
//! to the cluster state.

use vstd::prelude::*;

use crate::storage;
use crate::storage::BucketSettings;
use crate::strmap;
use crate::strmap::StringMap;

verus! {

/// Role that a member plays in the Raft cluster.
#[derive(Clone, Copy, Debug, PartialEq, Eq, Structural)]
pub enum VoterKind {
    /// Takes part in the quorum.
    Voter,
    /// Replicates the log but does not vote.
    Observer,
}

/// A placement volume as tracked by the state machine.
#[derive(Debug, PartialEq, Eq)]
pub struct PlacementVolume {
    pub backend_index: usize,
    pub node_id: String,
    pub volume_id: String,
}

/// `PlacementVolume` as a mathematical value.
pub struct VolumeModel {
    pub backend_index: usize,
    pub node_id: Seq<char>,
    pub volume_id: Seq<char>,
}

impl View for PlacementVolume {
    type V = VolumeModel;

    open spec fn view(&self) -> VolumeModel {
        VolumeModel {
            backend_index: self.backend_index,
            node_id: self.node_id@,
            volume_id: self.volume_id@,
        }
    }
}

impl Clone for PlacementVolume {
    fn clone(&self) -> (r: Self)
        ensures
            r@ == self@,
    {
        PlacementVolume {
            backend_index: self.backend_index,
            node_id: self.node_id.clone(),
            volume_id: self.volume_id.clone(),
        }
    }
}

/// Every change committed through Raft is one of these.
#[derive(Debug)]
pub enum Op {
    /// Adds a node to the cluster membership.
    AddNode {
        node_id: String,
        advertise_s3: String,
        advertise_cluster: String,
        voter_kind: VoterKind,
        added_at_unix_secs: u64,
    },
    /// Removes a node from the cluster membership.
    RemoveNode { node_id: String },
    /// Replaces the placement topology. `epoch_id` must be strictly greater than the current
    /// epoch.
    SetPlacementEpoch { epoch_id: u64, cluster_id: String, volumes: Vec<PlacementVolume> },
    /// Sets the settings of a bucket.
    SetBucketSettings { bucket: String, settings: BucketSettings },
    /// Removes the settings of a bucket.
    DeleteBucketSettings { bucket: String },
}

/// The state: cluster membership, placement topology and bucket settings.
#[derive(Debug)]
pub struct State {
    /// Cluster membership by node id.
    pub members: StringMap<Member>,
    /// Placement topology.
    pub placement: Placement,
    /// Bucket settings by bucket name.
    pub buckets: StringMap<BucketSettings>,
}

/// A member of the cluster.
#[derive(Debug, PartialEq, Eq)]
pub struct Member {
    pub node_id: String,
    pub advertise_s3: String,
    pub advertise_cluster: String,
    pub voter_kind: VoterKind,
    pub added_at_unix_secs: u64,
}

/// `Member` as a mathematical value.
pub struct MemberModel {
    pub node_id: Seq<char>,
    pub advertise_s3: Seq<char>,
    pub advertise_cluster: Seq<char>,
    pub voter_kind: VoterKind,
    pub added_at_unix_secs: u64,
}

impl View for Member {
    type V = MemberModel;

    open spec fn view(&self) -> MemberModel {
        MemberModel {
            node_id: self.node_id@,
            advertise_s3: self.advertise_s3@,
            advertise_cluster: self.advertise_cluster@,
            voter_kind: self.voter_kind,
            added_at_unix_secs: self.added_at_unix_secs,
        }
    }
}

impl Clone for Member {
    fn clone(&self) -> (r: Self)
        ensures
            r@ == self@,
    {
        Member {
            node_id: self.node_id.clone(),
            advertise_s3: self.advertise_s3.clone(),
            advertise_cluster: self.advertise_cluster.clone(),
            voter_kind: self.voter_kind,
            added_at_unix_secs: self.added_at_unix_secs,
        }
    }
}

/// A placement topology. Epoch zero means that none was installed.
#[derive(Debug, PartialEq, Eq)]
pub struct Placement {
    pub epoch_id: u64,
    pub cluster_id: String,
    pub volumes: Vec<PlacementVolume>,
}

/// `Placement` as a mathematical value.
pub struct PlacementModel {
    pub epoch_id: u64,
    pub cluster_id: Seq<char>,
    pub volumes: Seq<VolumeModel>,
}

/// The mathematical values of some volumes.
pub open spec fn volume_models(v: Seq<PlacementVolume>) -> Seq<VolumeModel> {
    Seq::new(v.len(), |i: int| v[i]@)
}

impl View for Placement {
    type V = PlacementModel;

    open spec fn view(&self) -> PlacementModel {
        PlacementModel {
            epoch_id: self.epoch_id,
            cluster_id: self.cluster_id@,
            volumes: volume_models(self.volumes@),
        }
    }
}

fn clone_volumes(list: &Vec<PlacementVolume>) -> (r: Vec<PlacementVolume>)
    ensures
        volume_models(r@) == volume_models(list@),
{
    let mut out: Vec<PlacementVolume> = Vec::new();
    while out.len() < list.len()
        invariant
            out@.len() <= list@.len(),
            forall|k: int| 0 <= k < out@.len() ==> (#[trigger] out@[k])@ == list@[k]@,
        decreases list@.len() - out@.len(),
    {
        out.push(list[out.len()].clone());
    }
    assert(volume_models(out@) =~= volume_models(list@));
    out
}

impl Clone for Placement {
    fn clone(&self) -> (r: Self)
        ensures
            r@ == self@,
    {
        Placement {
            epoch_id: self.epoch_id,
            cluster_id: self.cluster_id.clone(),
            volumes: clone_volumes(&self.volumes),
        }
    }
}

impl Default for Placement {
    fn default() -> (r: Self)
        ensures
            r.epoch_id == 0,
            r.cluster_id@ == Seq::<char>::empty(),
            r.volumes@ == Seq::<PlacementVolume>::empty(),
    {
        Placement { epoch_id: 0, cluster_id: String::new(), volumes: Vec::new() }
    }
}

impl Default for State {
    fn default() -> (r: Self)
        ensures
            r.members@ == Map::<Seq<char>, Member>::empty(),
            r.placement.epoch_id == 0,
            r.placement.cluster_id@ == Seq::<char>::empty(),
            r.placement.volumes@ == Seq::<PlacementVolume>::empty(),
            r.buckets@ == Map::<Seq<char>, BucketSettings>::empty(),
    {
        State {
            members: StringMap::new(),
            placement: Placement::default(),
            buckets: StringMap::new(),
        }
    }
}

/// Two maps of members with the same contents.
pub open spec fn same_members(a: Map<Seq<char>, Member>, b: Map<Seq<char>, Member>) -> bool {
    &&& a.dom() == b.dom()
    &&& forall|k: Seq<char>| #[trigger] a.contains_key(k) ==> a[k]@ == b[k]@
}

/// Two maps of bucket settings with the same contents.
pub open spec fn same_buckets(
    a: Map<Seq<char>, BucketSettings>,
    b: Map<Seq<char>, BucketSettings>,
) -> bool {
    &&& a.dom() == b.dom()
    &&& forall|k: Seq<char>| #[trigger]
        a.contains_key(k) ==> storage::same_settings(a[k], b[k])
}

/// Two states with the same contents.
pub open spec fn same_state(a: State, b: State) -> bool {
    &&& same_members(a.members@, b.members@)
    &&& a.placement@ == b.placement@
    &&& same_buckets(a.buckets@, b.buckets@)
}

fn clone_members(map: &StringMap<Member>) -> (r: StringMap<Member>)
    ensures
        same_members(map@, r@),
{
    let entries = map.entries();
    let mut out: StringMap<Member> = StringMap::new();
    let mut i: usize = 0;
    proof {
        strmap::lemma_map_of(entries@);
        assert(entries@.take(0) =~= Seq::<(String, Member)>::empty());
        assert(same_members(strmap::map_of(entries@.take(0)), out@));
    }
    while i < entries.len()
        invariant
            i <= entries@.len(),
            same_members(strmap::map_of(entries@.take(i as int)), out@),
        decreases entries@.len() - i,
    {
        let copy = entries[i].1.clone();
        let key = entries[i].0.clone();
        let ghost before = strmap::map_of(entries@.take(i as int));
        out.insert(key, copy);
        proof {
            assert(entries@.take(i + 1).drop_last() =~= entries@.take(i as int));
            let after = strmap::map_of(entries@.take(i + 1));
            assert(after == before.insert(entries@[i as int].0@, entries@[i as int].1));
            assert(after.dom() =~= out@.dom());
            assert forall|k: Seq<char>| #[trigger] after.contains_key(k) implies after[k]@
                == out@[k]@ by {
                if k != entries@[i as int].0@ {
                    assert(before.contains_key(k));
                }
            }
        }
        i = i + 1;
    }
    assert(entries@.take(i as int) =~= entries@);
    out
}

fn clone_buckets(map: &StringMap<BucketSettings>) -> (r: StringMap<BucketSettings>)
    ensures
        same_buckets(map@, r@),
{
    let entries = map.entries();
    let mut out: StringMap<BucketSettings> = StringMap::new();
    let mut i: usize = 0;
    proof {
        assert(entries@.take(0) =~= Seq::<(String, BucketSettings)>::empty());
        assert(same_buckets(strmap::map_of(entries@.take(0)), out@));
    }
    while i < entries.len()
        invariant
            i <= entries@.len(),
            same_buckets(strmap::map_of(entries@.take(i as int)), out@),
        decreases entries@.len() - i,
    {
        let copy = entries[i].1.clone();
        let key = entries[i].0.clone();
        let ghost before = strmap::map_of(entries@.take(i as int));
        out.insert(key, copy);
        proof {
            assert(entries@.take(i + 1).drop_last() =~= entries@.take(i as int));
            let after = strmap::map_of(entries@.take(i + 1));
            assert(after == before.insert(entries@[i as int].0@, entries@[i as int].1));
            assert(after.dom() =~= out@.dom());
            assert forall|k: Seq<char>| #[trigger]
                after.contains_key(k) implies storage::same_settings(after[k], out@[k]) by {
                if k != entries@[i as int].0@ {
                    assert(before.contains_key(k));
                }
            }
        }
        i = i + 1;
    }
    assert(entries@.take(i as int) =~= entries@);
    out
}

impl Clone for State {
    fn clone(&self) -> (r: Self)
        ensures
            same_state(*self, r),
    {
        State {
            members: clone_members(&self.members),
            placement: self.placement.clone(),
            buckets: clone_buckets(&self.buckets),
        }
    }
}

/// Why an operation cannot be applied.
#[derive(Debug, PartialEq, Eq)]
pub enum ApplyError {
    EpochRegression { have: u64, got: u64 },
    UnknownNode(String),
    UnknownBucket(String),
}

/// The operation can be applied to the state.
pub open spec fn applicable(op: Op, s: State) -> bool {
    match op {
        Op::AddNode { .. } => true,
        Op::RemoveNode { node_id } => s.members@.contains_key(node_id@),
        Op::SetPlacementEpoch { epoch_id, .. } => epoch_id > s.placement.epoch_id,
        Op::SetBucketSettings { .. } => true,
        Op::DeleteBucketSettings { bucket } => s.buckets@.contains_key(bucket@),
    }
}

/// The error names what stands against the operation.
pub open spec fn names_obstacle(op: Op, s: State, e: ApplyError) -> bool {
    match op {
        Op::RemoveNode { node_id } => e matches ApplyError::UnknownNode(n) && n@ == node_id@,
        Op::SetPlacementEpoch { epoch_id, .. } => e == ApplyError::EpochRegression {
            have: s.placement.epoch_id,
            got: epoch_id,
        },
        Op::DeleteBucketSettings { bucket } => e matches ApplyError::UnknownBucket(b) && b@
            == bucket@,
        _ => false,
    }
}

/// Applying the operation leads from `s` to `t`.
pub open spec fn leads_to(op: Op, s: State, t: State) -> bool {
    match op {
        Op::AddNode {
            node_id,
            advertise_s3,
            advertise_cluster,
            voter_kind,
            added_at_unix_secs,
        } => {
            let m = t.members@[node_id@];
            &&& t.members@ == s.members@.insert(node_id@, m)
            &&& m@ == MemberModel {
                node_id: node_id@,
                advertise_s3: advertise_s3@,
                advertise_cluster: advertise_cluster@,
                voter_kind,
                added_at_unix_secs,
            }
            &&& t.placement == s.placement
            &&& t.buckets == s.buckets
        },
        Op::RemoveNode { node_id } => {
            &&& t.members@ == s.members@.remove(node_id@)
            &&& t.placement == s.placement
            &&& t.buckets == s.buckets
        },
        Op::SetPlacementEpoch { epoch_id, cluster_id, volumes } => {
            &&& t.members == s.members
            &&& t.placement@ == PlacementModel {
                epoch_id,
                cluster_id: cluster_id@,
                volumes: volume_models(volumes@),
            }
            &&& t.buckets == s.buckets
        },
        Op::SetBucketSettings { bucket, settings } => {
            let b = t.buckets@[bucket@];
            &&& t.members == s.members
            &&& t.placement == s.placement
            &&& t.buckets@ == s.buckets@.insert(bucket@, b)
            &&& storage::same_settings(settings, b)
        },
        Op::DeleteBucketSettings { bucket } => {
            &&& t.members == s.members
            &&& t.placement == s.placement
            &&& t.buckets@ == s.buckets@.remove(bucket@)
        },
    }
}

impl Op {
    /// Applies the operation in place. An operation that cannot be applied leaves the
    /// state as it is.
    pub fn apply(&self, state: &mut State) -> (r: Result<(), ApplyError>)
        ensures
            r is Ok <==> applicable(*self, *old(state)),
            r is Ok ==> leads_to(*self, *old(state), *final(state)),
            r matches Err(e) ==> names_obstacle(*self, *old(state), e) && *final(state) == *old(
                state,
            ),
    {
        match self {
            Op::AddNode {
                node_id,
                advertise_s3,
                advertise_cluster,
                voter_kind,
                added_at_unix_secs,
            } => {
                state.members.insert(
                    node_id.clone(),
                    Member {
                        node_id: node_id.clone(),
                        advertise_s3: advertise_s3.clone(),
                        advertise_cluster: advertise_cluster.clone(),
                        voter_kind: *voter_kind,
                        added_at_unix_secs: *added_at_unix_secs,
                    },
                );
                Ok(())
            },
            Op::RemoveNode { node_id } => {
                if !state.members.contains_key(node_id.as_str()) {
                    return Err(ApplyError::UnknownNode(node_id.clone()));
                }
                let _ = state.members.remove(node_id.as_str());
                Ok(())
            },
            Op::SetPlacementEpoch { epoch_id, cluster_id, volumes } => {
                if *epoch_id <= state.placement.epoch_id {
                    return Err(
                        ApplyError::EpochRegression {
                            have: state.placement.epoch_id,
                            got: *epoch_id,
                        },
                    );
                }
                state.placement = Placement {
                    epoch_id: *epoch_id,
                    cluster_id: cluster_id.clone(),
                    volumes: clone_volumes(volumes),
                };
                Ok(())
            },
            Op::SetBucketSettings { bucket, settings } => {
                state.buckets.insert(bucket.clone(), settings.clone());
                Ok(())
            },
            Op::DeleteBucketSettings { bucket } => {
                if !state.buckets.contains_key(bucket.as_str()) {
                    return Err(ApplyError::UnknownBucket(bucket.clone()));
                }
                let _ = state.buckets.remove(bucket.as_str());
                Ok(())
            },
        }
    }
}

// --------------------------------------------------------------------- laws

/// The placement epoch never goes back, and a new placement has a greater one.
pub proof fn law_epoch_never_regresses(op: Op, s: State, t: State)
    requires
        applicable(op, s),
        leads_to(op, s, t),
    ensures
        t.placement.epoch_id >= s.placement.epoch_id,
        op is SetPlacementEpoch ==> t.placement.epoch_id > s.placement.epoch_id,
{
    assert(t.placement@.epoch_id == t.placement.epoch_id);
}

/// An operation changes at most one of the three tables.
pub proof fn law_one_table_at_a_time(op: Op, s: State, t: State)
    requires
        leads_to(op, s, t),
    ensures
        (t.placement == s.placement && t.buckets == s.buckets) || (t.members == s.members
            && t.buckets == s.buckets) || (t.members == s.members && t.placement == s.placement),
{
}

/// Nodes that apply the same operation to states with the same contents end with
/// states with the same contents, and agree on whether it can be applied.
pub proof fn law_replicas_agree(op: Op, s1: State, t1: State, s2: State, t2: State)
    requires
        same_state(s1, s2),
        leads_to(op, s1, t1),
        leads_to(op, s2, t2),
    ensures
        applicable(op, s1) == applicable(op, s2),
        same_state(t1, t2),
{
    assert(s1.placement@.epoch_id == s1.placement.epoch_id);
    assert(s2.placement@.epoch_id == s2.placement.epoch_id);
    assert(s1.members@.dom() == s2.members@.dom());
    assert(s1.buckets@.dom() == s2.buckets@.dom());
    match op {
        Op::RemoveNode { node_id } => {
            assert(s1.members@.contains_key(node_id@) == s1.members@.dom().contains(node_id@));
            assert(s2.members@.contains_key(node_id@) == s2.members@.dom().contains(node_id@));
        },
        Op::DeleteBucketSettings { bucket } => {
            assert(s1.buckets@.contains_key(bucket@) == s1.buckets@.dom().contains(bucket@));
            assert(s2.buckets@.contains_key(bucket@) == s2.buckets@.dom().contains(bucket@));
        },
        _ => {},
    }
    assert(t1.members@.dom() =~= t2.members@.dom());
    assert(t1.buckets@.dom() =~= t2.buckets@.dom());
    assert forall|k: Seq<char>| #[trigger] t1.members@.contains_key(k) implies t1.members@[k]@
        == t2.members@[k]@ by {
        assert(s1.members@.contains_key(k) ==> s1.members@[k]@ == s2.members@[k]@);
    }
    assert forall|k: Seq<char>| #[trigger]
        t1.buckets@.contains_key(k) implies storage::same_settings(
        t1.buckets@[k],
        t2.buckets@[k],
    ) by {
        assert(s1.buckets@.contains_key(k) ==> storage::same_settings(
            s1.buckets@[k],
            s2.buckets@[k],
        ));
        match op {
            Op::SetBucketSettings { bucket, settings } => {
                if k == bucket@ {
                    storage::lemma_same_settings_join(settings, t1.buckets@[k], t2.buckets@[k]);
                }
            },
            _ => {},
        }
    }
}

/// A node that was added can be removed, which leaves the other members as they were.
pub proof fn law_remove_undoes_add(add: Op, remove: Op, s: State, t: State, u: State)
    requires
        add matches Op::AddNode { node_id: a, .. } && remove matches Op::RemoveNode { node_id: b }
            && a@ == b@,
        leads_to(add, s, t),
        applicable(remove, t) ==> leads_to(remove, t, u),
    ensures
        applicable(remove, t),
        u.members@ == s.members@.remove(remove->RemoveNode_node_id@),
        u.placement == s.placement,
        u.buckets == s.buckets,
{
    assert(u.members@ =~= s.members@.remove(remove->RemoveNode_node_id@));
}

} // verus!
