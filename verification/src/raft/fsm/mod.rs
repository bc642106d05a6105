//! The Raft state machine: cluster membership, placement topology and bucket
//! settings, with a cursor over the log. Snapshots are the durable form.

use vstd::prelude::*;

use crate::storage;
use crate::storage::BucketSettings;
use crate::strmap;

pub mod ops;
pub mod query;

pub use ops::{ApplyError, Member, Op, Placement, PlacementVolume, State, VoterKind};

verus! {

/// The state machine. The cursor is the highest log index applied so far.
#[derive(Debug)]
pub struct AbixioStateMachine {
    state: State,
    applied_index: u64,
}

/// The list holds each member of the table once.
pub open spec fn lists_members(list: Seq<Member>, table: Map<Seq<char>, Member>) -> bool {
    exists|keys: Seq<Seq<char>>|
        {
            &&& #[trigger] keys.len() == list.len()
            &&& keys.no_duplicates()
            &&& forall|k: Seq<char>| #[trigger] table.contains_key(k) <==> keys.contains(k)
            &&& forall|i: int| 0 <= i < list.len() ==> (#[trigger] list[i])@ == table[keys[i]]@
        }
}

impl AbixioStateMachine {
    /// The state.
    pub closed spec fn state(&self) -> State {
        self.state
    }

    /// The highest log index applied so far.
    pub closed spec fn cursor(&self) -> u64 {
        self.applied_index
    }

    /// An empty state machine.
    pub fn new() -> (r: Self)
        ensures
            r.cursor() == 0,
            r.state().members@ == Map::<Seq<char>, Member>::empty(),
            r.state().placement.epoch_id == 0,
            r.state().placement.cluster_id@ == Seq::<char>::empty(),
            r.state().placement.volumes@ == Seq::<PlacementVolume>::empty(),
            r.state().buckets@ == Map::<Seq<char>, BucketSettings>::empty(),
    {
        AbixioStateMachine { state: State::default(), applied_index: 0 }
    }

    /// Applies one operation at the given log index. Returns the cursor, which never
    /// goes back, or why the operation cannot be applied.
    pub fn apply(&mut self, index: u64, op: &Op) -> (r: Result<u64, ApplyError>)
        ensures
            r is Ok <==> ops::applicable(*op, old(self).state()),
            r matches Ok(n) ==> {
                &&& ops::leads_to(*op, old(self).state(), final(self).state())
                &&& final(self).cursor() == (if index > old(self).cursor() {
                    index
                } else {
                    old(self).cursor()
                })
                &&& n == final(self).cursor()
            },
            r matches Err(e) ==> ops::names_obstacle(*op, old(self).state(), e) && *final(self)
                == *old(self),
    {
        match op.apply(&mut self.state) {
            Ok(()) => {
                if index > self.applied_index {
                    self.applied_index = index;
                }
                Ok(self.applied_index)
            },
            Err(e) => Err(e),
        }
    }

    /// The highest log index applied so far.
    pub fn applied_index(&self) -> (r: u64)
        ensures
            r == self.cursor(),
    {
        self.applied_index
    }

    /// The cursor and a copy of the full state, for serialisation.
    pub fn snapshot(&self) -> (r: (u64, State))
        ensures
            r.0 == self.cursor(),
            ops::same_state(self.state(), r.1),
    {
        (self.applied_index, self.state.clone())
    }

    /// Replaces the state by that of a snapshot.
    pub fn install_snapshot(&mut self, index: u64, state: State)
        ensures
            final(self).cursor() == index,
            final(self).state() == state,
    {
        self.applied_index = index;
        self.state = state;
    }

    /// The settings of a bucket, if any are known.
    pub fn bucket_settings(&self, bucket: &str) -> (r: Option<BucketSettings>)
        ensures
            match r {
                Some(b) => self.state().buckets@.contains_key(bucket@) && storage::same_settings(
                    self.state().buckets@[bucket@],
                    b,
                ),
                None => !self.state().buckets@.contains_key(bucket@),
            },
    {
        match self.state.buckets.get(bucket) {
            Some(b) => Some(b.clone()),
            None => None,
        }
    }

    /// A member, if it is known.
    pub fn member(&self, node_id: &str) -> (r: Option<Member>)
        ensures
            match r {
                Some(m) => self.state().members@.contains_key(node_id@) && m@
                    == self.state().members@[node_id@]@,
                None => !self.state().members@.contains_key(node_id@),
            },
    {
        match self.state.members.get(node_id) {
            Some(m) => Some(m.clone()),
            None => None,
        }
    }

    /// The placement topology.
    pub fn placement(&self) -> (r: Placement)
        ensures
            r@ == self.state().placement@,
    {
        self.state.placement.clone()
    }

    /// All members.
    pub fn members(&self) -> (r: Vec<Member>)
        ensures
            lists_members(r@, self.state().members@),
    {
        let entries = self.state.members.entries();
        let mut out: Vec<Member> = Vec::new();
        while out.len() < entries.len()
            invariant
                out@.len() <= entries@.len(),
                forall|i: int| 0 <= i < out@.len() ==> (#[trigger] out@[i])@ == entries@[i].1@,
            decreases entries@.len() - out@.len(),
        {
            out.push(entries[out.len()].1.clone());
        }
        proof {
            strmap::lemma_map_of(entries@);
            let table = self.state.members@;
            let keys = Seq::new(entries@.len(), |i: int| entries@[i].0@);
            assert(keys.no_duplicates()) by {
                assert forall|i: int, j: int|
                    0 <= i < keys.len() && 0 <= j < keys.len() && i != j implies keys[i]
                    != keys[j] by {
                    if i < j {
                        assert(entries@[i].0@ != entries@[j].0@);
                    } else {
                        assert(entries@[j].0@ != entries@[i].0@);
                    }
                }
            }
            assert forall|k: Seq<char>| #[trigger] table.contains_key(k) <==> keys.contains(k) by {
                if table.contains_key(k) {
                    let i = choose|i: int| 0 <= i < entries@.len() && (#[trigger] entries@[i]).0@ == k;
                    assert(keys[i] == k);
                }
                if keys.contains(k) {
                    let i = choose|i: int| 0 <= i < keys.len() && keys[i] == k;
                    assert(entries@[i].0@ == k);
                }
            }
            assert(keys.len() == out@.len());
            assert(lists_members(out@, table));
        }
        out
    }
}

impl Default for AbixioStateMachine {
    fn default() -> (r: Self)
        ensures
            r.cursor() == 0,
            r.state().members@ == Map::<Seq<char>, Member>::empty(),
            r.state().placement.epoch_id == 0,
            r.state().buckets@ == Map::<Seq<char>, BucketSettings>::empty(),
    {
        Self::new()
    }
}

/// A snapshot that is installed elsewhere carries the whole state over: both machines
/// hold the same contents and stand at the same log index.
pub proof fn law_snapshot_carries_the_state(
    from: AbixioStateMachine,
    image: (u64, State),
    to: AbixioStateMachine,
)
    requires
        image.0 == from.cursor(),
        ops::same_state(from.state(), image.1),
        to.cursor() == image.0,
        to.state() == image.1,
    ensures
        to.cursor() == from.cursor(),
        ops::same_state(from.state(), to.state()),
{
}

} // verus!
