//! How committed log entries reach the state machine.

use vstd::prelude::*;
use vstd::string::*;

use super::log::LogPlace;
use crate::raft::fsm::ops;
use crate::raft::fsm::{AbixioStateMachine, ApplyError, Op, State};
use crate::raft::types::AppResponse;
use crate::text;

verus! {

/// What a committed entry carries.
#[derive(Debug)]
pub enum Payload {
    /// Moves the log on without touching the state.
    Blank,
    /// An operation on the state.
    Normal(Op),
    /// A membership change, which the Raft library keeps itself.
    Membership,
}

/// A committed entry.
#[derive(Debug)]
pub struct Committed {
    pub place: LogPlace,
    pub payload: Payload,
}

/// The state machine with what the Raft library asks of it besides the state: the last
/// applied place, and the place of the last membership change.
#[derive(Debug)]
pub struct AbixioFsmAdapter {
    pub fsm: AbixioStateMachine,
    pub last_applied: Option<LogPlace>,
    pub last_membership: Option<LogPlace>,
    /// How many snapshots were built.
    pub snapshots_built: u64,
}

/// An entry can be applied to the state.
pub open spec fn entry_applicable(e: Committed, s: State) -> bool {
    e.payload matches Payload::Normal(op) ==> ops::applicable(op, s)
}

/// Applying an entry leads from `s` to `t`.
pub open spec fn entry_leads_to(e: Committed, s: State, t: State) -> bool {
    match e.payload {
        Payload::Normal(op) => ops::leads_to(op, s, t),
        _ => t == s,
    }
}

/// The states that the first `n` entries lead through when they are applied one after
/// the other.
pub open spec fn is_trace(entries: Seq<Committed>, n: nat, trace: Seq<State>) -> bool {
    &&& trace.len() == n + 1
    &&& forall|i: int|
        #![trigger trace[i]]
        0 <= i < n ==> entry_applicable(entries[i], trace[i]) && entry_leads_to(
            entries[i],
            trace[i],
            trace[i + 1],
        )
}

/// The first `n` entries can all be applied, one after the other, and lead from `s`
/// to `t`.
pub open spec fn reaches(entries: Seq<Committed>, n: nat, s: State, t: State) -> bool {
    exists|trace: Seq<State>| #[trigger]
        is_trace(entries, n, trace) && trace[0] == s && trace[n as int] == t
}

/// The place of the last membership change among the first `n` entries, or the one
/// before them.
pub open spec fn membership_place(
    entries: Seq<Committed>,
    n: nat,
    before: Option<LogPlace>,
) -> Option<LogPlace>
    decreases n,
{
    if n == 0 {
        before
    } else if entries[n - 1].payload is Membership {
        Some(entries[n - 1].place)
    } else {
        membership_place(entries, (n - 1) as nat, before)
    }
}

/// The cursor after the first `n` entries: the highest index of an operation.
pub open spec fn cursor_after(entries: Seq<Committed>, n: nat, before: u64) -> u64
    decreases n,
{
    if n == 0 {
        before
    } else {
        let c = cursor_after(entries, (n - 1) as nat, before);
        if entries[n - 1].payload is Normal && entries[n - 1].place.index > c {
            entries[n - 1].place.index
        } else {
            c
        }
    }
}

/// The last applied place after the first `n` entries.
pub open spec fn applied_place(
    entries: Seq<Committed>,
    n: nat,
    before: Option<LogPlace>,
) -> Option<LogPlace> {
    if n == 0 {
        before
    } else {
        Some(entries[n - 1].place)
    }
}

impl AbixioFsmAdapter {
    /// Wraps a state machine that nothing was applied to yet.
    pub fn new(fsm: AbixioStateMachine) -> (r: Self)
        ensures
            r.fsm == fsm,
            r.last_applied is None,
            r.last_membership is None,
            r.snapshots_built == 0,
    {
        AbixioFsmAdapter { fsm, last_applied: None, last_membership: None, snapshots_built: 0 }
    }

    /// Applies committed entries in order. It stops at the first one that cannot be
    /// applied; those before it stay applied.
    pub fn apply(&mut self, entries: &Vec<Committed>) -> (r: Result<Vec<AppResponse>, ApplyError>)
        ensures
            final(self).snapshots_built == old(self).snapshots_built,
            r matches Ok(out) ==> {
                &&& reaches(
                    entries@,
                    entries@.len(),
                    old(self).fsm.state(),
                    final(self).fsm.state(),
                )
                &&& final(self).fsm.cursor() == cursor_after(
                    entries@,
                    entries@.len(),
                    old(self).fsm.cursor(),
                )
                &&& final(self).last_applied == applied_place(
                    entries@,
                    entries@.len(),
                    old(self).last_applied,
                )
                &&& final(self).last_membership == membership_place(
                    entries@,
                    entries@.len(),
                    old(self).last_membership,
                )
                &&& out@.len() == entries@.len()
                &&& forall|i: int|
                    0 <= i < out@.len() ==> (#[trigger] out@[i]).applied_index
                        == entries@[i].place.index
            },
            r matches Err(e) ==> exists|k: int| #[trigger]
                stopped_at(entries@, k, *old(self), *final(self), e),
    {
        let ghost s0 = self.fsm.state();
        let ghost first = *self;
        let ghost mut trace: Seq<State> = seq![s0];
        let mut out: Vec<AppResponse> = Vec::new();
        let mut i: usize = 0;
        while i < entries.len()
            invariant
                i <= entries@.len(),
                out@.len() == i,
                s0 == first.fsm.state(),
                first == *old(self),
                is_trace(entries@, i as nat, trace),
                trace[0] == s0,
                trace[i as int] == self.fsm.state(),
                self.fsm.cursor() == cursor_after(entries@, i as nat, first.fsm.cursor()),
                self.last_applied == applied_place(entries@, i as nat, first.last_applied),
                self.last_membership == membership_place(
                    entries@,
                    i as nat,
                    first.last_membership,
                ),
                self.snapshots_built == first.snapshots_built,
                forall|k: int|
                    0 <= k < out@.len() ==> (#[trigger] out@[k]).applied_index
                        == entries@[k].place.index,
            decreases entries@.len() - i,
        {
            let entry = &entries[i];
            match &entry.payload {
                Payload::Blank => {},
                Payload::Normal(op) => {
                    match self.fsm.apply(entry.place.index, op) {
                        Ok(_) => {},
                        Err(e) => {
                            assert(reaches(entries@, i as nat, s0, self.fsm.state()));
                            assert(stopped_at(entries@, i as int, *old(self), *self, e));
                            return Err(e);
                        },
                    }
                },
                Payload::Membership => {
                    self.last_membership = Some(entry.place);
                },
            }
            self.last_applied = Some(entry.place);
            out.push(AppResponse { applied_index: entry.place.index });
            proof {
                let longer = trace.push(self.fsm.state());
                assert forall|k: int|
                    #![trigger longer[k]]
                    0 <= k < i + 1 implies entry_applicable(entries@[k], longer[k])
                    && entry_leads_to(entries@[k], longer[k], longer[k + 1]) by {
                    if k < i {
                        assert(longer[k] == trace[k] && longer[k + 1] == trace[k + 1]);
                    }
                }
                trace = longer;
            }
            i = i + 1;
        }
        assert(reaches(entries@, entries@.len(), s0, self.fsm.state()));
        Ok(out)
    }

    /// Takes over a received snapshot.
    pub fn install(&mut self, last: Option<LogPlace>, membership: Option<LogPlace>, state: State)
        ensures
            final(self).fsm.state() == state,
            final(self).fsm.cursor() == (match last {
                Some(p) => p.index,
                None => 0,
            }),
            final(self).last_applied == last,
            final(self).last_membership == membership,
            final(self).snapshots_built == old(self).snapshots_built,
    {
        let index: u64 = match last {
            Some(p) => p.index,
            None => 0,
        };
        self.fsm.install_snapshot(index, state);
        self.last_applied = last;
        self.last_membership = membership;
    }

    /// The identity of the next snapshot, made of the applied index and a counter.
    pub fn next_snapshot_id(&mut self) -> (r: String)
        requires
            old(self).snapshots_built < u64::MAX,
        ensures
            final(self).snapshots_built == old(self).snapshots_built + 1,
            final(self).fsm == old(self).fsm,
            final(self).last_applied == old(self).last_applied,
            final(self).last_membership == old(self).last_membership,
            r@ == "snap-"@ + text::decimal(old(self).fsm.cursor() as nat) + "-"@ + text::decimal(
                (old(self).snapshots_built + 1) as nat,
            ),
    {
        self.snapshots_built = self.snapshots_built + 1;
        let mut out = "snap-".to_owned();
        out.append(text::decimal_u64(self.fsm.applied_index()).as_str());
        out.append("-");
        out.append(text::decimal_u64(self.snapshots_built).as_str());
        out
    }
}

/// Entry `k` could not be applied; those before it were.
pub open spec fn stopped_at(
    entries: Seq<Committed>,
    k: int,
    from: AbixioFsmAdapter,
    to: AbixioFsmAdapter,
    e: ApplyError,
) -> bool {
    &&& 0 <= k < entries.len()
    &&& reaches(entries, k as nat, from.fsm.state(), to.fsm.state())
    &&& entries[k].payload matches Payload::Normal(op) && !ops::applicable(op, to.fsm.state())
        && ops::names_obstacle(op, to.fsm.state(), e)
    &&& to.fsm.cursor() == cursor_after(entries, k as nat, from.fsm.cursor())
    &&& to.last_applied == applied_place(entries, k as nat, from.last_applied)
    &&& to.last_membership == membership_place(entries, k as nat, from.last_membership)
}

} // verus!
