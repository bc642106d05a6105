//! Queue of objects that need healing because a write failed in part.

use vstd::prelude::*;

use crate::text;

verus! {

/// An object that needs healing.
#[derive(Debug, Hash, PartialEq, Eq)]
pub struct MrfEntry {
    pub bucket: String,
    pub key: String,
}

impl View for MrfEntry {
    type V = (Seq<char>, Seq<char>);

    open spec fn view(&self) -> (Seq<char>, Seq<char>) {
        (self.bucket@, self.key@)
    }
}

impl Clone for MrfEntry {
    fn clone(&self) -> (r: Self)
        ensures
            r@ == self@,
    {
        MrfEntry { bucket: self.bucket.clone(), key: self.key.clone() }
    }
}

/// The names of some entries.
pub open spec fn entry_views(v: Seq<MrfEntry>) -> Seq<(Seq<char>, Seq<char>)> {
    Seq::new(v.len(), |i: int| v[i]@)
}

/// Bounded queue of entries. An entry that is pending is not queued a second time.
pub struct MrfQueue {
    waiting: Vec<MrfEntry>,
    seen: Vec<MrfEntry>,
    capacity: usize,
    receiver_taken: bool,
    closed: bool,
}

fn position(list: &Vec<MrfEntry>, entry: &MrfEntry) -> (r: Option<usize>)
    ensures
        match r {
            Some(i) => i < list@.len() && list@[i as int]@ == entry@,
            None => !entry_views(list@).contains(entry@),
        },
{
    let mut i: usize = 0;
    while i < list.len()
        invariant
            i <= list@.len(),
            forall|k: int| 0 <= k < i ==> (#[trigger] entry_views(list@)[k]) != entry@,
        decreases list@.len() - i,
    {
        if text::str_eq(list[i].bucket.as_str(), entry.bucket.as_str()) && text::str_eq(
            list[i].key.as_str(),
            entry.key.as_str(),
        ) {
            return Some(i);
        }
        i = i + 1;
    }
    None
}

impl MrfQueue {
    /// The entries that wait to be taken, oldest first.
    pub closed spec fn queued(&self) -> Seq<(Seq<char>, Seq<char>)> {
        entry_views(self.waiting@)
    }

    /// The entries that are pending: queued or taken, and not yet done.
    pub closed spec fn pending(&self) -> Set<(Seq<char>, Seq<char>)> {
        entry_views(self.seen@).to_set()
    }

    /// How many entries can wait.
    pub closed spec fn limit(&self) -> usize {
        self.capacity
    }

    /// The receiving side was handed out.
    pub closed spec fn taken(&self) -> bool {
        self.receiver_taken
    }

    /// The receiving side is gone.
    pub closed spec fn is_closed(&self) -> bool {
        self.closed
    }

    #[verifier::type_invariant]
    spec fn well_formed(&self) -> bool {
        entry_views(self.seen@).no_duplicates() && self.waiting@.len() <= self.capacity
    }

    /// An empty queue for at most `capacity` waiting entries.
    pub fn new(capacity: usize) -> (r: Self)
        requires
            capacity > 0,
        ensures
            r.queued() == Seq::<(Seq<char>, Seq<char>)>::empty(),
            r.pending() == Set::<(Seq<char>, Seq<char>)>::empty(),
            r.limit() == capacity,
            !r.taken(),
            !r.is_closed(),
    {
        let r = MrfQueue {
            waiting: Vec::new(),
            seen: Vec::new(),
            capacity,
            receiver_taken: false,
            closed: false,
        };
        assert(entry_views(r.waiting@) =~= Seq::<(Seq<char>, Seq<char>)>::empty());
        assert(r.pending() =~= Set::<(Seq<char>, Seq<char>)>::empty());
        r
    }

    /// Queues an entry for healing, unless it is already pending.
    pub fn enqueue(&mut self, entry: MrfEntry) -> (r: Result<(), String>)
        ensures
            final(self).limit() == old(self).limit(),
            final(self).taken() == old(self).taken(),
            final(self).is_closed() == old(self).is_closed(),
            r is Ok <==> old(self).pending().contains(entry@) || (!old(self).is_closed() && old(
                self,
            ).queued().len() < old(self).limit()),
            r matches Err(e) ==> e@ == (if old(self).is_closed() {
                "queue closed"@
            } else {
                "queue full"@
            }),
            r is Ok && !old(self).pending().contains(entry@) ==> final(self).queued() == old(
                self,
            ).queued().push(entry@) && final(self).pending() == old(self).pending().insert(entry@),
            r is Err || old(self).pending().contains(entry@) ==> final(self).queued() == old(
                self,
            ).queued() && final(self).pending() == old(self).pending(),
    {
        proof {
            use_type_invariant(&*self);
        }
        let known = position(&self.seen, &entry);
        if let Some(i) = known {
            assert(entry_views(self.seen@)[i as int] == entry@);
            return Ok(());
        }
        if self.closed {
            return Err("queue closed".to_owned());
        }
        if self.waiting.len() >= self.capacity {
            return Err("queue full".to_owned());
        }
        let mut fresh = MrfQueue {
            waiting: Vec::new(),
            seen: Vec::new(),
            capacity: 1,
            receiver_taken: false,
            closed: false,
        };
        std::mem::swap(self, &mut fresh);
        let MrfQueue { mut waiting, mut seen, capacity, receiver_taken, closed } = fresh;
        let ghost queued = entry_views(waiting@);
        let ghost names = entry_views(seen@);
        waiting.push(entry.clone());
        seen.push(entry);
        proof {
            assert(entry_views(waiting@) =~= queued.push(entry@));
            assert(entry_views(seen@) =~= names.push(entry@));
            assert(names.push(entry@).no_duplicates());
            assert(names.push(entry@).to_set() =~= names.to_set().insert(entry@)) by {
                assert forall|x: (Seq<char>, Seq<char>)|
                    names.push(entry@).to_set().contains(x) <==> names.to_set().insert(
                        entry@,
                    ).contains(x) by {
                    if names.contains(x) {
                        let k = choose|k: int| 0 <= k < names.len() && names[k] == x;
                        assert(names.push(entry@)[k] == x);
                    }
                    assert(names.push(entry@)[names.len() as int] == entry@);
                    if names.push(entry@).contains(x) && x != entry@ {
                        let k = choose|k: int|
                            0 <= k < names.push(entry@).len() && names.push(entry@)[k] == x;
                        assert(names[k] == x);
                    }
                }
            }
        }
        *self = MrfQueue { waiting, seen, capacity, receiver_taken, closed };
        Ok(())
    }

    /// Hands out the receiving side. This works once.
    pub fn take_receiver(&mut self) -> (r: bool)
        ensures
            r == !old(self).taken(),
            final(self).taken(),
            final(self).queued() == old(self).queued(),
            final(self).pending() == old(self).pending(),
            final(self).limit() == old(self).limit(),
            final(self).is_closed() == old(self).is_closed(),
    {
        proof {
            use_type_invariant(&*self);
        }
        let first = !self.receiver_taken;
        self.receiver_taken = true;
        first
    }

    /// Takes the entry that has waited longest. It stays pending until it is done.
    pub fn dequeue(&mut self) -> (r: Option<MrfEntry>)
        ensures
            r is Some <==> old(self).queued().len() > 0,
            r matches Some(e) ==> e@ == old(self).queued()[0] && final(self).queued() == old(
                self,
            ).queued().drop_first(),
            r is None ==> final(self).queued() == old(self).queued(),
            final(self).pending() == old(self).pending(),
            final(self).limit() == old(self).limit(),
            final(self).taken() == old(self).taken(),
            final(self).is_closed() == old(self).is_closed(),
    {
        proof {
            use_type_invariant(&*self);
        }
        if self.waiting.len() == 0 {
            return None;
        }
        let mut fresh = MrfQueue {
            waiting: Vec::new(),
            seen: Vec::new(),
            capacity: 1,
            receiver_taken: false,
            closed: false,
        };
        std::mem::swap(self, &mut fresh);
        let MrfQueue { mut waiting, seen, capacity, receiver_taken, closed } = fresh;
        let ghost queued = entry_views(waiting@);
        let e = waiting.remove(0);
        assert(entry_views(waiting@) =~= queued.drop_first());
        *self = MrfQueue { waiting, seen, capacity, receiver_taken, closed };
        Some(e)
    }

    /// Drops the receiving side: nothing more can be queued.
    pub fn close(&mut self)
        ensures
            final(self).is_closed(),
            final(self).queued() == old(self).queued(),
            final(self).pending() == old(self).pending(),
            final(self).limit() == old(self).limit(),
            final(self).taken() == old(self).taken(),
    {
        proof {
            use_type_invariant(&*self);
        }
        self.closed = true;
    }

    /// Marks an entry as done: it is no longer pending.
    pub fn mark_done(&mut self, entry: &MrfEntry)
        ensures
            final(self).pending() == old(self).pending().remove(entry@),
            final(self).queued() == old(self).queued(),
            final(self).limit() == old(self).limit(),
            final(self).taken() == old(self).taken(),
            final(self).is_closed() == old(self).is_closed(),
    {
        proof {
            use_type_invariant(&*self);
        }
        let i: usize = match position(&self.seen, entry) {
            Some(i) => i,
            None => {
                assert(self.pending() =~= self.pending().remove(entry@));
                return;
            },
        };
        let mut fresh = MrfQueue {
            waiting: Vec::new(),
            seen: Vec::new(),
            capacity: 1,
            receiver_taken: false,
            closed: false,
        };
        std::mem::swap(self, &mut fresh);
        let MrfQueue { waiting, mut seen, capacity, receiver_taken, closed } = fresh;
        let ghost names = entry_views(seen@);
        let _ = seen.remove(i);
        proof {
            let left = names.remove(i as int);
            assert(entry_views(seen@) =~= left);
            assert(names[i as int] == entry@);
            assert(left.no_duplicates());
            assert(left.to_set() =~= names.to_set().remove(entry@)) by {
                assert forall|x: (Seq<char>, Seq<char>)|
                    left.to_set().contains(x) <==> names.to_set().remove(entry@).contains(x) by {
                    if left.contains(x) {
                        let k = choose|k: int| 0 <= k < left.len() && left[k] == x;
                        if k < i {
                            assert(names[k] == x);
                        } else {
                            assert(names[k + 1] == x);
                        }
                    }
                    if names.contains(x) && x != entry@ {
                        let k = choose|k: int| 0 <= k < names.len() && names[k] == x;
                        if k < i {
                            assert(left[k] == x);
                        } else {
                            assert(left[k - 1] == x);
                        }
                    }
                }
            }
        }
        *self = MrfQueue { waiting, seen, capacity, receiver_taken, closed };
    }

    /// How many entries are pending.
    pub fn pending_count(&self) -> (r: usize)
        ensures
            r == self.pending().len(),
    {
        proof {
            use_type_invariant(self);
            entry_views(self.seen@).unique_seq_to_set();
        }
        self.seen.len()
    }
}

} // verus!
