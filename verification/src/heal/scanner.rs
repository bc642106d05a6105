//! When an object was last checked, so that none is checked too often.

use std::time::Instant;

use vstd::hash_map::StringHashMap;
use vstd::prelude::*;
use vstd::string::*;

use crate::time;
use crate::time::Duration;

verus! {

/// Tracks when each object was last checked.
pub struct ScanState {
    last_checked: StringHashMap<Instant>,
    heal_interval: Duration,
}

/// The name under which an object is tracked.
pub open spec fn object_name(bucket: Seq<char>, key: Seq<char>) -> Seq<char> {
    bucket + "/"@ + key
}

fn object_text(bucket: &str, key: &str) -> (r: String)
    ensures
        r@ == object_name(bucket@, key@),
{
    let mut out = bucket.to_owned();
    out.append("/");
    out.append(key);
    out
}

/// Whether an object is due, given the time since its last check.
pub fn due(since_check: Option<Duration>, interval: &Duration) -> (r: bool)
    requires
        since_check matches Some(d) ==> d.nanos < 1_000_000_000,
        interval.nanos < 1_000_000_000,
    ensures
        r == (match since_check {
            Some(d) => d.total_nanos() >= interval.total_nanos(),
            None => true,
        }),
{
    match since_check {
        Some(d) => d.at_least(interval),
        None => true,
    }
}

impl ScanState {
    /// The moments of the last checks, by object.
    pub closed spec fn checks(&self) -> Map<Seq<char>, Instant> {
        self.last_checked@
    }

    /// The shortest time between two checks of an object.
    pub closed spec fn interval(&self) -> Duration {
        self.heal_interval
    }

    #[verifier::type_invariant]
    spec fn well_formed(&self) -> bool {
        self.heal_interval.nanos < 1_000_000_000
    }

    /// A tracker that has seen nothing yet.
    pub fn new(heal_interval: Duration) -> (r: Self)
        requires
            heal_interval.nanos < 1_000_000_000,
        ensures
            r.checks() == Map::<Seq<char>, Instant>::empty(),
            r.interval() == heal_interval,
    {
        ScanState { last_checked: StringHashMap::new(), heal_interval }
    }

    /// Whether an object should be scanned: it was never checked, or its last check
    /// is at least the heal interval ago. Which moment it is now, the clock decides.
    pub fn should_scan(&self, bucket: &str, key: &str) -> (r: bool)
        ensures
            ({
                let name = object_name(bucket@, key@);
                if self.checks().contains_key(name) {
                    exists|now: Instant|
                        r == (#[trigger] time::nanos_between(self.checks()[name], now)
                            >= self.interval().total_nanos())
                } else {
                    r
                }
            }),
    {
        proof {
            use_type_invariant(self);
        }
        let name = object_text(bucket, key);
        let since_check = match self.last_checked.get(name.as_str()) {
            Some(at) => Some(time::elapsed_since(at)),
            None => None,
        };
        due(since_check, &self.heal_interval)
    }

    /// Marks an object as just checked.
    pub fn mark_checked(&mut self, bucket: &str, key: &str)
        ensures
            marks_one(*old(self), *final(self), bucket@, key@),
            final(self).interval() == old(self).interval(),
    {
        let at = time::instant_now();
        self.mark_checked_at(bucket, key, at);
        assert(self.checks() == old(self).checks().insert(object_name(bucket@, key@), at));
    }

    /// Marks an object as checked at a given moment.
    pub fn mark_checked_at(&mut self, bucket: &str, key: &str, at: Instant)
        ensures
            final(self).checks() == old(self).checks().insert(object_name(bucket@, key@), at),
            final(self).interval() == old(self).interval(),
    {
        proof {
            use_type_invariant(&*self);
        }
        let mut fresh = ScanState {
            last_checked: StringHashMap::new(),
            heal_interval: self.heal_interval,
        };
        std::mem::swap(self, &mut fresh);
        let ScanState { mut last_checked, heal_interval } = fresh;
        last_checked.insert(object_text(bucket, key), at);
        *self = ScanState { last_checked, heal_interval };
    }

    /// How many objects are tracked.
    pub fn checked_count(&self) -> (r: usize)
        ensures
            r == self.checks().len(),
    {
        self.last_checked.len()
    }
}

// --------------------------------------------------------------------- laws

/// No slash stands in the name.
pub open spec fn slash_free(s: Seq<char>) -> bool {
    forall|i: int| 0 <= i < s.len() ==> #[trigger] s[i] != '/'
}

/// Objects in buckets whose names hold no slash are told apart by the names under which they
/// are tracked.
pub proof fn law_objects_are_told_apart(
    bucket1: Seq<char>,
    key1: Seq<char>,
    bucket2: Seq<char>,
    key2: Seq<char>,
)
    requires
        slash_free(bucket1),
        slash_free(bucket2),
        object_name(bucket1, key1) == object_name(bucket2, key2),
    ensures
        bucket1 == bucket2,
        key1 == key2,
{
    reveal_strlit("/");
    let a = object_name(bucket1, key1);
    let b = object_name(bucket2, key2);
    let m = bucket1.len() as int;
    let n = bucket2.len() as int;
    assert(a[m] == '/');
    assert(b[n] == '/');
    if m < n {
        assert(b[m] == bucket2[m]);
    }
    if n < m {
        assert(a[n] == bucket1[n]);
    }
    assert forall|i: int| 0 <= i < m implies bucket1[i] == bucket2[i] by {
        assert(a[i] == bucket1[i]);
        assert(b[i] == bucket2[i]);
    }
    assert(bucket1 =~= bucket2);
    assert(a.skip(m + 1) =~= key1);
    assert(b.skip(n + 1) =~= key2);
}

/// The table after a number of marks, the moments left aside: the names of the objects.
pub open spec fn names_marked(marks: Seq<(Seq<char>, Seq<char>)>, n: nat) -> Set<Seq<char>>
    decreases n,
{
    if n == 0 {
        Set::empty()
    } else {
        names_marked(marks, (n - 1) as nat).insert(object_name(marks[n - 1].0, marks[n - 1].1))
    }
}

/// The objects among the first `n` marks, each once.
pub open spec fn marked(marks: Seq<(Seq<char>, Seq<char>)>, n: nat) -> Set<(Seq<char>, Seq<char>)>
    decreases n,
{
    if n == 0 {
        Set::empty()
    } else {
        marked(marks, (n - 1) as nat).insert(marks[n - 1])
    }
}

proof fn lemma_names_marked(marks: Seq<(Seq<char>, Seq<char>)>, n: nat)
    requires
        n <= marks.len(),
        forall|i: int| 0 <= i < marks.len() ==> slash_free((#[trigger] marks[i]).0),
    ensures
        names_marked(marks, n).finite(),
        marked(marks, n).finite(),
        names_marked(marks, n).len() == marked(marks, n).len(),
        forall|x: (Seq<char>, Seq<char>)| #[trigger]
            marked(marks, n).contains(x) ==> slash_free(x.0) && names_marked(marks, n).contains(
                object_name(x.0, x.1),
            ),
        forall|name: Seq<char>| #[trigger]
            names_marked(marks, n).contains(name) ==> exists|x: (Seq<char>, Seq<char>)| #[trigger]
                marked(marks, n).contains(x) && name == object_name(x.0, x.1),
    decreases n,
{
    if n > 0 {
        let m = (n - 1) as nat;
        lemma_names_marked(marks, m);
        let x = marks[n - 1];
        let name = object_name(x.0, x.1);
        if names_marked(marks, m).contains(name) {
            let y = choose|y: (Seq<char>, Seq<char>)| #[trigger]
                marked(marks, m).contains(y) && name == object_name(y.0, y.1);
            law_objects_are_told_apart(x.0, x.1, y.0, y.1);
            assert(x == y);
        } else {
            assert(!marked(marks, m).contains(x));
        }
        assert forall|other: Seq<char>| #[trigger] names_marked(marks, n).contains(
            other,
        ) implies exists|z: (Seq<char>, Seq<char>)| #[trigger]
            marked(marks, n).contains(z) && other == object_name(z.0, z.1) by {
            if other == name {
                assert(marked(marks, n).contains(x));
            } else {
                assert(names_marked(marks, m).contains(other));
                let z = choose|z: (Seq<char>, Seq<char>)| #[trigger]
                    marked(marks, m).contains(z) && other == object_name(z.0, z.1);
                assert(marked(marks, n).contains(z));
            }
        }
    }
}

/// One mark of an object leads from one state of the tracker to the next.
pub open spec fn marks_one(a: ScanState, b: ScanState, bucket: Seq<char>, key: Seq<char>) -> bool {
    exists|at: Instant| b.checks() == #[trigger] a.checks().insert(object_name(bucket, key), at)
}

proof fn lemma_history(history: Seq<ScanState>, marks: Seq<(Seq<char>, Seq<char>)>, n: nat)
    requires
        history.len() == marks.len() + 1,
        n <= marks.len(),
        history[0].checks() == Map::<Seq<char>, Instant>::empty(),
        forall|i: int|
            #![trigger marks[i]]
            0 <= i < marks.len() ==> marks_one(
                history[i],
                history[i + 1],
                marks[i].0,
                marks[i].1,
            ),
    ensures
        history[n as int].checks().dom() == names_marked(marks, n),
    decreases n,
{
    if n > 0 {
        lemma_history(history, marks, (n - 1) as nat);
        let x = marks[n - 1];
        let at = choose|at: Instant|
            history[n as int].checks() == #[trigger] history[n - 1].checks().insert(
                object_name(x.0, x.1),
                at,
            );
        assert(history[n as int].checks().dom() =~= history[n - 1].checks().dom().insert(
            object_name(x.0, x.1),
        ));
    } else {
        assert(history[0].checks().dom() =~= Set::<Seq<char>>::empty());
    }
}

/// After any history of marks, as many objects are tracked as different ones were marked,
/// where no bucket name holds a slash. Marking an object again leaves the number as it is, and
/// no mark makes it smaller.
pub proof fn law_count_is_of_distinct_objects(
    history: Seq<ScanState>,
    marks: Seq<(Seq<char>, Seq<char>)>,
    n: nat,
)
    requires
        history.len() == marks.len() + 1,
        n <= marks.len(),
        history[0].checks() == Map::<Seq<char>, Instant>::empty(),
        forall|i: int|
            #![trigger marks[i]]
            0 <= i < marks.len() ==> marks_one(
                history[i],
                history[i + 1],
                marks[i].0,
                marks[i].1,
            ),
        forall|i: int| 0 <= i < marks.len() ==> slash_free((#[trigger] marks[i]).0),
    ensures
        history[n as int].checks().len() == marked(marks, n).len(),
        n > 0 ==> history[n - 1].checks().len() <= history[n as int].checks().len(),
        n > 0 && marked(marks, (n - 1) as nat).contains(marks[n - 1]) ==> history[n
            as int].checks().len() == history[n - 1].checks().len(),
{
    lemma_history(history, marks, n);
    lemma_names_marked(marks, n);
    if n > 0 {
        lemma_history(history, marks, (n - 1) as nat);
        lemma_names_marked(marks, (n - 1) as nat);
        if marked(marks, (n - 1) as nat).contains(marks[n - 1]) {
            assert(marked(marks, n) =~= marked(marks, (n - 1) as nat));
        }
    }
}

} // verus!
