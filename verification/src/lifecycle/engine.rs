//! One enforcement pass: what is asked of the store for each object version, what is
//! counted, and which multipart uploads are stale.

use vstd::prelude::*;

use super::evaluator;
use super::evaluator::Evaluator;
use super::types;
use super::types::{Action, BucketLifecycleConfiguration, Event, LifecycleRule, ObjectOpts};
use crate::storage::ObjectMeta;
use crate::text;

verus! {

/// Counters of a pass.
#[derive(Clone, Copy, Debug, PartialEq, Eq, Structural)]
pub struct PassStats {
    pub buckets_scanned: usize,
    pub objects_examined: usize,
    pub deleted: usize,
    pub deleted_versions: usize,
    pub delete_markers_reaped: usize,
    pub multipart_aborted: usize,
}

impl Default for PassStats {
    fn default() -> (r: Self)
        ensures
            r == (PassStats {
                buckets_scanned: 0,
                objects_examined: 0,
                deleted: 0,
                deleted_versions: 0,
                delete_markers_reaped: 0,
                multipart_aborted: 0,
            }),
    {
        PassStats {
            buckets_scanned: 0,
            objects_examined: 0,
            deleted: 0,
            deleted_versions: 0,
            delete_markers_reaped: 0,
            multipart_aborted: 0,
        }
    }
}

/// What the store is asked to do for an object version.
#[derive(Clone, Copy, Debug, PartialEq, Eq, Structural)]
pub enum StoreStep {
    /// Nothing is asked.
    Nothing,
    /// Remove the object.
    DeleteObject,
    /// Put a delete marker on top.
    AddDeleteMarker,
    /// Remove this version.
    DeleteVersion,
}

/// What the store is asked to do to carry out an action on a version.
pub open spec fn step_for(action: Action, version_id: Seq<char>) -> StoreStep {
    let plain = version_id.len() == 0;
    match action {
        Action::Noop => StoreStep::Nothing,
        Action::Delete => if plain {
            StoreStep::DeleteObject
        } else {
            StoreStep::AddDeleteMarker
        },
        Action::DeleteVersion => if plain {
            StoreStep::Nothing
        } else {
            StoreStep::DeleteVersion
        },
        Action::DeleteAllVersions => StoreStep::DeleteObject,
        Action::DeleteExpiredMarker => if plain {
            StoreStep::DeleteObject
        } else {
            StoreStep::DeleteVersion
        },
    }
}

/// Decides what the store is asked to do. Without a version id an object is removed for
/// good; the latest of several versions gets a delete marker.
pub fn next_step(obj: &ObjectOpts, event: &Event) -> (r: StoreStep)
    ensures
        r == step_for(event.action, obj.version_id@),
{
    let plain = obj.version_id.as_str().is_empty();
    match event.action {
        Action::Noop => StoreStep::Nothing,
        Action::Delete => if plain {
            StoreStep::DeleteObject
        } else {
            StoreStep::AddDeleteMarker
        },
        Action::DeleteVersion => if plain {
            StoreStep::Nothing
        } else {
            StoreStep::DeleteVersion
        },
        Action::DeleteAllVersions => StoreStep::DeleteObject,
        Action::DeleteExpiredMarker => if plain {
            StoreStep::DeleteObject
        } else {
            StoreStep::DeleteVersion
        },
    }
}

/// The counters after an action was carried out.
pub open spec fn counted(stats: PassStats, action: Action) -> PassStats {
    match action {
        Action::Noop => stats,
        Action::Delete => PassStats { deleted: (stats.deleted + 1) as usize, ..stats },
        Action::DeleteAllVersions => PassStats { deleted: (stats.deleted + 1) as usize, ..stats },
        Action::DeleteVersion => PassStats {
            deleted_versions: (stats.deleted_versions + 1) as usize,
            ..stats
        },
        Action::DeleteExpiredMarker => PassStats {
            delete_markers_reaped: (stats.delete_markers_reaped + 1) as usize,
            ..stats
        },
    }
}

/// The options of an object in an unversioned bucket.
pub fn unversioned_opts(key: &str, created_at: u64, is_delete_marker: bool, size: u64) -> (r:
    ObjectOpts)
    ensures
        r.name@ == key@,
        r.mod_time_unix_secs == created_at,
        r.version_id@ == Seq::<char>::empty(),
        r.is_latest,
        r.is_delete_marker == is_delete_marker,
        r.num_versions == 1,
        r.successor_mod_time_unix_secs == 0,
        r.size == size,
{
    ObjectOpts {
        name: key.to_owned(),
        mod_time_unix_secs: created_at,
        version_id: String::new(),
        is_latest: true,
        is_delete_marker,
        num_versions: 1,
        successor_mod_time_unix_secs: 0,
        size,
    }
}

/// The options are those of the `i`-th version of a key, newest first.
pub open spec fn is_version_opts(
    o: ObjectOpts,
    key: Seq<char>,
    versions: Seq<ObjectMeta>,
    i: int,
) -> bool {
    &&& o.name@ == key
    &&& o.mod_time_unix_secs == versions[i].created_at
    &&& o.version_id@ == versions[i].version_id@
    &&& o.is_latest == versions[i].is_latest
    &&& o.is_delete_marker == versions[i].is_delete_marker
    &&& o.num_versions == versions.len()
    &&& o.successor_mod_time_unix_secs == (if i == 0 {
        0
    } else {
        versions[i - 1].created_at
    })
    &&& o.size == versions[i].size
}

/// The options of the `i`-th version of a key. The next-newer version replaced it.
pub fn version_opts(key: &str, versions: &Vec<ObjectMeta>, i: usize) -> (r: ObjectOpts)
    requires
        i < versions@.len(),
    ensures
        is_version_opts(r, key@, versions@, i as int),
{
    let meta = &versions[i];
    let successor: u64 = if i == 0 {
        0
    } else {
        versions[i - 1].created_at
    };
    ObjectOpts {
        name: key.to_owned(),
        mod_time_unix_secs: meta.created_at,
        version_id: meta.version_id.clone(),
        is_latest: meta.is_latest,
        is_delete_marker: meta.is_delete_marker,
        num_versions: versions.len(),
        successor_mod_time_unix_secs: successor,
        size: meta.size,
    }
}

/// Some rule is enabled.
pub open spec fn some_enabled(rules: Seq<LifecycleRule>) -> bool {
    exists|i: int| 0 <= i < rules.len() && types::enabled(#[trigger] rules[i])
}

/// Whether any rule is enabled; otherwise a bucket need not be listed at all.
pub fn any_enabled(cfg: &BucketLifecycleConfiguration) -> (r: bool)
    ensures
        r == some_enabled(cfg.rules@),
{
    let mut i: usize = 0;
    while i < cfg.rules.len()
        invariant
            i <= cfg.rules@.len(),
            forall|k: int| 0 <= k < i ==> !types::enabled(#[trigger] cfg.rules@[k]),
        decreases cfg.rules@.len() - i,
    {
        if types::is_enabled(&cfg.rules[i]) {
            return true;
        }
        i = i + 1;
    }
    false
}

/// A pass over the buckets: its counters, and how many noncurrent versions of the
/// present key were kept so far.
#[derive(Clone, Copy, Debug, PartialEq, Eq, Structural)]
pub struct LifecycleEngine {
    pub stats: PassStats,
    pub newer_noncurrent: usize,
}

impl LifecycleEngine {
    /// A pass that has not begun.
    pub fn new() -> (r: Self)
        ensures
            r.stats == (PassStats {
                buckets_scanned: 0,
                objects_examined: 0,
                deleted: 0,
                deleted_versions: 0,
                delete_markers_reaped: 0,
                multipart_aborted: 0,
            }),
            r.newer_noncurrent == 0,
    {
        LifecycleEngine { stats: PassStats::default(), newer_noncurrent: 0 }
    }

    /// Goes on to the next bucket.
    pub fn next_bucket(&mut self)
        requires
            old(self).stats.buckets_scanned < usize::MAX,
        ensures
            final(self).stats == (PassStats {
                buckets_scanned: (old(self).stats.buckets_scanned + 1) as usize,
                ..old(self).stats
            }),
            final(self).newer_noncurrent == 0,
    {
        self.stats.buckets_scanned = self.stats.buckets_scanned + 1;
        self.newer_noncurrent = 0;
    }

    /// Goes on to the next key.
    pub fn next_key(&mut self)
        ensures
            final(self).stats == old(self).stats,
            final(self).newer_noncurrent == 0,
    {
        self.newer_noncurrent = 0;
    }

    /// Examines a version: decides what is asked of the store, given the versions of the
    /// key that were kept so far.
    pub fn examine(
        &mut self,
        cfg: &BucketLifecycleConfiguration,
        obj: &ObjectOpts,
        now: u64,
    ) -> (r: (Event, StoreStep))
        requires
            old(self).stats.objects_examined < usize::MAX,
        ensures
            r.0@ == evaluator::decision(cfg.rules@, *obj, now, old(self).newer_noncurrent),
            r.1 == step_for(r.0.action, obj.version_id@),
            final(self).stats == (PassStats {
                objects_examined: (old(self).stats.objects_examined + 1) as usize,
                ..old(self).stats
            }),
            final(self).newer_noncurrent == old(self).newer_noncurrent,
    {
        self.stats.objects_examined = self.stats.objects_examined + 1;
        let event = Evaluator::new(cfg).eval(obj, now, self.newer_noncurrent);
        let step = next_step(obj, &event);
        (event, step)
    }

    /// Takes note of what came of a step: the counters, and whether a noncurrent version
    /// was kept.
    pub fn settle(&mut self, obj: &ObjectOpts, event: &Event, step: StoreStep, succeeded: bool)
        requires
            old(self).stats.deleted < usize::MAX,
            old(self).stats.deleted_versions < usize::MAX,
            old(self).stats.delete_markers_reaped < usize::MAX,
            old(self).newer_noncurrent < usize::MAX,
        ensures
            ({
                let acted = !(step is Nothing) && succeeded;
                &&& final(self).stats == (if acted {
                    counted(old(self).stats, event.action)
                } else {
                    old(self).stats
                })
                &&& final(self).newer_noncurrent == (if !obj.is_latest && !acted {
                    old(self).newer_noncurrent + 1
                } else {
                    old(self).newer_noncurrent as int
                })
            }),
    {
        let mut acted = false;
        if succeeded {
            match step {
                StoreStep::Nothing => {},
                _ => {
                    acted = true;
                    match event.action {
                        Action::Noop => {},
                        Action::Delete | Action::DeleteAllVersions => {
                            self.stats.deleted = self.stats.deleted + 1;
                        },
                        Action::DeleteVersion => {
                            self.stats.deleted_versions = self.stats.deleted_versions + 1;
                        },
                        Action::DeleteExpiredMarker => {
                            self.stats.delete_markers_reaped = self.stats.delete_markers_reaped + 1;
                        },
                    }
                },
            }
        }
        if !obj.is_latest && !acted {
            self.newer_noncurrent = self.newer_noncurrent + 1;
        }
    }

    /// Counts aborted uploads.
    pub fn count_aborted(&mut self, n: usize)
        requires
            old(self).stats.multipart_aborted + n <= usize::MAX,
        ensures
            final(self).stats == (PassStats {
                multipart_aborted: (old(self).stats.multipart_aborted + n) as usize,
                ..old(self).stats
            }),
            final(self).newer_noncurrent == old(self).newer_noncurrent,
    {
        self.stats.multipart_aborted = self.stats.multipart_aborted + n;
    }
}

// ---------------------------------------------------------- stale multiparts

/// After how many days a rule aborts incomplete uploads, if it does.
pub open spec fn abort_days(rule: LifecycleRule) -> Option<i32> {
    if !types::enabled(rule) {
        None
    } else {
        match rule.abort_incomplete_multipart_upload {
            Some(a) => a.days_after_initiation,
            None => None,
        }
    }
}

/// The shortest setting among the first `n` rules.
pub open spec fn shortest_abort(rules: Seq<LifecycleRule>, n: nat) -> Option<i32>
    decreases n,
{
    if n == 0 {
        None
    } else {
        let before = shortest_abort(rules, (n - 1) as nat);
        match abort_days(rules[n - 1]) {
            None => before,
            Some(d) => match before {
                None => Some(d),
                Some(b) => if d < b {
                    Some(d)
                } else {
                    Some(b)
                },
            },
        }
    }
}

/// Uploads last touched at or before this moment are stale, if any are.
pub open spec fn stale_before(rules: Seq<LifecycleRule>, now: u64) -> Option<u64> {
    match shortest_abort(rules, rules.len()) {
        Some(days) => if days < 0 {
            None
        } else if now >= days * 86_400 {
            Some((now - days * 86_400) as u64)
        } else {
            Some(0)
        },
        None => None,
    }
}

/// The moment before which uploads are stale. The shortest setting among the enabled
/// rules applies.
pub fn abort_cutoff(cfg: &BucketLifecycleConfiguration, now: u64) -> (r: Option<u64>)
    ensures
        r == stale_before(cfg.rules@, now),
{
    let mut shortest: Option<i32> = None;
    let mut i: usize = 0;
    while i < cfg.rules.len()
        invariant
            i <= cfg.rules@.len(),
            shortest == shortest_abort(cfg.rules@, i as nat),
        decreases cfg.rules@.len() - i,
    {
        let rule = &cfg.rules[i];
        if types::is_enabled(rule) {
            if let Some(a) = &rule.abort_incomplete_multipart_upload {
                if let Some(d) = a.days_after_initiation {
                    shortest = match shortest {
                        None => Some(d),
                        Some(b) => if d < b {
                            Some(d)
                        } else {
                            Some(b)
                        },
                    };
                }
            }
        }
        i = i + 1;
    }
    match shortest {
        Some(days) => if days < 0 {
            None
        } else {
            Some(now.saturating_sub(days as u64 * 86_400))
        },
        None => None,
    }
}

/// An upload directory that was found on a disk.
#[derive(Clone, Debug)]
pub struct FoundUpload {
    pub key: String,
    pub upload_id: String,
    /// Unix seconds of the last modification, zero where it is not known.
    pub modified_secs: u64,
}

/// The upload is stale.
pub open spec fn is_stale(u: FoundUpload, cutoff: u64) -> bool {
    0 < u.modified_secs <= cutoff
}

/// `a` sorts before `b`: by key, and then by upload id.
pub open spec fn upload_less(a: (Seq<char>, Seq<char>), b: (Seq<char>, Seq<char>)) -> bool {
    text::str_less_spec(a.0, b.0) || (a.0 == b.0 && text::str_less_spec(a.1, b.1))
}

/// Adds an upload to an ascending list, unless it is there.
pub open spec fn add_upload(
    s: Seq<(Seq<char>, Seq<char>)>,
    x: (Seq<char>, Seq<char>),
) -> Seq<(Seq<char>, Seq<char>)>
    decreases s.len(),
{
    if s.len() == 0 {
        seq![x]
    } else if s[0] == x {
        s
    } else if upload_less(x, s[0]) {
        seq![x] + s
    } else {
        seq![s[0]] + add_upload(s.drop_first(), x)
    }
}

/// The stale uploads among the first `n` found, each once, in ascending order.
pub open spec fn stale_among(found: Seq<FoundUpload>, cutoff: u64, n: nat) -> Seq<
    (Seq<char>, Seq<char>),
>
    decreases n,
{
    if n == 0 {
        Seq::empty()
    } else {
        let before = stale_among(found, cutoff, (n - 1) as nat);
        if is_stale(found[n - 1], cutoff) {
            add_upload(before, (found[n - 1].key@, found[n - 1].upload_id@))
        } else {
            before
        }
    }
}

proof fn lemma_add_upload(s: Seq<(Seq<char>, Seq<char>)>, x: (Seq<char>, Seq<char>), p: int)
    requires
        0 <= p <= s.len(),
        forall|j: int| 0 <= j < p ==> (#[trigger] s[j]) != x && !upload_less(x, s[j]),
        p < s.len() ==> s[p] == x || upload_less(x, s[p]),
    ensures
        add_upload(s, x) == (if p < s.len() && s[p] == x {
            s
        } else {
            s.insert(p, x)
        }),
    decreases s.len(),
{
    if s.len() == 0 {
        assert(s.insert(p, x) =~= seq![x]);
    } else if p == 0 {
        if s[0] != x {
            assert(s.insert(p, x) =~= seq![x] + s);
        }
    } else {
        let t = s.drop_first();
        assert(s[0] != x);
        assert forall|j: int| 0 <= j < p - 1 implies (#[trigger] t[j]) != x && !upload_less(
            x,
            t[j],
        ) by {
            assert(t[j] == s[j + 1]);
        }
        lemma_add_upload(t, x, p - 1);
        if p < s.len() && s[p] == x {
            assert(t[p - 1] == x);
            assert(s =~= seq![s[0]] + t);
        } else {
            assert(s.insert(p, x) =~= seq![s[0]] + t.insert(p - 1, x));
        }
    }
}

/// Every stale upload is listed, and nothing else.
pub proof fn law_exactly_the_stale_are_aborted(found: Seq<FoundUpload>, cutoff: u64, n: nat)
    requires
        n <= found.len(),
    ensures
        forall|x: (Seq<char>, Seq<char>)| #[trigger]
            stale_among(found, cutoff, n).contains(x) <==> stale_found(found, cutoff, n, x),
    decreases n,
{
    if n > 0 {
        law_exactly_the_stale_are_aborted(found, cutoff, (n - 1) as nat);
        let before = stale_among(found, cutoff, (n - 1) as nat);
        let u = found[n - 1];
        let y = (u.key@, u.upload_id@);
        lemma_add_contains(before, y);
        assert forall|x: (Seq<char>, Seq<char>)| #[trigger]
            stale_among(found, cutoff, n).contains(x) <==> stale_found(found, cutoff, n, x) by {
            if stale_found(found, cutoff, (n - 1) as nat, x) {
                let i = choose|i: int|
                    0 <= i < n - 1 && is_stale(#[trigger] found[i], cutoff) && x == (
                        found[i].key@,
                        found[i].upload_id@,
                    );
                assert(stale_found(found, cutoff, n, x));
            }
            if is_stale(u, cutoff) && x == y {
                assert(is_stale(found[n - 1], cutoff));
            }
            if stale_found(found, cutoff, n, x) {
                let i = choose|i: int|
                    0 <= i < n && is_stale(#[trigger] found[i], cutoff) && x == (
                        found[i].key@,
                        found[i].upload_id@,
                    );
                if i < n - 1 {
                    assert(stale_found(found, cutoff, (n - 1) as nat, x));
                }
            }
        }
    }
}

/// `x` is one of the first `n` found uploads and is stale.
pub open spec fn stale_found(
    found: Seq<FoundUpload>,
    cutoff: u64,
    n: nat,
    x: (Seq<char>, Seq<char>),
) -> bool {
    exists|i: int|
        0 <= i < n && is_stale(#[trigger] found[i], cutoff) && x == (
            found[i].key@,
            found[i].upload_id@,
        )
}

proof fn lemma_add_contains(s: Seq<(Seq<char>, Seq<char>)>, y: (Seq<char>, Seq<char>))
    ensures
        forall|x: (Seq<char>, Seq<char>)| #[trigger]
            add_upload(s, y).contains(x) <==> s.contains(x) || x == y,
    decreases s.len(),
{
    let r = add_upload(s, y);
    if s.len() == 0 {
        assert(r[0] == y);
    } else if s[0] == y {
    } else if upload_less(y, s[0]) {
        assert forall|x: (Seq<char>, Seq<char>)| #[trigger] r.contains(x) <==> s.contains(x) || x
            == y by {
            if r.contains(x) {
                let k = choose|k: int| 0 <= k < r.len() && r[k] == x;
                if k > 0 {
                    assert(s[k - 1] == x);
                }
            }
            if s.contains(x) {
                let k = choose|k: int| 0 <= k < s.len() && s[k] == x;
                assert(r[k + 1] == x);
            }
            assert(r[0] == y);
        }
    } else {
        let t = s.drop_first();
        lemma_add_contains(t, y);
        let u = add_upload(t, y);
        assert(r =~= seq![s[0]] + u);
        assert forall|x: (Seq<char>, Seq<char>)| #[trigger] r.contains(x) <==> s.contains(x) || x
            == y by {
            if r.contains(x) {
                let k = choose|k: int| 0 <= k < r.len() && r[k] == x;
                if k == 0 {
                    assert(s[0] == x);
                } else {
                    assert(u[k - 1] == x);
                    assert(u.contains(x));
                    if x != y {
                        let m = choose|m: int| 0 <= m < t.len() && t[m] == x;
                        assert(s[m + 1] == x);
                    }
                }
            }
            if s.contains(x) || x == y {
                if s[0] == x {
                    assert(r[0] == x);
                } else {
                    if s.contains(x) {
                        let k = choose|k: int| 0 <= k < s.len() && s[k] == x;
                        assert(t[k - 1] == x);
                        assert(t.contains(x));
                    }
                    assert(u.contains(x));
                    let m = choose|m: int| 0 <= m < u.len() && u[m] == x;
                    assert(r[m + 1] == x);
                }
            }
        }
    }
}

fn name_less(a: &(String, String), b: &(String, String)) -> (r: bool)
    ensures
        r == upload_less((a.0@, a.1@), (b.0@, b.1@)),
{
    text::str_less(a.0.as_str(), b.0.as_str()) || (text::str_eq(a.0.as_str(), b.0.as_str())
        && text::str_less(a.1.as_str(), b.1.as_str()))
}

fn name_eq(a: &(String, String), b: &(String, String)) -> (r: bool)
    ensures
        r == ((a.0@, a.1@) == (b.0@, b.1@)),
{
    text::str_eq(a.0.as_str(), b.0.as_str()) && text::str_eq(a.1.as_str(), b.1.as_str())
}

/// Selects the stale uploads: key and upload id, each once, in ascending order. The same
/// upload may be found on several disks.
pub fn stale_uploads(found: &Vec<FoundUpload>, cutoff: u64) -> (r: Vec<(String, String)>)
    ensures
        crate::storage::pair_views(r@) == stale_among(found@, cutoff, found@.len()),
{
    let mut out: Vec<(String, String)> = Vec::new();
    let mut i: usize = 0;
    assert(crate::storage::pair_views(out@) =~= Seq::<(Seq<char>, Seq<char>)>::empty());
    while i < found.len()
        invariant
            i <= found@.len(),
            crate::storage::pair_views(out@) == stale_among(found@, cutoff, i as nat),
        decreases found@.len() - i,
    {
        let u = &found[i];
        if u.modified_secs > 0 && u.modified_secs <= cutoff {
            let name = (u.key.clone(), u.upload_id.clone());
            let ghost x = (u.key@, u.upload_id@);
            let ghost before = crate::storage::pair_views(out@);
            let mut p: usize = 0;
            while p < out.len() && !name_eq(&out[p], &name) && !name_less(&name, &out[p])
                invariant
                    p <= out@.len(),
                    (name.0@, name.1@) == x,
                    before == crate::storage::pair_views(out@),
                    forall|j: int|
                        0 <= j < p ==> (#[trigger] before[j]) != x && !upload_less(x, before[j]),
                ensures
                    p <= out@.len(),
                    forall|j: int|
                        0 <= j < p ==> (#[trigger] before[j]) != x && !upload_less(x, before[j]),
                    p < out@.len() ==> before[p as int] == x || upload_less(x, before[p as int]),
                decreases out@.len() - p,
            {
                p = p + 1;
            }
            proof {
                lemma_add_upload(before, x, p as int);
            }
            if !(p < out.len() && name_eq(&out[p], &name)) {
                out.insert(p, name);
                assert(crate::storage::pair_views(out@) =~= before.insert(p as int, x));
            }
        }
        i = i + 1;
    }
    out
}

} // verus!
