//! What the scanner and the heal workers have done.

use std::time::Instant;

use vstd::prelude::*;

use crate::time;
use crate::time::Duration;

verus! {

/// Statistics of scanning and healing.
#[derive(Debug)]
pub struct HealStats {
    pub objects_scanned: u64,
    pub objects_healed: u64,
    pub last_scan_started: Option<Instant>,
    pub last_scan_duration_secs: u64,
    pub started_at: Instant,
}

/// A counter after one more event: it starts over when it is full.
pub open spec fn counted(n: u64) -> u64 {
    if n == u64::MAX {
        0
    } else {
        (n + 1) as u64
    }
}

fn count(n: u64) -> (r: u64)
    ensures
        r == counted(n),
{
    if n == u64::MAX {
        0
    } else {
        n + 1
    }
}

/// The duration of the last scan after a scan has ended: the time since it began, or what
/// it was where none had begun.
pub fn scan_duration(elapsed: Option<Duration>, before: u64) -> (r: u64)
    ensures
        r == (match elapsed {
            Some(d) => d.secs,
            None => before,
        }),
{
    match elapsed {
        Some(d) => d.as_secs(),
        None => before,
    }
}

impl HealStats {
    /// Statistics of a process that begins now.
    pub fn new() -> (r: Self)
        ensures
            r.objects_scanned == 0,
            r.objects_healed == 0,
            r.last_scan_started is None,
            r.last_scan_duration_secs == 0,
    {
        HealStats {
            objects_scanned: 0,
            objects_healed: 0,
            last_scan_started: None,
            last_scan_duration_secs: 0,
            started_at: time::instant_now(),
        }
    }

    /// Counts an object that was scanned.
    pub fn record_scan(&mut self)
        ensures
            *final(self) == (HealStats {
                objects_scanned: counted(old(self).objects_scanned),
                ..*old(self)
            }),
    {
        self.objects_scanned = count(self.objects_scanned);
    }

    /// Counts an object that was repaired.
    pub fn record_heal(&mut self)
        ensures
            *final(self) == (HealStats {
                objects_healed: counted(old(self).objects_healed),
                ..*old(self)
            }),
    {
        self.objects_healed = count(self.objects_healed);
    }

    /// Notes that a scan begins now.
    pub fn scan_started(&mut self)
        ensures
            final(self).last_scan_started is Some,
            *final(self) == (HealStats {
                last_scan_started: final(self).last_scan_started,
                ..*old(self)
            }),
    {
        self.last_scan_started = Some(time::instant_now());
    }

    /// Notes that the scan has ended. Its duration is the time since it began, by the
    /// monotonic clock; where none had begun nothing changes.
    pub fn scan_finished(&mut self)
        ensures
            match old(self).last_scan_started {
                Some(at) => exists|now: Instant|
                    final(self).last_scan_duration_secs == #[trigger] time::secs_between(at, now),
                None => *final(self) == *old(self),
            },
            *final(self) == (HealStats {
                last_scan_duration_secs: final(self).last_scan_duration_secs,
                ..*old(self)
            }),
    {
        let elapsed: Option<Duration> = match &self.last_scan_started {
            Some(at) => Some(time::elapsed_since(at)),
            None => None,
        };
        self.last_scan_duration_secs = scan_duration(elapsed, self.last_scan_duration_secs);
    }

    /// How long the last scan took, in seconds.
    pub fn last_scan_duration_secs(&self) -> (r: u64)
        ensures
            r == self.last_scan_duration_secs,
    {
        self.last_scan_duration_secs
    }

    /// How many seconds ago the last scan began, if one did.
    pub fn last_scan_started_secs_ago(&self) -> (r: Option<u64>)
        ensures
            match self.last_scan_started {
                Some(at) => r is Some && exists|now: Instant|
                    r->0 == #[trigger] time::secs_between(at, now),
                None => r is None,
            },
    {
        match &self.last_scan_started {
            Some(at) => Some(time::elapsed_since(at).as_secs()),
            None => None,
        }
    }

    /// How many seconds the process has been up, by the monotonic clock.
    pub fn uptime_secs(&self) -> (r: u64)
        ensures
            exists|now: Instant| r == #[trigger] time::secs_between(self.started_at, now),
    {
        time::elapsed_since(&self.started_at).as_secs()
    }
}

} // verus!
