//! How the Raft library's requests map onto the log.

use vstd::prelude::*;

verus! {

/// One end of a requested index range.
#[derive(Clone, Copy, Debug, PartialEq, Eq, Structural)]
pub enum RangeEnd {
    Included(u64),
    Excluded(u64),
    Unbounded,
}

/// A place in the log: the term of the entry and its index.
#[derive(Clone, Copy, Debug, PartialEq, Eq, Structural)]
pub struct LogPlace {
    pub term: u64,
    pub index: u64,
}

/// The first index of a requested range.
pub open spec fn range_start(start: RangeEnd) -> u64 {
    match start {
        RangeEnd::Included(i) => i,
        RangeEnd::Excluded(i) => if i < u64::MAX {
            (i + 1) as u64
        } else {
            i
        },
        RangeEnd::Unbounded => 0,
    }
}

/// The last index of a requested range.
pub open spec fn range_end(end: RangeEnd) -> u64 {
    match end {
        RangeEnd::Included(i) => i,
        RangeEnd::Excluded(i) => if i > 0 {
            (i - 1) as u64
        } else {
            i
        },
        RangeEnd::Unbounded => u64::MAX,
    }
}

/// The last index that is read: that of the range, as far as the log goes.
pub open spec fn effective_end(end: RangeEnd, last: Option<u64>) -> u64 {
    let top = match last {
        Some(i) => i,
        None => 0,
    };
    if top < range_end(end) {
        top
    } else {
        range_end(end)
    }
}

/// Which entries to read for a requested range, first and last included. `None` where
/// there is nothing to read.
pub fn read_bounds(start: RangeEnd, end: RangeEnd, last: Option<u64>) -> (r: Option<(u64, u64)>)
    ensures
        r == (if range_start(start) > effective_end(end, last) {
            None
        } else {
            Some((range_start(start), effective_end(end, last)))
        }),
{
    let first: u64 = match start {
        RangeEnd::Included(i) => i,
        RangeEnd::Excluded(i) => i.saturating_add(1),
        RangeEnd::Unbounded => 0,
    };
    let upto: u64 = match end {
        RangeEnd::Included(i) => i,
        RangeEnd::Excluded(i) => i.saturating_sub(1),
        RangeEnd::Unbounded => 0xffff_ffff_ffff_ffff,
    };
    let top: u64 = match last {
        Some(i) => i,
        None => 0,
    };
    let until: u64 = if top < upto {
        top
    } else {
        upto
    };
    if first > until {
        None
    } else {
        Some((first, until))
    }
}

/// What the log reports of itself: the place up to which it was purged, and its last
/// place.
#[derive(Clone, Copy, Debug, PartialEq, Eq, Structural)]
pub struct LogReport {
    pub purged: Option<LogPlace>,
    pub last: Option<LogPlace>,
}

/// Reports the state of a log. A log that does not start at index zero was purged up
/// to the index before its first one.
pub fn log_report(first: Option<u64>, last: Option<u64>, last_term: Option<u64>) -> (r: LogReport)
    ensures
        r == (match last {
            None => LogReport { purged: None, last: None },
            Some(l) => {
                let term = match last_term {
                    Some(t) => t,
                    None => 0,
                };
                let f = match first {
                    Some(f) => f,
                    None => l,
                };
                LogReport {
                    purged: if f > 0 {
                        Some(LogPlace { term, index: (f - 1) as u64 })
                    } else {
                        None
                    },
                    last: Some(LogPlace { term, index: l }),
                }
            },
        }),
{
    match last {
        None => LogReport { purged: None, last: None },
        Some(l) => {
            let term: u64 = match last_term {
                Some(t) => t,
                None => 0,
            };
            let f: u64 = match first {
                Some(f) => f,
                None => l,
            };
            let purged = if f > 0 {
                Some(LogPlace { term, index: f - 1 })
            } else {
                None
            };
            LogReport { purged, last: Some(LogPlace { term, index: l }) }
        },
    }
}

} // verus!
