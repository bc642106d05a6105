//! HTTP byte ranges.

use vstd::prelude::*;

use crate::split;
use crate::text;

verus! {

/// First and last byte that a `Range` header asks for: `bytes=N-M`, `bytes=N-` or, counted
/// from the end, `bytes=-N`. There is no range where the header has another form or asks
/// for nothing that is there.
pub open spec fn range_of(header: Seq<char>, total: int) -> Option<(int, int)> {
    if !text::has_prefix(header, "bytes="@) || total <= 0 {
        None
    } else {
        match split::split_pair(header.skip("bytes="@.len() as int), '-') {
            None => None,
            Some((left, right)) => if left.len() == 0 && right.len() == 0 {
                None
            } else if left.len() == 0 {
                match text::u64_value(right) {
                    Some(n) => if n == 0 {
                        None
                    } else {
                        Some((
                            if n >= total {
                                0
                            } else {
                                total - n
                            },
                            total - 1,
                        ))
                    },
                    None => None,
                }
            } else if right.len() == 0 {
                match text::u64_value(left) {
                    Some(n) => if n >= total {
                        None
                    } else {
                        Some((n as int, total - 1))
                    },
                    None => None,
                }
            } else {
                match (text::u64_value(left), text::u64_value(right)) {
                    (Some(a), Some(b)) => if a > b || a >= total {
                        None
                    } else {
                        Some((
                            a as int,
                            if b < total {
                                b as int
                            } else {
                                total - 1
                            },
                        ))
                    },
                    _ => None,
                }
            },
        }
    }
}

/// Reads a `Range` header against the size of the object.
pub fn parse_range(range_header: &str, total_size: u64) -> (r: Option<(u64, u64)>)
    ensures
        match r {
            Some((a, b)) => range_of(range_header@, total_size as int) == Some(
                (a as int, b as int),
            ),
            None => range_of(range_header@, total_size as int) is None,
        },
{
    let spec = match text::strip_prefix(range_header, "bytes=") {
        Some(s) => s,
        None => {
            return None;
        },
    };
    let (left, right) = match split::split_once(spec, '-') {
        Some(p) => p,
        None => {
            return None;
        },
    };
    if total_size == 0 {
        return None;
    }
    let no_left = left.as_str().is_empty();
    let no_right = right.as_str().is_empty();
    if no_left && no_right {
        return None;
    }
    if no_left {
        let suffix: u64 = match text::parse_u64(right.as_str()) {
            Some(n) => n,
            None => {
                return None;
            },
        };
        if suffix == 0 {
            return None;
        }
        let start: u64 = if suffix >= total_size {
            0
        } else {
            total_size - suffix
        };
        return Some((start, total_size - 1));
    }
    let start: u64 = match text::parse_u64(left.as_str()) {
        Some(n) => n,
        None => {
            return None;
        },
    };
    if no_right {
        if start >= total_size {
            return None;
        }
        return Some((start, total_size - 1));
    }
    let end: u64 = match text::parse_u64(right.as_str()) {
        Some(n) => n,
        None => {
            return None;
        },
    };
    if start > end || start >= total_size {
        return None;
    }
    let last: u64 = if end < total_size {
        end
    } else {
        total_size - 1
    };
    Some((start, last))
}

/// A range lies inside the object and holds at least one byte.
pub proof fn law_range_is_inside(header: Seq<char>, total: int)
    ensures
        range_of(header, total) matches Some((a, b)) ==> 0 <= a <= b < total,
{
}

} // verus!
