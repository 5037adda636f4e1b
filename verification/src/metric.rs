//! Normalizing the time extents of sampled metrics.
//!
//! When a reporter samples its metrics it unifies their timestamps on a single clock
//! reading: a metric without an extent, or with a point extent, is stamped with the
//! reading; a metric over a range keeps the length of its range, moved to end at the
//! reading.
use vstd::prelude::*;
use vstd::string::*;

pub mod bucket_counts;
pub mod bucket_set;
pub mod delta;

verus! {

/// An error attempting to parse a bucket midpoint from text.
#[derive(Debug, PartialEq, Eq, Structural)]
pub struct ParsePointError {}

impl ParsePointError {
    /// The error's message.
    pub fn to_string(&self) -> (r: String)
        ensures
            r@ == "the input was not a valid point"@,
    {
        String::from_str("the input was not a valid point")
    }
}

/// A point in time, as nanoseconds since the Unix epoch.
#[derive(Clone, Copy, Debug, PartialEq, Eq, Structural)]
pub struct Timestamp {
    /// Nanoseconds since the Unix epoch.
    pub nanos: u128,
}

impl View for Timestamp {
    /// Nanoseconds since the Unix epoch.
    type V = u128;

    open spec fn view(&self) -> u128 {
        self.nanos
    }
}

impl Timestamp {
    /// The timestamp `nanos` nanoseconds after the Unix epoch.
    pub fn from_unix_nanos(nanos: u128) -> (r: Timestamp)
        ensures
            r@ == nanos,
    {
        Timestamp { nanos }
    }

    /// The nanoseconds since the Unix epoch.
    pub fn to_unix_nanos(&self) -> (r: u128)
        ensures
            r == self@,
    {
        self.nanos
    }

    /// The timestamp `secs` seconds after the Unix epoch.
    pub fn from_unix_secs(secs: u64) -> (r: Timestamp)
        ensures
            r@ == secs * 1_000_000_000,
    {
        assert(secs * 1_000_000_000 <= u64::MAX * 1_000_000_000) by (nonlinear_arith);
        Timestamp { nanos: secs as u128 * 1_000_000_000 }
    }
}

/// The time a sample covers: a single point, or the range from a start to an end.
#[derive(Clone, Copy, Debug, PartialEq, Eq, Structural)]
pub enum Extent {
    /// A single point in time.
    Point(Timestamp),
    /// The range from the first timestamp to the second.
    Range(Timestamp, Timestamp),
}

/// The range of the same length as `start..end` that ends at `now`, if `end` is not
/// before `start` and that range does not start before the epoch.
pub open spec fn normalized_range(now: u128, start: u128, end: u128) -> Option<(u128, u128)> {
    if start <= end && end - start <= now {
        Some(((now - (end - start)) as u128, now))
    } else {
        None
    }
}

/// The extent of a metric sampled at `now`: with no reading it is kept; with one, a range
/// is moved to end at the reading where that can be done, and is kept where not; a point
/// or a missing extent becomes the reading.
pub open spec fn normalized_extent(now: Option<Timestamp>, extent: Option<Extent>) -> Option<Extent> {
    match now {
        None => extent,
        Some(n) => match extent {
            Some(Extent::Range(s, e)) => match normalized_range(n@, s@, e@) {
                Some(r) => Some(Extent::Range(Timestamp { nanos: r.0 }, Timestamp { nanos: r.1 })),
                None => Some(Extent::Range(s, e)),
            },
            _ => Some(Extent::Point(n)),
        },
    }
}

/// Move the range `start..end` to end at `now`, keeping its length: `None` if the range
/// ends before it starts, or if the moved range would start before the epoch.
pub fn normalize_range(now: Timestamp, start: Timestamp, end: Timestamp) -> (r: Option<(Timestamp, Timestamp)>)
    ensures
        match r {
            Some((s, e)) => normalized_range(now@, start@, end@) == Some((s@, e@)),
            None => normalized_range(now@, start@, end@) is None,
        },
{
    if end.nanos < start.nanos {
        return None;
    }
    let len = end.nanos - start.nanos;
    if now.nanos < len {
        return None;
    }
    Some((Timestamp { nanos: now.nanos - len }, now))
}

/// The extent of a metric sampled at the clock reading `now`, if there is one.
pub fn normalize_extent(now: Option<Timestamp>, extent: Option<Extent>) -> (r: Option<Extent>)
    ensures
        r == normalized_extent(now, extent),
{
    match now {
        None => extent,
        Some(n) => match extent {
            Some(Extent::Range(s, e)) => match normalize_range(n, s, e) {
                Some((ns, ne)) => Some(Extent::Range(ns, ne)),
                None => Some(Extent::Range(s, e)),
            },
            _ => Some(Extent::Point(n)),
        },
    }
}

/// Sampled with a clock reading, every metric gets an extent; unless it is a range that
/// cannot be moved, it ends at the reading, and a range keeps its length.
pub proof fn law_normalized_extent_ends_now(n: Timestamp, extent: Option<Extent>)
    ensures
        normalized_extent(Some(n), extent) is Some,
        match extent {
            Some(Extent::Range(s, e)) => match normalized_extent(Some(n), extent) {
                Some(Extent::Range(s2, e2)) => if s@ <= e@ && e@ - s@ <= n@ {
                    e2 == n && e2@ - s2@ == e@ - s@
                } else {
                    s2 == s && e2 == e
                },
                _ => false,
            },
            _ => normalized_extent(Some(n), extent) == Some(Extent::Point(n)),
        },
{
}

/// Normalizing twice with the same reading changes nothing more than normalizing once.
pub proof fn law_normalize_extent_idempotent(n: Timestamp, extent: Option<Extent>)
    ensures
        normalized_extent(Some(n), normalized_extent(Some(n), extent)) == normalized_extent(
            Some(n),
            extent,
        ),
{
}

} // verus!
