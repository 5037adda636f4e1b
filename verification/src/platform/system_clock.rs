//! The [`SystemClock`] type, and readings of the system clock against the Unix epoch.
use vstd::prelude::*;

use crate::metric::Timestamp;

verus! {

/// How far the system clock stood from the Unix epoch when read: after it or before it, by
/// whole seconds and the nanoseconds after them.
#[derive(Clone, Copy, Debug, PartialEq, Eq, Structural)]
pub enum EpochOffset {
    /// At or after the epoch by the seconds and nanoseconds.
    After(u64, u32),
    /// Before the epoch by the seconds and nanoseconds.
    Before(u64, u32),
}

/// The nanoseconds of the offset, negative before the epoch.
pub open spec fn offset_nanos(o: EpochOffset) -> int {
    match o {
        EpochOffset::After(s, n) => s * 1_000_000_000 + n,
        EpochOffset::Before(s, n) => -(s * 1_000_000_000 + n),
    }
}

/// The nanoseconds part of the offset is a fraction of a second.
pub open spec fn offset_wf(o: EpochOffset) -> bool {
    match o {
        EpochOffset::After(_, n) => n < 1_000_000_000,
        EpochOffset::Before(_, n) => n < 1_000_000_000,
    }
}

/// `std::time::UNIX_EPOCH.elapsed()`: how far the system time now is after the Unix
/// epoch, or, where it is before it, how far before (`SystemTimeError::duration`), as whole
/// seconds and the nanoseconds after them. std documents the nanoseconds of a `Duration` as
/// less than one second. Which reading comes back is left open: it depends on the time.
#[verifier::external_body]
pub(crate) fn epoch_offset_now() -> (r: EpochOffset)
    ensures
        offset_wf(r),
{
    match std::time::UNIX_EPOCH.elapsed() {
        Ok(d) => EpochOffset::After(d.as_secs(), d.subsec_nanos()),
        Err(e) => EpochOffset::Before(e.duration().as_secs(), e.duration().subsec_nanos()),
    }
}

/// The timestamp of a clock reading: the nanoseconds after the epoch, and none before it.
pub open spec fn timestamp_of_offset(o: EpochOffset) -> Option<Timestamp> {
    match o {
        EpochOffset::After(_, _) => Some(Timestamp { nanos: offset_nanos(o) as u128 }),
        EpochOffset::Before(_, _) => None,
    }
}

impl Timestamp {
    /// The timestamp of a clock reading: `None` for a reading before the Unix epoch.
    pub fn from_epoch_offset(o: EpochOffset) -> (r: Option<Timestamp>)
        requires
            offset_wf(o),
        ensures
            r == timestamp_of_offset(o),
            r matches Some(t) ==> t@ == offset_nanos(o),
    {
        match o {
            EpochOffset::After(s, n) => {
                assert(s * 1_000_000_000 <= u64::MAX * 1_000_000_000) by (nonlinear_arith)
                    requires
                        s <= u64::MAX,
                ;
                Some(Timestamp::from_unix_nanos(s as u128 * 1_000_000_000 + n as u128))
            },
            EpochOffset::Before(_, _) => None,
        }
    }
}

/// A clock based on the standard library's system time.
#[derive(Default, Debug, Clone, Copy)]
pub struct SystemClock {}

impl SystemClock {
    /// Create a new clock.
    pub fn new() -> (r: Self) {
        SystemClock {}
    }

    /// The time now, where the system time is not before the Unix epoch: the timestamp of
    /// a reading of the system clock, as [`Timestamp::from_epoch_offset`] gives it. Which
    /// reading is taken is left open.
    pub fn now(&self) -> (r: Option<Timestamp>)
        ensures
            exists|o: EpochOffset| offset_wf(o) && r == timestamp_of_offset(o),
    {
        let o = epoch_offset_now();
        let r = Timestamp::from_epoch_offset(o);
        assert(offset_wf(o) && r == timestamp_of_offset(o));
        r
    }
}

} // verus!
