//! The calendar text of timestamps in UTC, as the `chrono` crate writes it.
use vstd::prelude::*;
use vstd::string::*;
use vstd::arithmetic::div_mod::lemma_fundamental_div_mod_converse;

use crate::platform::system_clock::{offset_nanos, offset_wf, EpochOffset};


verus! {

/// The text that chrono's `DateTime::<Utc>::from_timestamp(secs, nsecs)`, formatted with the
/// pattern `fmt`, gives; `None` where chrono has no time for these numbers.
pub uninterp spec fn chrono_utc_text(secs: i64, nsecs: u32, fmt: Seq<char>) -> Option<Seq<char>>;

/// The patterns that timestamps are written with: to the second, the millisecond and the
/// nanosecond.
pub open spec fn known_pattern(fmt: Seq<char>) -> bool {
    fmt == "%FT%TZ"@ || fmt == "%FT%T%.3fZ"@ || fmt == "%FT%T%.9fZ"@
}

/// `chrono::DateTime::<chrono::Utc>::from_timestamp(secs, nsecs)` then `format(fmt)`
/// written to a `String`: the calendar text of that time, or `None` where chrono has no
/// time for these numbers. The patterns admitted are ones chrono reads without error, so
/// writing the text does not fail. What the text is, is left to chrono and named.
#[verifier::external_body]
fn utc_format(secs: i64, nsecs: u32, fmt: &str) -> (r: Option<String>)
    requires
        known_pattern(fmt@),
    ensures
        match r {
            Some(s) => chrono_utc_text(secs, nsecs, fmt@) == Some(s@),
            None => chrono_utc_text(secs, nsecs, fmt@) is None,
        },
{
    match chrono::DateTime::<chrono::Utc>::from_timestamp(secs, nsecs) {
        Some(t) => Some(t.format(fmt).to_string()),
        None => None,
    }
}

/// A moment in UTC as chrono's `DateTime<Utc>` is made from it: the whole seconds from the
/// Unix epoch (negative before it) and the nanoseconds after them.
#[derive(Clone, Copy, Debug, PartialEq, Eq, Structural)]
pub struct UtcTime {
    /// Whole seconds from the Unix epoch.
    pub secs: i64,
    /// Nanoseconds after `secs`.
    pub nanos: u32,
}

/// The moment of a clock reading: whole seconds rounded down and the nanoseconds after
/// them, where those seconds fit in an `i64`.
pub open spec fn utc_of_offset(o: EpochOffset) -> Option<UtcTime> {
    let total = offset_nanos(o);
    let secs = total / 1_000_000_000;
    if i64::MIN <= secs <= i64::MAX {
        Some(UtcTime { secs: secs as i64, nanos: (total % 1_000_000_000) as u32 })
    } else {
        None
    }
}

impl UtcTime {
    /// The moment of a clock reading, before the Unix epoch too: `None` only where its
    /// whole seconds do not fit in an `i64`.
    pub fn from_epoch_offset(o: EpochOffset) -> (r: Option<UtcTime>)
        requires
            offset_wf(o),
        ensures
            r == utc_of_offset(o),
    {
        match o {
            EpochOffset::After(s, n) => {
                proof {
                    lemma_fundamental_div_mod_converse(offset_nanos(o), 1_000_000_000, s as int, n as int);
                }
                if s > 0x7fff_ffff_ffff_ffff {
                    return None;
                }
                Some(UtcTime { secs: s as i64, nanos: n })
            },
            EpochOffset::Before(s, n) => {
                if n == 0 {
                    proof {
                        lemma_fundamental_div_mod_converse(offset_nanos(o), 1_000_000_000, -(s as int), 0);
                    }
                    if s > 0x8000_0000_0000_0000 {
                        return None;
                    }
                    let secs: i64 = if s == 0x8000_0000_0000_0000 {
                        i64::MIN
                    } else {
                        -(s as i64)
                    };
                    Some(UtcTime { secs, nanos: 0 })
                } else {
                    proof {
                        lemma_fundamental_div_mod_converse(
                            offset_nanos(o),
                            1_000_000_000,
                            -(s as int) - 1,
                            1_000_000_000 - n as int,
                        );
                    }
                    if s > 0x7fff_ffff_ffff_ffff {
                        return None;
                    }
                    Some(UtcTime { secs: -(s as i64) - 1, nanos: 1_000_000_000 - n })
                }
            },
        }
    }
}

/// The calendar text of `t` in UTC with the pattern `fmt`, if there is one.
pub open spec fn utc_text(t: UtcTime, fmt: Seq<char>) -> Option<Seq<char>> {
    chrono_utc_text(t.secs, t.nanos, fmt)
}

/// The calendar text of `t` in UTC with the pattern `fmt`: `None` where chrono's calendar
/// does not reach it.
pub fn format_utc(t: UtcTime, fmt: &str) -> (r: Option<String>)
    requires
        known_pattern(fmt@),
    ensures
        match r {
            Some(s) => utc_text(t, fmt@) == Some(s@),
            None => utc_text(t, fmt@) is None,
        },
{
    utc_format(t.secs, t.nanos, fmt)
}

} // verus!
