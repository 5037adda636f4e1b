//! The [`Delta`] type: a value accumulated over a time period that is sampled and moved on.
use vstd::prelude::*;

use crate::metric::{Extent, Timestamp};

verus! {

/// The extent of the period from `start` to `end`: the range between them where both are
/// known, the one that is known where only one is, and none where neither is.
pub open spec fn period_extent(start: Option<Timestamp>, end: Option<Timestamp>) -> Option<Extent> {
    match (start, end) {
        (Some(s), Some(e)) => Some(Extent::Range(s, e)),
        (Some(s), None) => Some(Extent::Point(s)),
        (None, Some(e)) => Some(Extent::Point(e)),
        (None, None) => None,
    }
}

/// A container for a delta-encoded metric: the start of the current time period and the
/// value accumulated over it.
pub struct Delta<T> {
    start: Option<Timestamp>,
    value: T,
}

impl<T> Delta<T> {
    /// The start of the current time period.
    pub closed spec fn start(&self) -> Option<Timestamp> {
        self.start
    }

    /// The value accumulated over the current time period.
    pub closed spec fn value(&self) -> T {
        self.value
    }

    /// A delta container whose period starts at `start`, holding `initial`.
    pub fn new(start: Option<Timestamp>, initial: T) -> (r: Self)
        ensures
            r.start() == start,
            r.value() == initial,
    {
        Delta { start, value: initial }
    }

    /// A delta container whose period starts at `start`, holding `T`'s default value, of
    /// which nothing is stated.
    pub fn new_default(start: Option<Timestamp>) -> (r: Self)
        where
            T: Default,
        ensures
            r.start() == start,
    {
        Self::new(start, T::default())
    }

    /// The start of the current time period.
    pub fn current_start(&self) -> (r: Option<&Timestamp>)
        ensures
            match r {
                Some(t) => self.start() == Some(*t),
                None => self.start() is None,
            },
    {
        self.start.as_ref()
    }

    /// Exclusive access to the value of the current time period: what is written through
    /// it becomes the value; the start is kept.
    pub fn current_value_mut(&mut self) -> (r: &mut T)
        ensures
            *r == old(self).value(),
            final(self).value() == *final(r),
            final(self).start() == old(self).start(),
    {
        &mut self.value
    }

    /// Shared access to the value of the current time period.
    pub fn current_value(&self) -> (r: &T)
        ensures
            *r == self.value(),
    {
        &self.value
    }

    /// Close the current time period at `end`: returns the extent from its start to `end`
    /// and exclusive access to the value accumulated over it. The next period starts at
    /// `end`; the caller resets the value for it through the returned reference.
    pub fn advance(&mut self, end: Option<Timestamp>) -> (r: (Option<Extent>, &mut T))
        ensures
            r.0 == period_extent(old(self).start(), end),
            *r.1 == old(self).value(),
            final(self).start() == end,
            final(self).value() == *final(r.1),
    {
        let start = self.start;
        self.start = end;
        let extent = match (start, end) {
            (Some(s), Some(e)) => Some(Extent::Range(s, e)),
            (Some(s), None) => Some(Extent::Point(s)),
            (None, Some(e)) => Some(Extent::Point(e)),
            (None, None) => None,
        };
        (extent, &mut self.value)
    }

    /// Close the current time period at `end` as [`Delta::advance`] does, handing back the
    /// value accumulated over it; the next period starts from `T`'s default value, of which
    /// nothing is stated.
    pub fn advance_default(&mut self, end: Option<Timestamp>) -> (r: (Option<Extent>, T))
        where
            T: Default,
        ensures
            r.0 == period_extent(old(self).start(), end),
            r.1 == old(self).value(),
            final(self).start() == end,
    {
        let (extent, value) = self.advance(end);
        let mut taken = T::default();
        core::mem::swap(value, &mut taken);
        (extent, taken)
    }
}

} // verus!
