//! A collector that discards events.
use vstd::prelude::*;
use vstd::string::*;

verus! {

/// The error of a collector that cannot fail.
#[derive(Debug)]
pub struct NoError {}

impl NoError {
    /// The error's message.
    pub fn to_string(&self) -> (r: String)
        ensures
            r@ == "No Error"@,
    {
        String::from_str("No Error")
    }

    /// A short description of the error.
    pub fn description(&self) -> (r: &str)
        ensures
            r@ == "No Error"@,
    {
        "No Error"
    }
}

/// A collector that accepts events and discards them.
pub struct SilentCollector {}

impl SilentCollector {
    /// The collector.
    pub fn new() -> (r: SilentCollector) {
        SilentCollector {}
    }

    /// Accept a batch of events by discarding them; this never fails.
    pub fn dispatch<E>(&self, events: &[E]) -> (r: Result<(), NoError>)
        ensures
            r is Ok,
    {
        Ok(())
    }
}

} // verus!
