//! A collector that writes formatted events to standard output or standard error.
use vstd::prelude::*;

verus! {

/// A collector that writes each event, formatted by its formatter, on a line of standard
/// output, or of standard error.
pub struct StdioCollector<F> {
    use_stderr: bool,
    formatter: F,
}

impl<F> StdioCollector<F> {
    /// A collector writing to standard output.
    pub fn new(formatter: F) -> (r: StdioCollector<F>)
        ensures
            !r.uses_stderr_spec(),
            r.formatter_spec() == formatter,
    {
        StdioCollector { use_stderr: false, formatter }
    }

    /// A collector writing to standard error.
    pub fn new_stderr(formatter: F) -> (r: StdioCollector<F>)
        ensures
            r.uses_stderr_spec(),
            r.formatter_spec() == formatter,
    {
        StdioCollector { use_stderr: true, formatter }
    }

    /// Whether the collector writes to standard error rather than standard output.
    pub closed spec fn uses_stderr_spec(&self) -> bool {
        self.use_stderr
    }

    /// The formatter that events are written with.
    pub closed spec fn formatter_spec(&self) -> F {
        self.formatter
    }

    /// Whether the collector writes to standard error rather than standard output.
    pub fn uses_stderr(&self) -> (r: bool)
        ensures
            r == self.uses_stderr_spec(),
    {
        self.use_stderr
    }

    /// The formatter that events are written with.
    pub fn formatter(&self) -> (r: &F)
        ensures
            *r == self.formatter_spec(),
    {
        &self.formatter
    }
}

} // verus!
