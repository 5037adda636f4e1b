//! Plain text formatting of events: one line with the rendered message.
use vstd::prelude::*;
use vstd::string::*;
use log::Level as LogLevel;

use crate::events::{log_level_as_str, log_level_name};
use crate::text::{append_padded, pad_end, push_char};
use crate::utc::{format_utc, utc_text, UtcTime};

verus! {

/// A plain text event: the timestamp, the level padded to 5 characters and the rendered
/// message on one line.
pub open spec fn plain_text_event(timestamp: Seq<char>, level: LogLevel, message: Seq<char>) -> Seq<char> {
    timestamp + seq![' '] + pad_end(log_level_name(level), 5) + seq![' '] + message + seq!['\n']
}

/// Writes events as plain text.
pub struct PlainTextFormatter {}

impl PlainTextFormatter {
    /// The formatter.
    pub fn new() -> (r: PlainTextFormatter) {
        PlainTextFormatter {}
    }

    /// The text of an event with the given formatted timestamp, level and rendered message.
    pub fn format_event(&self, timestamp: &str, level: LogLevel, message: &str) -> (r: String)
        ensures
            r@ == plain_text_event(timestamp@, level, message@),
    {
        let mut out = String::from_str(timestamp);
        push_char(&mut out, ' ');
        append_padded(&mut out, log_level_as_str(level), 5);
        push_char(&mut out, ' ');
        out.append(message);
        push_char(&mut out, '\n');
        assert(out@ =~= plain_text_event(timestamp@, level, message@));
        out
    }

    /// The plain text of an event at `timestamp`, written in UTC to the second: `None`
    /// where the timestamp has no calendar text.
    pub fn write_event(&self, timestamp: UtcTime, level: LogLevel, message: &str) -> (r: Option<String>)
        ensures
            match utc_text(timestamp, "%FT%TZ"@) {
                Some(t) => r matches Some(s) && s@ == plain_text_event(t, level, message@),
                None => r is None,
            },
    {
        match format_utc(timestamp, "%FT%TZ") {
            Some(t) => Some(self.format_event(t.as_str(), level, message)),
            None => None,
        }
    }
}

} // verus!
