//! Raw text formatting of events: a header line and one line per property.
use vstd::prelude::*;
use vstd::string::*;
use log::Level as LogLevel;

use crate::events::{log_level_as_str, log_level_name};
use crate::formatters::json::{names_sorted, props_view};
use crate::utc::{format_utc, utc_text, UtcTime};
use crate::text::{append_padded, pad_end, push_char};

verus! {

/// The property lines of a raw event: `  name: value` for each property.
pub open spec fn raw_props(props: Seq<(Seq<char>, Seq<char>)>) -> Seq<char>
    decreases props.len(),
{
    if props.len() == 0 {
        Seq::empty()
    } else {
        raw_props(props.drop_last()) + seq![' ', ' '] + props.last().0 + seq![':', ' '] + props.last().1
            + seq!['\n']
    }
}

/// A raw event: `emit`, the timestamp, the level padded to 5 characters and the
/// template on one line, then a line per property.
pub open spec fn raw_event(
    timestamp: Seq<char>,
    level: LogLevel,
    template: Seq<char>,
    props: Seq<(Seq<char>, Seq<char>)>,
) -> Seq<char> {
    seq!['e', 'm', 'i', 't', ' '] + timestamp + seq![' '] + pad_end(log_level_name(level), 5) + seq![' ']
        + template + seq!['\n'] + raw_props(props)
}

/// Writes events as raw text.
pub struct RawFormatter {}

impl RawFormatter {
    /// The formatter.
    pub fn new() -> (r: RawFormatter) {
        RawFormatter {}
    }

    /// The raw text of an event with the given formatted timestamp, level, template and
    /// properties, each property value already formatted as text.
    pub fn format_event(
        &self,
        timestamp: &str,
        level: LogLevel,
        template: &str,
        properties: &[(&str, String)],
    ) -> (r: String)
        requires
            names_sorted(props_view(properties@)),
        ensures
            r@ == raw_event(timestamp@, level, template@, props_view(properties@)),
    {
        let mut out = String::new();
        out.append("emit ");
        proof {
            reveal_strlit("emit ");
        }
        out.append(timestamp);
        push_char(&mut out, ' ');
        append_padded(&mut out, log_level_as_str(level), 5);
        push_char(&mut out, ' ');
        out.append(template);
        push_char(&mut out, '\n');
        let ghost start = out@;
        let ghost pv = props_view(properties@);
        assert(pv.take(0) =~= Seq::<(Seq<char>, Seq<char>)>::empty());
        let mut i: usize = 0;
        while i < properties.len()
            invariant
                i <= properties@.len(),
                pv == props_view(properties@),
                out@ == start + raw_props(pv.take(i as int)),
            decreases properties@.len() - i,
        {
            let ghost before = out@;
            let (n, v) = &properties[i];
            push_char(&mut out, ' ');
            push_char(&mut out, ' ');
            out.append(n);
            push_char(&mut out, ':');
            push_char(&mut out, ' ');
            out.append(v.as_str());
            push_char(&mut out, '\n');
            proof {
                let t = pv.take(i + 1);
                assert(t.drop_last() =~= pv.take(i as int));
                assert(t.last() == (n@, v@));
                assert(out@ =~= before + seq![' ', ' '] + n@ + seq![':', ' '] + v@ + seq!['\n']);
            }
            i = i + 1;
        }
        assert(pv.take(i as int) =~= pv);
        assert(out@ =~= raw_event(timestamp@, level, template@, pv));
        out
    }

    /// The raw text of an event at `timestamp`, written in UTC to the nanosecond: `None`
    /// where the timestamp has no calendar text.
    pub fn write_event(
        &self,
        timestamp: UtcTime,
        level: LogLevel,
        template: &str,
        properties: &[(&str, String)],
    ) -> (r: Option<String>)
        requires
            names_sorted(props_view(properties@)),
        ensures
            match utc_text(timestamp, "%FT%T%.9fZ"@) {
                Some(t) => r matches Some(s) && s@ == raw_event(t, level, template@, props_view(properties@)),
                None => r is None,
            },
    {
        match format_utc(timestamp, "%FT%T%.9fZ") {
            Some(t) => Some(self.format_event(t.as_str(), level, template, properties)),
            None => None,
        }
    }
}

} // verus!
