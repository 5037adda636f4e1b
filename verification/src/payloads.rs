//! The JSON payload of an information-level event, with its properties, timestamp and
//! message template.
use vstd::prelude::*;
use vstd::string::*;

use crate::collectors::seq::{append_seq_props, json_string_literal, json_to_string, seq_props};
use crate::formatters::json::{names_sorted, props_view};
use crate::utc::{format_utc, utc_text, UtcTime};

verus! {

/// The payload: the level `Information`, the properties as `"name":value` members, the
/// timestamp and the message template as a JSON string.
pub open spec fn information_payload(
    timestamp: Seq<char>,
    template: Seq<char>,
    props: Seq<(Seq<char>, Seq<char>)>,
) -> Seq<char> {
    "{\"Level\":\"Information\",\"Properties\":{"@ + seq_props(props) + "},\"Timestamp\":\""@ + timestamp
        + "\",\"MessageTemplate\":"@ + json_string_literal(template) + "}"@
}

/// The payload of an event with the given formatted timestamp, message template and
/// properties, each property value already formatted as JSON, in name order.
pub fn format_payload_text(timestamp: &str, template: &str, properties: &[(&str, String)]) -> (r: String)
    requires
        names_sorted(props_view(properties@)),
    ensures
        r@ == information_payload(timestamp@, template@, props_view(properties@)),
{
    let mut body = String::from_str("{\"Level\":\"Information\",\"Properties\":{");
    append_seq_props(&mut body, properties);
    body.append("},\"Timestamp\":\"");
    body.append(timestamp);
    body.append("\",\"MessageTemplate\":");
    match json_to_string(template) {
        Ok(t) => body.append(t.as_str()),
        Err(_) => {},
    }
    body.append("}");
    assert(body@ =~= information_payload(timestamp@, template@, props_view(properties@)));
    body
}

/// The payload of an event at `timestamp`, written in UTC to the second: `None` where the
/// timestamp has no calendar text.
pub fn format_payload(timestamp: UtcTime, template: &str, properties: &[(&str, String)]) -> (r: Option<String>)
    requires
        names_sorted(props_view(properties@)),
    ensures
        match utc_text(timestamp, "%FT%TZ"@) {
            Some(t) => r matches Some(s) && s@ == information_payload(t, template@, props_view(properties@)),
            None => r is None,
        },
{
    match format_utc(timestamp, "%FT%TZ") {
        Some(t) => Some(format_payload_text(t.as_str(), template, properties)),
        None => None,
    }
}

} // verus!
