//! Sending events to a Seq server: its configuration and the payload of an event.
use vstd::prelude::*;
use vstd::string::*;
use log::Level as LogLevel;

use crate::events::log_level_name;
use crate::formatters::json::{names_sorted, props_view};
use crate::utc::{format_utc, utc_text, UtcTime};
use crate::text::push_char;

verus! {

/// The default limit on the size of one event body sent to Seq.
pub const DEFAULT_EVENT_BODY_LIMIT_BYTES: usize = 262144;

/// The default limit on the size of one batch of events sent to Seq.
pub const DEFAULT_BATCH_LIMIT_BYTES: usize = 10485760;

/// The URL of a Seq server on the local machine.
pub const LOCAL_SERVER_URL: &'static str = "http://localhost:5341/";

#[verifier::external_type_specification]
#[verifier::external_body]
pub struct ExJsonError(serde_json::Error);

/// The JSON escape of one character inside a string: `\"` and `\\` for the quote and the
/// backslash, short escapes for backspace, tab, line feed, form feed and carriage return,
/// `\u00XX` (lowercase hex) for the other control characters below `0x20`, and the
/// character itself otherwise.
pub open spec fn json_escape_char(c: char) -> Seq<char> {
    let n = c as u32;
    if c == '"' {
        seq!['\\', '"']
    } else if c == '\\' {
        seq!['\\', '\\']
    } else if n == 8 {
        seq!['\\', 'b']
    } else if n == 9 {
        seq!['\\', 't']
    } else if n == 10 {
        seq!['\\', 'n']
    } else if n == 12 {
        seq!['\\', 'f']
    } else if n == 13 {
        seq!['\\', 'r']
    } else if n < 32 {
        seq!['\\', 'u', '0', '0', crate::text::digit_char((n / 16) as nat), crate::text::digit_char((n % 16) as nat)]
    } else {
        seq![c]
    }
}

/// The JSON escape of each character of `s`.
pub open spec fn json_escape(s: Seq<char>) -> Seq<char>
    decreases s.len(),
{
    if s.len() == 0 {
        Seq::empty()
    } else {
        json_escape(s.drop_last()) + json_escape_char(s.last())
    }
}

/// `s` as a JSON string literal: its JSON escape between quotes.
pub open spec fn json_string_literal(s: Seq<char>) -> Seq<char> {
    seq!['"'] + json_escape(s) + seq!['"']
}

/// `serde_json::to_string` of a string: serde_json's source writes it as a JSON string
/// literal, escaping with its `ESCAPE` table, into a `Vec` that cannot fail.
#[verifier::external_body]
pub(crate) fn json_to_string(s: &str) -> (r: Result<String, serde_json::Error>)
    ensures
        r matches Ok(v) ==> v@ == json_string_literal(s@),
        r is Ok,
{
    serde_json::to_string(s)
}

/// A collector that sends events to a Seq server.
pub struct SeqCollector {
    server_url: String,
    api_key: Option<String>,
    event_body_limit_bytes: usize,
    batch_limit_bytes: usize,
}

impl View for SeqCollector {
    /// The server URL, the API key if any, and the limits on event body and batch sizes.
    type V = (Seq<char>, Option<Seq<char>>, usize, usize);

    closed spec fn view(&self) -> Self::V {
        (
            self.server_url@,
            match self.api_key {
                Some(k) => Some(k@),
                None => None,
            },
            self.event_body_limit_bytes,
            self.batch_limit_bytes,
        )
    }
}

impl SeqCollector {
    /// A collector for the Seq server at `server_url`.
    pub fn new(
        server_url: &str,
        api_key: Option<&str>,
        event_body_limit_bytes: usize,
        batch_limit_bytes: usize,
    ) -> (r: SeqCollector)
        ensures
            r@ == (server_url@, match api_key {
                Some(k) => Some(k@),
                None => None::<Seq<char>>,
            }, event_body_limit_bytes, batch_limit_bytes),
    {
        let api_key = match api_key {
            Some(k) => Some(String::from_str(k)),
            None => None,
        };
        SeqCollector {
            server_url: String::from_str(server_url),
            api_key,
            event_body_limit_bytes,
            batch_limit_bytes,
        }
    }

    /// A collector for a Seq server on the local machine, with the default limits and no API key.
    pub fn new_local() -> (r: SeqCollector)
        ensures
            r@ == (LOCAL_SERVER_URL@, None::<Seq<char>>, DEFAULT_EVENT_BODY_LIMIT_BYTES,
                DEFAULT_BATCH_LIMIT_BYTES),
    {
        Self::new(LOCAL_SERVER_URL, None, DEFAULT_EVENT_BODY_LIMIT_BYTES, DEFAULT_BATCH_LIMIT_BYTES)
    }

    /// The URL of the server.
    pub fn server_url(&self) -> (r: &str)
        ensures
            r@ == self@.0,
    {
        self.server_url.as_str()
    }

    /// The API key, if any.
    pub fn api_key(&self) -> (r: Option<&str>)
        ensures
            r is None <==> self@.1 is None,
            r matches Some(k) ==> self@.1 == Some(k@),
    {
        match &self.api_key {
            Some(k) => Some(k.as_str()),
            None => None,
        }
    }

    /// The limit on the size of one event body.
    pub fn event_body_limit_bytes(&self) -> (r: usize)
        ensures
            r == self@.2,
    {
        self.event_body_limit_bytes
    }

    /// The limit on the size of one batch.
    pub fn batch_limit_bytes(&self) -> (r: usize)
        ensures
            r == self@.3,
    {
        self.batch_limit_bytes
    }

    /// The endpoint that events are posted to: the server URL followed by
    /// `api/events/raw/`.
    pub fn raw_events_endpoint(&self) -> (r: String)
        ensures
            r@ == self@.0 + "api/events/raw/"@,
    {
        let mut endpoint = self.server_url.clone();
        endpoint.append("api/events/raw/");
        endpoint
    }
}

/// The body posted to Seq for one event: its payload as the only item of an `Events` list.
pub fn raw_events_body(payload: &str) -> (r: String)
    ensures
        r@ == "{\"Events\":["@ + payload@ + "]}"@,
{
    let mut body = String::from_str("{\"Events\":[");
    body.append(payload);
    body.append("]}");
    body
}

/// The name Seq gives a level.
pub open spec fn seq_level_name(level: LogLevel) -> Seq<char> {
    match level {
        LogLevel::Error => "Error"@,
        LogLevel::Warn => "Warning"@,
        LogLevel::Info => "Information"@,
        LogLevel::Debug => "Debug"@,
        LogLevel::Trace => "Verbose"@,
    }
}

/// The name Seq gives a level: trace is verbose and warn is warning.
pub fn to_seq_level(level: LogLevel) -> (r: &'static str)
    ensures
        r@ == seq_level_name(level),
{
    match level {
        LogLevel::Error => "Error",
        LogLevel::Warn => "Warning",
        LogLevel::Info => "Information",
        LogLevel::Debug => "Debug",
        LogLevel::Trace => "Verbose",
    }
}

/// The properties of a Seq event: `"name":value` for each, separated by commas.
pub open spec fn seq_props(props: Seq<(Seq<char>, Seq<char>)>) -> Seq<char>
    decreases props.len(),
{
    if props.len() == 0 {
        Seq::empty()
    } else if props.len() == 1 {
        seq!['"'] + props[0].0 + seq!['"', ':'] + props[0].1
    } else {
        seq_props(props.drop_last()) + seq![',', '"'] + props.last().0 + seq!['"', ':'] + props.last().1
    }
}

/// The JSON payload of an event for Seq.
pub open spec fn seq_payload(
    timestamp: Seq<char>,
    level: LogLevel,
    template: Seq<char>,
    props: Seq<(Seq<char>, Seq<char>)>,
) -> Seq<char> {
    "{\"Timestamp\":\""@ + timestamp + "\",\"Level\":\""@ + seq_level_name(level)
        + "\",\"MessageTemplate\":"@ + json_string_literal(template) + ",\"Properties\":{"@ + seq_props(props)
        + "}}"@
}

/// Append the properties of a Seq event to `body`: `"name":value` for each, separated by
/// commas.
pub(crate) fn append_seq_props(body: &mut String, properties: &[(&str, String)])
    ensures
        final(body)@ == old(body)@ + seq_props(props_view(properties@)),
{
    let ghost start = body@;
    let ghost pv = props_view(properties@);
    assert(pv.take(0) =~= Seq::<(Seq<char>, Seq<char>)>::empty());
    let mut i: usize = 0;
    while i < properties.len()
        invariant
            i <= properties@.len(),
            pv == props_view(properties@),
            body@ == start + seq_props(pv.take(i as int)),
        decreases properties@.len() - i,
    {
        let ghost before = body@;
        let (n, v) = &properties[i];
        if i > 0 {
            push_char(body, ',');
        }
        push_char(body, '"');
        body.append(n);
        push_char(body, '"');
        push_char(body, ':');
        body.append(v.as_str());
        proof {
            let t = pv.take(i + 1);
            assert(t.drop_last() =~= pv.take(i as int));
            assert(t.last() == (n@, v@));
            if i == 0 {
                assert(t[0] == (n@, v@));
            }
            assert(body@ =~= start + seq_props(t));
        }
        i = i + 1;
    }
    assert(pv.take(i as int) =~= pv);
}

/// The JSON payload of an event with the given formatted timestamp, level, message
/// template and properties, each property value already formatted as JSON.
pub fn format_payload(
    timestamp: &str,
    level: LogLevel,
    template: &str,
    properties: &[(&str, String)],
) -> (r: String)
    requires
        names_sorted(props_view(properties@)),
    ensures
        r@ == seq_payload(timestamp@, level, template@, props_view(properties@)),
{
    let mut body = String::from_str("{\"Timestamp\":\"");
    body.append(timestamp);
    body.append("\",\"Level\":\"");
    body.append(to_seq_level(level));
    body.append("\",\"MessageTemplate\":");
    match json_to_string(template) {
        Ok(t) => body.append(t.as_str()),
        Err(_) => {},
    }
    body.append(",\"Properties\":{");
    append_seq_props(&mut body, properties);
    body.append("}}");
    assert(body@ =~= seq_payload(timestamp@, level, template@, props_view(properties@)));
    body
}

/// The JSON payload of an event at `timestamp`, written in UTC to the second: `None` where
/// the timestamp has no calendar text.
pub fn event_payload(
    timestamp: UtcTime,
    level: LogLevel,
    template: &str,
    properties: &[(&str, String)],
) -> (r: Option<String>)
    requires
        names_sorted(props_view(properties@)),
    ensures
        match utc_text(timestamp, "%FT%TZ"@) {
            Some(t) => r matches Some(s) && s@ == seq_payload(t, level, template@, props_view(properties@)),
            None => r is None,
        },
{
    match format_utc(timestamp, "%FT%TZ") {
        Some(t) => Some(format_payload(t.as_str(), level, template, properties)),
        None => None,
    }
}

/// `x + m1 + y == x + m2 + y` only where `m1 == m2`.
proof fn lemma_cancel_between(x: Seq<char>, m1: Seq<char>, m2: Seq<char>, y: Seq<char>)
    requires
        x + m1 + y == x + m2 + y,
    ensures
        m1 == m2,
{
    let s1 = x + m1 + y;
    let s2 = x + m2 + y;
    assert(s1.len() == s2.len());
    assert(m1 =~= s1.subrange(x.len() as int, (x.len() + m1.len()) as int));
    assert(m2 =~= s2.subrange(x.len() as int, (x.len() + m2.len()) as int));
}

/// The Level field of a Seq payload names the event's level as Seq does: each level but
/// `Trace` by a name starting with the letter of the `log` crate's name for it, written in
/// title case, and `Trace` as `Verbose`. Different levels get different names, so two
/// events that differ only in their level never get the same payload.
pub proof fn law_seq_payload_level(
    a: LogLevel,
    b: LogLevel,
    timestamp: Seq<char>,
    template: Seq<char>,
    props: Seq<(Seq<char>, Seq<char>)>,
)
    ensures
        a != LogLevel::Trace ==> seq_level_name(a).len() > 0 && seq_level_name(a)[0] == log_level_name(a)[0]
            && seq_level_name(a).drop_first().len() > 0,
        seq_level_name(LogLevel::Trace) == "Verbose"@,
        seq_level_name(a) == seq_level_name(b) ==> a == b,
        seq_payload(timestamp, a, template, props) == seq_payload(timestamp, b, template, props) ==> a == b,
{
    reveal_strlit("Error");
    reveal_strlit("Warning");
    reveal_strlit("Information");
    reveal_strlit("Debug");
    reveal_strlit("Verbose");
    if seq_level_name(a) == seq_level_name(b) {
        assert(seq_level_name(a)[0] == seq_level_name(b)[0]);
    }
    let x = "{\"Timestamp\":\""@ + timestamp + "\",\"Level\":\""@;
    let y = "\",\"MessageTemplate\":"@ + json_string_literal(template) + ",\"Properties\":{"@ + seq_props(props)
        + "}}"@;
    if seq_payload(timestamp, a, template, props) == seq_payload(timestamp, b, template, props) {
        assert(seq_payload(timestamp, a, template, props) =~= x + seq_level_name(a) + y);
        assert(seq_payload(timestamp, b, template, props) =~= x + seq_level_name(b) + y);
        lemma_cancel_between(x, seq_level_name(a), seq_level_name(b), y);
        assert(seq_level_name(a)[0] == seq_level_name(b)[0]);
    }
}

} // verus!
