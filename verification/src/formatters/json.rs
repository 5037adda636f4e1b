//! Compact JSON formatting of events.
use vstd::prelude::*;
use vstd::string::*;
use log::Level as LogLevel;

use crate::buf::lex_lt;
use crate::events::{log_level_as_str, log_level_name, name_bytes};
use crate::text::{decimal, hex_fixed, i64_to_decimal, push_char, signed_decimal, u32_to_hex8, u64_to_decimal};
use crate::formatters::value::{format_vec, list_text, strings_view};
use crate::utc::{format_utc, utc_text, UtcTime};

verus! {

/// A JSON string value: the text between quotes, unless it already starts with a quote,
/// in which case it is taken as already quoted.
pub open spec fn json_str(v: Seq<char>) -> Seq<char> {
    if v.len() > 0 && v[0] == '"' {
        v
    } else {
        seq!['"'] + v + seq!['"']
    }
}

/// The jenkins one-at-a-time mixing of one character into the hash, wrapping on overflow.
pub open spec fn jenkins_mix(h: u32, c: char) -> u32 {
    let h1 = h.wrapping_add(c as u32);
    let h2 = h1.wrapping_add(h1 << 10u32);
    h2 ^ (h2 >> 6u32)
}

/// The hash after mixing in each character of `s` in order.
pub open spec fn jenkins_fold(h: u32, s: Seq<char>) -> u32
    decreases s.len(),
{
    if s.len() == 0 {
        h
    } else {
        jenkins_fold(jenkins_mix(h, s[0]), s.drop_first())
    }
}

/// The jenkins one-at-a-time hash of a text.
pub open spec fn jenkins(s: Seq<char>) -> u32 {
    let h = jenkins_fold(0, s);
    let h1 = h.wrapping_add(h << 3u32);
    let h2 = h1 ^ (h1 >> 11u32);
    h2.wrapping_add(h2 << 15u32)
}

/// The 32-bit jenkins one-at-a-time hash of a text, computed over its characters.
pub fn jenkins_hash(text: &str) -> (r: u32)
    ensures
        r == jenkins(text@),
{
    let ghost tv = text@;
    let mut hash: u32 = 0;
    assert(tv.skip(0) =~= tv);
    for ch in it: text.chars()
        invariant
            it.seq() == tv,
            jenkins_fold(hash, tv.skip(it.index() as int)) == jenkins_fold(0, tv),
    {
        assert(tv.skip(it.index() as int).drop_first() =~= tv.skip(it.index() + 1));
        hash = hash.wrapping_add(ch as u32);
        hash = hash.wrapping_add(hash << 10);
        hash = hash ^ (hash >> 6);
    }
    assert(tv.skip(tv.len() as int) =~= Seq::<char>::empty());
    hash = hash.wrapping_add(hash << 3);
    hash = hash ^ (hash >> 11);
    hash = hash.wrapping_add(hash << 15);
    hash
}

/// Whether `s` starts with the character `c`.
fn starts_with_char(s: &str, c: char) -> (r: bool)
    ensures
        r == (s@.len() > 0 && s@[0] == c),
{
    !s.is_empty() && s.get_char(0) == c
}

/// Formats property values as JSON: strings are quoted (unless already quoted) and
/// collections are written as `[a,b,c]`.
pub struct JsonValueFormatter {}

impl JsonValueFormatter {
    /// The formatter.
    pub fn new() -> (r: Self) {
        JsonValueFormatter {}
    }

    /// The JSON of a null value: `null`.
    pub fn visit_null(&self) -> (r: String)
        ensures
            r@ == "null"@,
    {
        String::from_str("null")
    }

    /// The JSON of a boolean: `true` or `false`.
    pub fn visit_bool(&self, v: bool) -> (r: String)
        ensures
            r@ == (if v { "true"@ } else { "false"@ }),
    {
        if v {
            String::from_str("true")
        } else {
            String::from_str("false")
        }
    }

    /// The JSON of a signed integer: its decimal text.
    pub fn visit_i64(&self, v: i64) -> (r: String)
        ensures
            r@ == signed_decimal(v as int),
    {
        i64_to_decimal(v)
    }

    /// The JSON of an unsigned integer: its decimal text.
    pub fn visit_u64(&self, v: u64) -> (r: String)
        ensures
            r@ == decimal(v as nat),
    {
        u64_to_decimal(v)
    }

    /// The JSON of a string: the string between quotes, unless it already starts with a quote.
    pub fn visit_str(&self, v: &str) -> (r: String)
        ensures
            r@ == json_str(v@),
    {
        if starts_with_char(v, '"') {
            String::from_str(v)
        } else {
            let mut quoted = String::new();
            push_char(&mut quoted, '"');
            quoted.append(v);
            push_char(&mut quoted, '"');
            assert(quoted@ =~= json_str(v@));
            quoted
        }
    }

    /// The JSON of a collection of already formatted values: `[a,b,c]`.
    pub fn visit_vec(&self, v: &[String]) -> (r: String)
        ensures
            r@ == list_text(strings_view(v@), false),
    {
        format_vec(v, false)
    }
}

/// One property of an event as a JSON member, after a comma; a name that starts with `@`
/// is escaped by doubling it.
pub open spec fn json_member(name: Seq<char>, value: Seq<char>) -> Seq<char> {
    if name.len() > 0 && name[0] == '@' {
        seq![',', '"', '@'] + name + seq!['"', ':'] + value
    } else {
        seq![',', '"'] + name + seq!['"', ':'] + value
    }
}

/// The JSON members of the properties, in order.
pub open spec fn json_members(props: Seq<(Seq<char>, Seq<char>)>) -> Seq<char>
    decreases props.len(),
{
    if props.len() == 0 {
        Seq::empty()
    } else {
        json_members(props.drop_last()) + json_member(props.last().0, props.last().1)
    }
}

/// The text of the properties: each name and its formatted JSON value.
pub open spec fn props_view(props: Seq<(&str, String)>) -> Seq<(Seq<char>, Seq<char>)> {
    props.map_values(|p: (&str, String)| (p.0@, p.1@))
}

/// The property names are strictly sorted by their bytes, as an event keeps its properties:
/// each name once, in name order.
pub open spec fn names_sorted(props: Seq<(Seq<char>, Seq<char>)>) -> bool {
    forall|i: int, j: int|
        0 <= i < j < props.len() ==> lex_lt(name_bytes((#[trigger] props[i]).0), name_bytes((#[trigger] props[j]).0))
}

/// The level member of an event: present for any level but `Info`.
pub open spec fn json_level(level: LogLevel) -> Seq<char> {
    if level == LogLevel::Info {
        Seq::empty()
    } else {
        seq![',', '"', '@', 'l', '"', ':'] + json_str(log_level_name(level))
    }
}

/// An event in compact JSON with its message template.
pub open spec fn compact_json(
    timestamp: Seq<char>,
    template: Seq<char>,
    level: LogLevel,
    props: Seq<(Seq<char>, Seq<char>)>,
) -> Seq<char> {
    seq!['{', '"', '@', 't', '"', ':'] + json_str(timestamp) + seq![',', '"', '@', 'm', 't', '"', ':']
        + json_str(template) + json_level(level) + json_members(props) + seq!['}']
}

/// An event in compact JSON with its rendered message and the hash of its template as
/// the event type.
pub open spec fn rendered_json(
    timestamp: Seq<char>,
    message: Seq<char>,
    template: Seq<char>,
    level: LogLevel,
    props: Seq<(Seq<char>, Seq<char>)>,
) -> Seq<char> {
    seq!['{', '"', '@', 't', '"', ':'] + json_str(timestamp) + seq![',', '"', '@', 'm', '"', ':']
        + json_str(message) + seq![',', '"', '@', 'i', '"', ':', '"'] + hex_fixed(
        jenkins(template) as nat,
        8,
    ) + seq!['"'] + json_level(level) + json_members(props) + seq!['}']
}

/// Append the level member and the property members of an event.
fn write_level_and_members(out: &mut String, level: LogLevel, properties: &[(&str, String)])
    ensures
        final(out)@ == old(out)@ + json_level(level) + json_members(props_view(properties@)),
{
    let f = JsonValueFormatter::new();
    let is_info = match level {
        LogLevel::Info => true,
        _ => false,
    };
    if !is_info {
        out.append(",\"@l\":");
        proof {
            reveal_strlit(",\"@l\":");
        }
        let name = f.visit_str(log_level_as_str(level));
        out.append(name.as_str());
    }
    assert(out@ =~= old(out)@ + json_level(level));
    let ghost start = out@;
    let ghost pv = props_view(properties@);
    let mut i: usize = 0;
    assert(pv.take(0) =~= Seq::<(Seq<char>, Seq<char>)>::empty());
    while i < properties.len()
        invariant
            i <= properties@.len(),
            pv == props_view(properties@),
            out@ == start + json_members(pv.take(i as int)),
        decreases properties@.len() - i,
    {
        let ghost before = out@;
        let (n, v) = &properties[i];
        push_char(out, ',');
        push_char(out, '"');
        if starts_with_char(n, '@') {
            push_char(out, '@');
        }
        out.append(n);
        push_char(out, '"');
        push_char(out, ':');
        out.append(v.as_str());
        proof {
            let t = pv.take(i + 1);
            assert(t.drop_last() =~= pv.take(i as int));
            assert(t.last() == (n@, v@));
            assert(out@ =~= before + json_member(n@, v@));
        }
        i = i + 1;
    }
    assert(pv.take(i as int) =~= pv);
}

/// Writes events in a compact JSON format recording their message template and
/// properties. To include the rendered message and computed event type instead, see
/// [`RenderedJsonFormatter`].
pub struct JsonFormatter {}

impl JsonFormatter {
    /// The formatter.
    pub fn new() -> (r: JsonFormatter) {
        JsonFormatter {}
    }

    /// The JSON of an event with the given formatted timestamp, message template, level and
    /// properties, each property value already formatted as JSON.
    pub fn format_event(
        &self,
        timestamp: &str,
        template: &str,
        level: LogLevel,
        properties: &[(&str, String)],
    ) -> (r: String)
        requires
            names_sorted(props_view(properties@)),
        ensures
            r@ == compact_json(timestamp@, template@, level, props_view(properties@)),
    {
        let f = JsonValueFormatter::new();
        let mut out = String::new();
        out.append("{\"@t\":");
        let ts = f.visit_str(timestamp);
        out.append(ts.as_str());
        out.append(",\"@mt\":");
        let mt = f.visit_str(template);
        out.append(mt.as_str());
        proof {
            reveal_strlit("{\"@t\":");
            reveal_strlit(",\"@mt\":");
        }
        write_level_and_members(&mut out, level, properties);
        push_char(&mut out, '}');
        assert(out@ =~= compact_json(timestamp@, template@, level, props_view(properties@)));
        out
    }

    /// The JSON of an event at `timestamp`, written in UTC to the millisecond: `None`
    /// where the timestamp has no calendar text.
    pub fn write_event(
        &self,
        timestamp: UtcTime,
        template: &str,
        level: LogLevel,
        properties: &[(&str, String)],
    ) -> (r: Option<String>)
        requires
            names_sorted(props_view(properties@)),
        ensures
            match utc_text(timestamp, "%FT%T%.3fZ"@) {
                Some(t) => r matches Some(s) && s@ == compact_json(t, template@, level, props_view(properties@)),
                None => r is None,
            },
    {
        match format_utc(timestamp, "%FT%T%.3fZ") {
            Some(t) => Some(self.format_event(t.as_str(), template, level, properties)),
            None => None,
        }
    }
}

/// Writes events in a compact JSON format with their message rendered into text
/// and a 32-bit event type computed from the message template. To record the template
/// itself instead, see [`JsonFormatter`].
pub struct RenderedJsonFormatter {}

impl RenderedJsonFormatter {
    /// The formatter.
    pub fn new() -> (r: RenderedJsonFormatter) {
        RenderedJsonFormatter {}
    }

    /// The JSON of an event with the given formatted timestamp, rendered message, message
    /// template, level and properties, each property value already formatted as JSON.
    pub fn format_event(
        &self,
        timestamp: &str,
        message: &str,
        template: &str,
        level: LogLevel,
        properties: &[(&str, String)],
    ) -> (r: String)
        requires
            names_sorted(props_view(properties@)),
        ensures
            r@ == rendered_json(timestamp@, message@, template@, level, props_view(properties@)),
    {
        let f = JsonValueFormatter::new();
        let id = jenkins_hash(template);
        let mut out = String::new();
        out.append("{\"@t\":");
        let ts = f.visit_str(timestamp);
        out.append(ts.as_str());
        out.append(",\"@m\":");
        let m = f.visit_str(message);
        out.append(m.as_str());
        out.append(",\"@i\":\"");
        let hex = u32_to_hex8(id);
        out.append(hex.as_str());
        push_char(&mut out, '"');
        proof {
            reveal_strlit("{\"@t\":");
            reveal_strlit(",\"@m\":");
            reveal_strlit(",\"@i\":\"");
        }
        write_level_and_members(&mut out, level, properties);
        push_char(&mut out, '}');
        assert(out@ =~= rendered_json(timestamp@, message@, template@, level, props_view(properties@)));
        out
    }

    /// The JSON of an event at `timestamp`, written in UTC to the millisecond: `None`
    /// where the timestamp has no calendar text.
    pub fn write_event(
        &self,
        timestamp: UtcTime,
        message: &str,
        template: &str,
        level: LogLevel,
        properties: &[(&str, String)],
    ) -> (r: Option<String>)
        requires
            names_sorted(props_view(properties@)),
        ensures
            match utc_text(timestamp, "%FT%T%.3fZ"@) {
                Some(t) => r matches Some(s) && s@ == rendered_json(
                    t,
                    message@,
                    template@,
                    level,
                    props_view(properties@),
                ),
                None => r is None,
            },
    {
        match format_utc(timestamp, "%FT%T%.3fZ") {
            Some(t) => Some(self.format_event(t.as_str(), message, template, level, properties)),
            None => None,
        }
    }
}

/// `x + m1 + y == x + m2 + y` only where `m1 == m2`.
proof fn lemma_cancel_around(x: Seq<char>, m1: Seq<char>, m2: Seq<char>, y: Seq<char>)
    requires
        x + m1 + y == x + m2 + y,
    ensures
        m1 == m2,
{
    let s1 = x + m1 + y;
    let s2 = x + m2 + y;
    assert(s1.len() == s2.len());
    assert(m1 =~= s1.subrange(x.len() as int, (x.len() + m1.len()) as int));
    assert(m2 =~= s2.subrange(x.len() as int, (x.len() + m2.len()) as int));
}

/// The level member of an event's JSON: absent exactly for `Info`; for any other level it
/// is `,"@l":"NAME"` with the `log` crate's name of the level. Different levels give
/// different members, so two events that differ only in their level never get the same
/// JSON, compact or rendered.
pub proof fn law_json_level_member(
    a: LogLevel,
    b: LogLevel,
    timestamp: Seq<char>,
    message: Seq<char>,
    template: Seq<char>,
    props: Seq<(Seq<char>, Seq<char>)>,
)
    ensures
        (json_level(a).len() == 0) == (a == LogLevel::Info),
        a != LogLevel::Info ==> json_level(a) == seq![',', '"', '@', 'l', '"', ':', '"'] + log_level_name(a)
            + seq!['"'],
        json_level(a) == json_level(b) ==> a == b,
        compact_json(timestamp, template, a, props) == compact_json(timestamp, template, b, props) ==> a == b,
        rendered_json(timestamp, message, template, a, props) == rendered_json(timestamp, message, template, b, props)
            ==> a == b,
{
    assert(log_level_name(a).len() > 0 && log_level_name(a)[0] != '"');
    assert(log_level_name(b).len() > 0 && log_level_name(b)[0] != '"');
    if a != LogLevel::Info && b != LogLevel::Info && json_level(a) == json_level(b) {
        assert(json_level(a)[7] == log_level_name(a)[0]);
        assert(json_level(b)[7] == log_level_name(b)[0]);
        assert(json_level(a).len() == json_level(b).len());
        assert(log_level_name(a)[1] == json_level(a)[8]);
        assert(log_level_name(b)[1] == json_level(b)[8]);
    }
    let y = json_members(props) + seq!['}'];
    let cx = seq!['{', '"', '@', 't', '"', ':'] + json_str(timestamp) + seq![',', '"', '@', 'm', 't', '"', ':']
        + json_str(template);
    if compact_json(timestamp, template, a, props) == compact_json(timestamp, template, b, props) {
        assert(compact_json(timestamp, template, a, props) =~= cx + json_level(a) + y);
        assert(compact_json(timestamp, template, b, props) =~= cx + json_level(b) + y);
        lemma_cancel_around(cx, json_level(a), json_level(b), y);
    }
    let rx = seq!['{', '"', '@', 't', '"', ':'] + json_str(timestamp) + seq![',', '"', '@', 'm', '"', ':']
        + json_str(message) + seq![',', '"', '@', 'i', '"', ':', '"'] + hex_fixed(jenkins(template) as nat, 8)
        + seq!['"'];
    if rendered_json(timestamp, message, template, a, props) == rendered_json(timestamp, message, template, b, props) {
        assert(rendered_json(timestamp, message, template, a, props) =~= rx + json_level(a) + y);
        assert(rendered_json(timestamp, message, template, b, props) =~= rx + json_level(b) + y);
        lemma_cancel_around(rx, json_level(a), json_level(b), y);
    }
}

} // verus!
