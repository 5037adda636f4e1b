use log::Level as LogLevel;

use emit::formatters::json::{jenkins_hash, JsonFormatter, JsonValueFormatter, RenderedJsonFormatter};
use emit::formatters::raw::RawFormatter;
use emit::formatters::text::PlainTextFormatter;
use emit::formatters::value::{format_vec, TextValueFormatter};

fn some_props() -> Vec<(&'static str, String)> {
    let f = JsonValueFormatter::new();
    let data = vec![f.visit_str("a"), f.visit_str("b"), f.visit_str("c")];
    vec![("data", f.visit_vec(&data)), ("name", f.visit_str("Alice"))]
}

#[test]
fn json_is_produced() {
    let fmt = JsonFormatter::new();
    let content = fmt.write_event(
        emit::utc::UtcTime { secs: 1404810611, nanos: 0 },
        "Hello, {name}. Your data is: {data}",
        LogLevel::Info,
        &some_props(),
    );

    assert_eq!(content, Some("{\"@t\":\"2014-07-08T09:10:11.000Z\",\"@mt\":\"Hello, {name}. Your data is: {data}\",\"data\":[\"a\",\"b\",\"c\"],\"name\":\"Alice\"}".to_owned()));

    let content = fmt.format_event(
        "2014-07-08T09:10:11.000Z",
        "Hello, {name}. Your data is: {data}",
        LogLevel::Info,
        &some_props(),
    );

    assert_eq!(content, "{\"@t\":\"2014-07-08T09:10:11.000Z\",\"@mt\":\"Hello, {name}. Your data is: {data}\",\"data\":[\"a\",\"b\",\"c\"],\"name\":\"Alice\"}");
}

#[test]
fn rendered_json_is_produced() {
    let fmt = RenderedJsonFormatter::new();
    let content = fmt.write_event(
        emit::utc::UtcTime { secs: 1404810611, nanos: 0 },
        "Hello, Alice. Your data is: [a, b, c]",
        "Hello, {name}. Your data is: {data}",
        LogLevel::Info,
        &some_props(),
    );

    assert_eq!(content, Some("{\"@t\":\"2014-07-08T09:10:11.000Z\",\"@m\":\"Hello, Alice. Your data is: [a, b, c]\",\"@i\":\"90e7bed3\",\"data\":[\"a\",\"b\",\"c\"],\"name\":\"Alice\"}".to_owned()));

    let content = fmt.format_event(
        "2014-07-08T09:10:11.000Z",
        "Hello, Alice. Your data is: [a, b, c]",
        "Hello, {name}. Your data is: {data}",
        LogLevel::Info,
        &some_props(),
    );

    assert_eq!(content, "{\"@t\":\"2014-07-08T09:10:11.000Z\",\"@m\":\"Hello, Alice. Your data is: [a, b, c]\",\"@i\":\"90e7bed3\",\"data\":[\"a\",\"b\",\"c\"],\"name\":\"Alice\"}");
}

#[test]
fn json_includes_non_info_levels_and_escapes_at_names() {
    let fmt = JsonFormatter::new();
    let content = fmt.format_event("t", "m", LogLevel::Warn, &[("@x", "1".to_owned())]);

    assert_eq!(content, "{\"@t\":\"t\",\"@mt\":\"m\",\"@l\":\"WARN\",\"@@x\":1}");
}

#[test]
fn jenkins_hash_values() {
    assert_eq!(0x90e7bed3, jenkins_hash("Hello, {name}. Your data is: {data}"));
    assert_eq!(0, jenkins_hash(""));
    assert_eq!(0xca2e9442, jenkins_hash("a"));
}

#[test]
fn json_values() {
    let f = JsonValueFormatter::new();
    assert_eq!("null", f.visit_null());
    assert_eq!("true", f.visit_bool(true));
    assert_eq!("false", f.visit_bool(false));
    assert_eq!("-9223372036854775808", f.visit_i64(i64::MIN));
    assert_eq!("18446744073709551615", f.visit_u64(u64::MAX));
    assert_eq!("\"a\"", f.visit_str("a"));
    assert_eq!("\"already\"", f.visit_str("\"already\""));
    assert_eq!("\"\"", f.visit_str(""));
    assert_eq!("[1,2]", f.visit_vec(&["1".to_owned(), "2".to_owned()]));
}

#[test]
fn format_vec_empty() {
    let v: Vec<String> = Vec::new();

    let fmtd = format_vec(&v, true);

    assert_eq!("[]", fmtd);
}

#[test]
fn format_vec_single() {
    let formatter = TextValueFormatter::new();
    let v = vec![formatter.visit_str("a")];

    let fmtd = format_vec(&v, true);

    assert_eq!("[a]", fmtd);
}

#[test]
fn format_vec_many() {
    let formatter = TextValueFormatter::new();
    let v = vec![formatter.visit_str("a"), formatter.visit_str("b"), formatter.visit_str("c")];

    let fmtd = format_vec(&v, true);

    assert_eq!("[a, b, c]", fmtd);
    assert_eq!("[a,b,c]", format_vec(&v, false));
}

#[test]
fn text_values() {
    let f = TextValueFormatter::new();
    assert_eq!("null", f.visit_null());
    assert_eq!("true", f.visit_bool(true));
    assert_eq!("-42", f.visit_i64(-42));
    assert_eq!("0", f.visit_u64(0));
    assert_eq!("x y", f.visit_str("x y"));
}

#[test]
fn raw_is_produced() {
    let fmt = RawFormatter::new();
    let content = fmt.format_event(
        "2014-07-08T09:10:11.000000000Z",
        LogLevel::Info,
        "Hello, {name}",
        &[("name", "Alice".to_owned()), ("n", "1".to_owned())],
    );

    assert_eq!(content, "emit 2014-07-08T09:10:11.000000000Z INFO  Hello, {name}\n  name: Alice\n  n: 1\n");
}

#[test]
fn plain_text_is_produced() {
    let fmt = PlainTextFormatter::new();

    assert_eq!(
        "2014-07-08T09:10:11Z ERROR Hello, Alice\n",
        fmt.format_event("2014-07-08T09:10:11Z", LogLevel::Error, "Hello, Alice")
    );
    assert_eq!(
        "ts WARN  m\n",
        fmt.format_event("ts", LogLevel::Warn, "m")
    );
}

#[test]
fn raw_and_plain_text_events_at_a_time() {
    let ts = emit::utc::UtcTime { secs: 1404810611, nanos: 7 };
    assert_eq!(
        Some("emit 2014-07-08T09:10:11.000000007Z WARN  m\n".to_owned()),
        RawFormatter::new().write_event(ts, LogLevel::Warn, "m", &[])
    );
    assert_eq!(
        Some("2014-07-08T09:10:11Z DEBUG hi\n".to_owned()),
        PlainTextFormatter::new().write_event(ts, LogLevel::Debug, "hi")
    );
    let far = emit::utc::UtcTime { secs: i64::MAX, nanos: 0 };
    assert_eq!(None, PlainTextFormatter::new().write_event(far, LogLevel::Debug, "hi"));
}

#[test]
fn lists_of_names_are_quoted() {
    assert_eq!("`rt`, `mdl`, `when`", emit::text::print_list(&["rt", "mdl", "when"]));
    assert_eq!("`a`", emit::text::print_list(&["a"]));
    assert_eq!("", emit::text::print_list(&[]));
}
