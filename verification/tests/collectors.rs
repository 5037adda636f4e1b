use log::Level as LogLevel;

use emit::collectors::seq::{
    event_payload, format_payload, to_seq_level, SeqCollector, DEFAULT_BATCH_LIMIT_BYTES,
    DEFAULT_EVENT_BODY_LIMIT_BYTES, LOCAL_SERVER_URL,
};
use emit::collectors::silent::{NoError, SilentCollector};
use emit::collectors::stdio::StdioCollector;
use emit::enrichers::fixed_property::FixedPropertyEnricher;
use emit::formatters::json::JsonFormatter;

#[test]
fn events_are_formatted() {
    let payload = event_payload(
        emit::utc::UtcTime { secs: 1404810611, nanos: 0 },
        LogLevel::Warn,
        "The number is {number}",
        &[("number", "42".to_owned())],
    );
    assert_eq!(payload, Some("{\"Timestamp\":\"2014-07-08T09:10:11Z\",\"Level\":\"Warning\",\"MessageTemplate\":\"The number is {number}\",\"Properties\":{\"number\":42}}".to_owned()));

    let payload = format_payload(
        "2014-07-08T09:10:11Z",
        LogLevel::Warn,
        "The number is {number}",
        &[("number", "42".to_owned())],
    );
    assert_eq!(payload, "{\"Timestamp\":\"2014-07-08T09:10:11Z\",\"Level\":\"Warning\",\"MessageTemplate\":\"The number is {number}\",\"Properties\":{\"number\":42}}".to_owned());
}

#[test]
fn payload_escapes_the_template() {
    let payload = format_payload("t", LogLevel::Trace, "a\"b\\c\nd\u{1}", &[("x", "1".to_owned()), ("y", "2".to_owned())]);
    assert_eq!(payload, "{\"Timestamp\":\"t\",\"Level\":\"Verbose\",\"MessageTemplate\":\"a\\\"b\\\\c\\nd\\u0001\",\"Properties\":{\"x\":1,\"y\":2}}");
}

#[test]
fn seq_levels() {
    assert_eq!("Error", to_seq_level(LogLevel::Error));
    assert_eq!("Warning", to_seq_level(LogLevel::Warn));
    assert_eq!("Information", to_seq_level(LogLevel::Info));
    assert_eq!("Debug", to_seq_level(LogLevel::Debug));
    assert_eq!("Verbose", to_seq_level(LogLevel::Trace));
}

#[test]
fn seq_collector_config() {
    let local = SeqCollector::new_local();
    assert_eq!(LOCAL_SERVER_URL, local.server_url());
    assert_eq!("http://localhost:5341/", local.server_url());
    assert_eq!(None, local.api_key());
    assert_eq!(DEFAULT_EVENT_BODY_LIMIT_BYTES, local.event_body_limit_bytes());
    assert_eq!(1024 * 256, local.event_body_limit_bytes());
    assert_eq!(DEFAULT_BATCH_LIMIT_BYTES, local.batch_limit_bytes());
    assert_eq!(1024 * 1024 * 10, local.batch_limit_bytes());

    let remote = SeqCollector::new("https://seq/", Some("key"), 1, 2);
    assert_eq!("https://seq/", remote.server_url());
    assert_eq!(Some("key"), remote.api_key());
    assert_eq!(1, remote.event_body_limit_bytes());
    assert_eq!(2, remote.batch_limit_bytes());
}

#[test]
fn silent_collector_accepts_everything() {
    let c = SilentCollector::new();
    assert!(c.dispatch(&[1, 2, 3]).is_ok());
    assert_eq!("No Error", NoError {}.to_string());
    assert_eq!("No Error", NoError {}.description());
}

#[test]
fn stdio_collector_targets() {
    let out = StdioCollector::new(JsonFormatter::new());
    assert!(!out.uses_stderr());
    let err = StdioCollector::new_stderr(7u8);
    assert!(err.uses_stderr());
    assert_eq!(7, *err.formatter());
}

#[test]
fn fixed_property_is_set() {
    let enricher = FixedPropertyEnricher::new("app", "\"demo\"".to_owned());
    let mut props = vec![("a".to_owned(), "1".to_owned())];
    enricher.enrich(&mut props);
    assert_eq!(vec![("a".to_owned(), "1".to_owned()), ("app".to_owned(), "\"demo\"".to_owned())], props);

    let mut props = vec![("app".to_owned(), "0".to_owned()), ("b".to_owned(), "2".to_owned())];
    enricher.enrich(&mut props);
    assert_eq!(vec![("app".to_owned(), "\"demo\"".to_owned()), ("b".to_owned(), "2".to_owned())], props);
}

#[test]
fn seq_raw_events_request() {
    let collector = emit::collectors::seq::SeqCollector::new_local();
    assert_eq!(
        "http://localhost:5341/api/events/raw/",
        collector.raw_events_endpoint()
    );
    assert_eq!(
        "{\"Events\":[{\"a\":1}]}",
        emit::collectors::seq::raw_events_body("{\"a\":1}")
    );
}

#[test]
fn information_payloads_are_formatted() {
    let ts = emit::utc::UtcTime { secs: 1404810611, nanos: 0 };
    assert_eq!(
        Some("{\"Level\":\"Information\",\"Properties\":{\"a\":1,\"b\":\"x\"},\"Timestamp\":\"2014-07-08T09:10:11Z\",\"MessageTemplate\":\"Hi \\\"{a}\\\"\"}".to_owned()),
        emit::payloads::format_payload(ts, "Hi \"{a}\"", &[("a", "1".to_owned()), ("b", "\"x\"".to_owned())])
    );
    assert_eq!(
        "{\"Level\":\"Information\",\"Properties\":{},\"Timestamp\":\"t\",\"MessageTemplate\":\"m\"}",
        emit::payloads::format_payload_text("t", "m", &[])
    );
}

#[test]
fn timestamps_past_the_calendar_have_no_payload() {
    let far = emit::utc::UtcTime { secs: i64::MAX, nanos: 0 };
    assert_eq!(None, event_payload(far, LogLevel::Info, "m", &[]));
    assert_eq!(None, emit::payloads::format_payload(far, "m", &[]));
}
