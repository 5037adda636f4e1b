use std::num::{NonZeroU128, NonZeroU64};
use std::str;
use std::str::FromStr;

use emit::metric::{Extent, Timestamp};
use emit::span::guard::{span_start_event, SpanGuard, SpanGuardState};
use emit::span::{ParseIdError, SpanCtxt, SpanId, TraceId};

#[test]
fn span_id_parse() {
    for (case, expected) in [
        (
            "0123456789abcdef",
            Ok(SpanId::from_u64(0x0123456789abcdef).unwrap()),
        ),
        (
            "0000000000000001",
            Ok(SpanId::from_u64(0x0000000000000001).unwrap()),
        ),
        ("0000000000000000", Err(ParseIdError {})),
        ("0x00000000000001", Err(ParseIdError {})),
        ("0x0000000000000001", Err(ParseIdError {})),
        ("1", Err(ParseIdError {})),
        ("", Err::<SpanId, ParseIdError>(ParseIdError {})),
    ] {
        match expected {
            Ok(expected) => {
                assert_eq!(expected, SpanId::try_from_hex(case).unwrap());
                assert_eq!(expected, SpanId::try_from_hex(case).unwrap());
            }
            Err(e) => assert_eq!(
                e.to_string(),
                SpanId::try_from_hex(case).unwrap_err().to_string()
            ),
        }
    }
}

#[test]
fn trace_id_parse() {
    for (case, expected) in [
        (
            "0123456789abcdef0123456789abcdef",
            Ok(TraceId::from_u128(0x0123456789abcdef0123456789abcdef).unwrap()),
        ),
        (
            "00000000000000000000000000000001",
            Ok(TraceId::from_u128(0x00000000000000000000000000000001).unwrap()),
        ),
        ("00000000000000000000000000000000", Err(ParseIdError {})),
        ("0x000000000000000000000000000001", Err(ParseIdError {})),
        ("0x00000000000000000000000000000001", Err(ParseIdError {})),
        ("1", Err(ParseIdError {})),
        ("", Err::<TraceId, ParseIdError>(ParseIdError {})),
    ] {
        match expected {
            Ok(expected) => assert_eq!(expected, TraceId::try_from_hex(case).unwrap()),
            Err(e) => assert_eq!(
                e.to_string(),
                TraceId::try_from_hex(case).unwrap_err().to_string()
            ),
        }
    }
}

#[test]
fn span_id_fmt() {
    for (case, expected) in [
        (SpanId::from_u64(1).unwrap(), "0000000000000001"),
        (
            SpanId::from_u64(0x0123456789abcdef).unwrap(),
            "0123456789abcdef",
        ),
    ] {
        assert_eq!(expected, case.to_string());
        assert_eq!(expected, str::from_utf8(&case.to_hex()).unwrap());
    }
}

#[test]
fn trace_id_fmt() {
    for (case, expected) in [
        (
            TraceId::from_u128(1).unwrap(),
            "00000000000000000000000000000001",
        ),
        (
            TraceId::from_u128(0x0123456789abcdef0123456789abcdef).unwrap(),
            "0123456789abcdef0123456789abcdef",
        ),
    ] {
        assert_eq!(expected, case.to_string());
        assert_eq!(expected, str::from_utf8(&case.to_hex()).unwrap());
    }
}

#[test]
fn span_id_roundtrip() {
    let id = SpanId::new(NonZeroU64::new(u64::MAX / 2).unwrap().get());

    let fmt = id.to_string();

    let parsed: SpanId = fmt.parse().unwrap();

    assert_eq!(id, parsed, "{}", fmt);
}

#[test]
fn trace_id_roundtrip() {
    let id = TraceId::new(NonZeroU128::new(u128::MAX / 2).unwrap().get());

    let fmt = id.to_string();

    let parsed: TraceId = fmt.parse().unwrap();

    assert_eq!(id, parsed, "{}", fmt);
}

#[test]
fn span_id_random_empty() {
    assert!(SpanId::random(None).is_none());
}

#[test]
fn trace_id_random_empty() {
    assert!(TraceId::random(None).is_none());
}

#[test]
fn ids_from_random_numbers() {
    assert!(SpanId::random(Some(0)).is_none());
    assert!(TraceId::random(Some(0)).is_none());
    assert_eq!(7, SpanId::random(Some(7)).unwrap().to_u64());
    assert_eq!(9, TraceId::random(Some(9)).unwrap().to_u128());
}

#[test]
fn hex_parse_is_case_insensitive() {
    assert_eq!(
        SpanId::try_from_hex("ABCDEF0123456789").unwrap(),
        SpanId::try_from_hex("abcdef0123456789").unwrap()
    );
    assert_eq!(0xabcdef0123456789, SpanId::try_from_hex("AbCdEf0123456789").unwrap().to_u64());
    assert!(SpanId::try_from_hex("abcdefg123456789").is_err());
    assert!(TraceId::try_from_hex("0123456789abcdef0123456789abcdeG").is_err());
}

#[test]
fn ids_to_from_bytes() {
    let span = SpanId::from_u64(0x0102030405060708).unwrap();
    assert_eq!([1, 2, 3, 4, 5, 6, 7, 8], span.to_bytes());
    assert_eq!(Some(span), SpanId::from_bytes(span.to_bytes()));
    assert_eq!(None, SpanId::from_bytes([0; 8]));

    let trace = TraceId::from_u128(0x0102030405060708090a0b0c0d0e0f10).unwrap();
    assert_eq!(
        [1, 2, 3, 4, 5, 6, 7, 8, 9, 10, 11, 12, 13, 14, 15, 16],
        trace.to_bytes()
    );
    assert_eq!(Some(trace), TraceId::from_bytes(trace.to_bytes()));
    assert_eq!(None, TraceId::from_bytes([0; 16]));
}

#[test]
fn max_ids_roundtrip() {
    let span = SpanId::from_u64(u64::MAX).unwrap();
    assert_eq!("ffffffffffffffff", span.to_string());
    assert_eq!(span, SpanId::try_from_hex_slice(&span.to_hex()).unwrap());

    let trace = TraceId::from_u128(u128::MAX).unwrap();
    assert_eq!("ffffffffffffffffffffffffffffffff", trace.to_string());
    assert_eq!(trace, TraceId::try_from_hex_slice(&trace.to_hex()).unwrap());
}

#[test]
fn span_ctxt_new() {
    let empty = SpanCtxt::empty();
    assert_eq!(None, empty.trace_id());
    assert_eq!(None, empty.span_parent());
    assert_eq!(None, empty.span_id());

    let root = SpanCtxt::new_root(Some(1), Some(2));
    assert_eq!(Some(&TraceId::from_u128(1).unwrap()), root.trace_id());
    assert_eq!(None, root.span_parent());
    assert_eq!(Some(&SpanId::from_u64(2).unwrap()), root.span_id());

    let child = root.new_child(Some(5), Some(3));
    assert_eq!(root.trace_id(), child.trace_id());
    assert_eq!(root.span_id(), child.span_parent());
    assert_eq!(Some(&SpanId::from_u64(3).unwrap()), child.span_id());

    let orphan = empty.new_child(Some(4), None);
    assert_eq!(Some(&TraceId::from_u128(4).unwrap()), orphan.trace_id());
    assert_eq!(None, orphan.span_parent());
    assert_eq!(None, orphan.span_id());

    assert_eq!(
        SpanCtxt::new(None, None, SpanId::from_u64(1)),
        SpanCtxt::empty().new_child(None, Some(1))
    );
}

#[test]
fn span_id_random_rand() {
    assert!(SpanId::random(emit::platform::rand_rng::RandRng::new().gen_u64()).is_some());
}

#[test]
fn trace_id_random_rand() {
    assert!(TraceId::random(emit::platform::rand_rng::RandRng::new().gen_u128()).is_some());
}

#[test]
fn from_str_agrees_with_try_from_hex() {
    assert_eq!(SpanId::from_str("00000000000000ff").unwrap().to_u64(), 255);
    assert!(SpanId::from_str("0000000000000000").is_err());
    assert!(SpanId::from_str("ff").is_err());
    assert_eq!(TraceId::from_str("000000000000000000000000000000ff").unwrap().to_u128(), 255);
    assert!(TraceId::from_str("0000000000000000000000000000000g").is_err());
}

#[test]
fn span_guards_complete_only_when_enabled() {
    let ctxt = SpanCtxt::new(TraceId::from_u128(1), None, SpanId::from_u64(2));
    let state = |props: i32| SpanGuardState {
        mdl: "app".to_string(),
        name: "work".to_string(),
        ctxt,
        start: Some(Timestamp::from_unix_secs(1)),
        props,
    };

    let event = span_start_event("app".to_string(), "work".to_string(), 1, 2, ctxt, 3);
    assert_eq!("{span_name} started", event.template);
    assert_eq!(None, event.extent);
    assert_eq!("work", event.span_name);
    assert_eq!((1, 2, 3), (event.span_props, event.ctxt_props, event.current_props));

    let enabled = SpanGuard::new(state(7), "default", true);
    assert!(enabled.is_enabled());
    assert_eq!(Some(ctxt), enabled.span_ctxt());
    let (span, completion) = enabled.complete(Some(Timestamp::from_unix_secs(3))).unwrap();
    assert_eq!("default", completion);
    assert_eq!(("app", "work", 7), (span.mdl.as_str(), span.name.as_str(), span.props));
    assert_eq!(Some(Extent::Range(Timestamp::from_unix_secs(1), Timestamp::from_unix_secs(3))), span.extent);

    let enabled = SpanGuard::new(state(7), "default", true);
    let (span, other) = enabled.complete_with(None, 9).unwrap();
    assert_eq!(9, other);
    assert_eq!(Some(Extent::Point(Timestamp::from_unix_secs(1))), span.extent);

    let disabled = SpanGuard::new(state(7), "default", false);
    assert!(!disabled.is_enabled());
    assert!(disabled.complete(Some(Timestamp::from_unix_secs(3))).is_none());

    let disabled = SpanGuard::new(state(7), "default", false);
    assert!(disabled.complete_with(None, 9).is_none());
}
