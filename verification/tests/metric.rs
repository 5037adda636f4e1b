use emit::utc::{format_utc, UtcTime};
use emit::metric::{normalize_extent, normalize_range, Extent, Timestamp};

fn secs(s: u64) -> Timestamp {
    Timestamp::from_unix_secs(s)
}

#[test]
fn normalize_empty_extent_to_now() {
    let min = Timestamp::from_unix_nanos(0);

    assert_eq!(Some(Extent::Point(min)), normalize_extent(Some(min), None));
}

#[test]
fn normalize_point_extent_to_now() {
    assert_eq!(
        Some(Extent::Point(secs(37))),
        normalize_extent(Some(secs(37)), Some(Extent::Point(secs(5))))
    );
    assert_eq!(Some(Extent::Point(secs(37))), normalize_extent(Some(secs(37)), None));
}

#[test]
fn normalize_range_extent_keeps_its_length() {
    assert_eq!(
        Some(Extent::Range(secs(250), secs(350))),
        normalize_extent(Some(secs(350)), Some(Extent::Range(secs(100), secs(200))))
    );
}

#[test]
fn normalize_without_a_clock_keeps_the_extent() {
    assert_eq!(None, normalize_extent(None, None));
    assert_eq!(
        Some(Extent::Range(secs(1), secs(2))),
        normalize_extent(None, Some(Extent::Range(secs(1), secs(2))))
    );
}

#[test]
fn normalize_keeps_ranges_that_cannot_move() {
    // Ends before it starts.
    assert_eq!(
        Some(Extent::Range(secs(9), secs(3))),
        normalize_extent(Some(secs(100)), Some(Extent::Range(secs(9), secs(3))))
    );
    // Longer than the time since the epoch.
    assert_eq!(None, normalize_range(secs(5), secs(10), secs(20)));
    assert_eq!(
        Some(Extent::Range(secs(10), secs(20))),
        normalize_extent(Some(secs(5)), Some(Extent::Range(secs(10), secs(20))))
    );
}

#[test]
fn normalize_range_values() {
    assert_eq!(
        Some((Timestamp::from_unix_nanos(7), Timestamp::from_unix_nanos(10))),
        normalize_range(
            Timestamp::from_unix_nanos(10),
            Timestamp::from_unix_nanos(1),
            Timestamp::from_unix_nanos(4)
        )
    );
    assert_eq!(1_000_000_000, secs(1).to_unix_nanos());
}

#[test]
fn normalize_twice_is_normalize_once() {
    let once = normalize_extent(Some(secs(350)), Some(Extent::Range(secs(100), secs(200))));
    assert_eq!(once, normalize_extent(Some(secs(350)), once));
}

use emit::metric::bucket_set::{format_bucket_set, parse_bucket_set, parse_count};
use emit::metric::bucket_counts::{BucketCounts, CountOverflow};
use emit::metric::delta::Delta;

fn buckets(pairs: &[(&str, u64)]) -> Vec<(Vec<u8>, u64)> {
    pairs.iter().map(|(k, v)| (k.as_bytes().to_vec(), *v)).collect()
}

#[test]
fn bucket_set_text_is_parsed() {
    for (case, expected) in [
        (format!("{:?}", [[1, 1], [2, 2]]), buckets(&[("1", 1), ("2", 2)])),
        (format!("{:?}", [(1.0, 1), (2.0, 2)]), buckets(&[("1.0", 1), ("2.0", 2)])),
        ("{(1, 1), (2, 2)}".to_string(), buckets(&[("1", 1), ("2", 2)])),
        ("{1: 1, 2: 2}".to_string(), buckets(&[("1", 1), ("2", 2)])),
        ("[ [ 1 , 1 ] , [ 2 , 2 ] ]".to_string(), buckets(&[("1", 1), ("2", 2)])),
        ("[ 1 : 1 , 2 : 2 ]".to_string(), buckets(&[("1", 1), ("2", 2)])),
        ("[[inf,1]]".to_string(), buckets(&[("inf", 1)])),
        ("[[nan,1]]".to_string(), buckets(&[("nan", 1)])),
        (
            "[(1, 1), [2, 1], {3: 1}]".to_string(),
            buckets(&[("1", 1), ("2", 1), ("3", 1)]),
        ),
        ("[]".to_string(), buckets(&[])),
        ("[ ]".to_string(), buckets(&[])),
        ("(1 = 4)".to_string(), buckets(&[("1", 4)])),
    ] {
        assert_eq!(Ok(expected), parse_bucket_set(case.as_bytes()), "{case}");
    }
}

#[test]
fn bucket_set_text_is_rejected() {
    for case in [
        "[1, 1]",
        "1, 1",
        "[[1, 1]], [[2, 1]]",
        "[[]]",
        "[[1,1}]",
        "[[1 1]]",
        "[[1, 1] [2, 1]]",
        "[,]",
        "[[,]]",
        "[[1,]]",
        "[[:]]",
        "[[1:]]",
        "[[1, -1]]",
        "[[1, 1.0]]",
        "[[1, 0xff]]",
        "[[1, ff]]",
        "{1.2789: 11111111111111111111, 2789: 11111111111111111111, 2 \\0:  \\0: 2}",
        "[",
        "",
        "[1: 1)",
    ] {
        assert!(parse_bucket_set(case.as_bytes()).is_err(), "{case}");
    }
    assert_eq!(
        "the input was not a valid bucket set",
        parse_bucket_set(b"x").unwrap_err().to_string()
    );
}

#[test]
fn bucket_set_keys_are_read_later() {
    // The grammar accepts an empty key; reading it as a number is what rejects it.
    assert_eq!(Ok(buckets(&[("", 1)])), parse_bucket_set(b"[[,1]]"));
    assert_eq!(Ok(buckets(&[("", 1)])), parse_bucket_set(b"[[:1]]"));
}

#[test]
fn bucket_set_bracketed_pairs_split_at_their_first_delimiter() {
    assert_eq!(
        Ok(buckets(&[("1", 1), ("2", 3)])),
        parse_bucket_set(b"[[1: 1], [2: 3]]")
    );
    assert_eq!(
        Ok(buckets(&[("1", 1), ("2", 3)])),
        parse_bucket_set(b"[(1 = 1), {2: 3}]")
    );
}

#[test]
fn bucket_set_counts() {
    assert_eq!(Some(42), parse_count(b"42"));
    assert_eq!(Some(7), parse_count(b"+7"));
    assert_eq!(Some(u64::MAX), parse_count(b"18446744073709551615"));
    assert_eq!(None, parse_count(b"18446744073709551616"));
    assert_eq!(None, parse_count(b""));
    assert_eq!(None, parse_count(b"+"));
    assert_eq!(None, parse_count(b"-1"));
    assert_eq!(None, parse_count(b" 1"));
}

#[test]
fn bucket_set_text_roundtrip() {
    let set = buckets(&[("1.5", 3), ("-2", 0), ("1e300", 18446744073709551612)]);
    let text = format_bucket_set(&set);
    assert_eq!(b"[[1.5,3],[-2,0],[1e300,18446744073709551612]]".to_vec(), text);
    assert_eq!(Ok(set), parse_bucket_set(&text));
    assert_eq!(b"[]".to_vec(), format_bucket_set(&[]));
}

#[test]
fn parse_point_error_message() {
    assert_eq!(
        "the input was not a valid point",
        emit::metric::ParsePointError {}.to_string()
    );
}

#[test]
fn utc_text_of_timestamps() {
    let ts = UtcTime { secs: 1404810611, nanos: 123456789 };
    assert_eq!(Some("2014-07-08T09:10:11Z".to_owned()), format_utc(ts, "%FT%TZ"));
    assert_eq!(Some("2014-07-08T09:10:11.123Z".to_owned()), format_utc(ts, "%FT%T%.3fZ"));
    assert_eq!(Some("2014-07-08T09:10:11.123456789Z".to_owned()), format_utc(ts, "%FT%T%.9fZ"));
    assert_eq!(Some("1970-01-01T00:00:00Z".to_owned()), format_utc(UtcTime { secs: 0, nanos: 0 }, "%FT%TZ"));
    assert_eq!(Some("1969-12-31T23:59:59Z".to_owned()), format_utc(UtcTime { secs: -1, nanos: 0 }, "%FT%TZ"));
    assert_eq!(None, format_utc(UtcTime { secs: i64::MAX, nanos: 0 }, "%FT%TZ"));
}

#[test]
fn delta_advance() {
    let mut delta = Delta::new(Some(Timestamp::from_unix_nanos(0)), 0);

    *delta.current_value_mut() += 1;

    let (extent, value) = delta.advance(Some(Timestamp::from_unix_secs(1)));

    assert_eq!(Some(Extent::Range(Timestamp::from_unix_nanos(0), Timestamp::from_unix_secs(1))), extent);
    assert_eq!(1, *value);
    *value = 0;
    assert_eq!(Some(&Timestamp::from_unix_secs(1)), delta.current_start());
    assert_eq!(0, *delta.current_value());
}

#[test]
fn delta_periods_follow_each_other() {
    let mut delta: Delta<u32> = Delta::new_default(None);
    *delta.current_value_mut() += 5;
    let (extent, value) = delta.advance_default(Some(Timestamp::from_unix_secs(2)));
    assert_eq!(Some(Extent::Point(Timestamp::from_unix_secs(2))), extent);
    assert_eq!(5, value);
    assert_eq!(0, *delta.current_value());
    let (extent, value) = delta.advance_default(Some(Timestamp::from_unix_secs(3)));
    assert_eq!(Some(Extent::Range(Timestamp::from_unix_secs(2), Timestamp::from_unix_secs(3))), extent);
    assert_eq!(0, value);
    let (extent, _) = delta.advance_default(None);
    assert_eq!(Some(Extent::Point(Timestamp::from_unix_secs(3))), extent);
    let (extent, _) = delta.advance_default(None);
    assert_eq!(None, extent);
}

#[test]
fn bucket_counts_add_up_and_refuse_overflow() {
    let mut counts = BucketCounts::new();
    assert_eq!(Ok(()), counts.observe_all(3, 2));
    assert_eq!(Ok(()), counts.observe_all(3, 5));
    assert_eq!(Ok(()), counts.observe_all(1, 1));
    assert_eq!(8, counts.total());
    assert_eq!(vec![(1, 1), (3, 7)], counts.buckets().iter().map(|(k, c)| (*k, *c)).collect::<Vec<_>>());

    assert_eq!(Err(CountOverflow::Bucket), counts.observe_all(3, u64::MAX));
    assert_eq!(Err(CountOverflow::Total), counts.observe_all(9, u64::MAX));
    assert_eq!(8, counts.total());
    assert_eq!(2, counts.buckets().len());

    assert!(!counts.insert_new(3, 1));
    assert!(counts.insert_new(4, 1));
    assert!(!counts.insert_new(5, u64::MAX));
    assert_eq!(9, counts.total());

    assert!(counts.remap(&[(10, 1), (10, 7), (20, 1)]));
    assert_eq!(vec![(10, 8), (20, 1)], counts.buckets().iter().map(|(k, c)| (*k, *c)).collect::<Vec<_>>());
    assert_eq!(9, counts.total());
    assert!(!counts.remap(&[(10, u64::MAX), (10, 1)]));
    assert_eq!(vec![(10, 8), (20, 1)], counts.buckets().iter().map(|(k, c)| (*k, *c)).collect::<Vec<_>>());

    counts.clear();
    assert_eq!(0, counts.total());
    assert!(counts.buckets().is_empty());
}
