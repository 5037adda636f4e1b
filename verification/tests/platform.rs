use emit::platform::libm::{goldschmidt_final, goldschmidt_r2, wmulh_u32, wmulh_u64};
use emit::metric::Timestamp;
use emit::platform::rand_rng::RandRng;
use emit::platform::system_clock::EpochOffset;
use emit::utc::UtcTime;

#[test]
fn wide_multiplication_keeps_the_high_half() {
    assert_eq!(0, wmulh_u32(1, 1));
    assert_eq!(1, wmulh_u32(0x10000, 0x10000));
    assert_eq!(0xfffffffe, wmulh_u32(u32::MAX, u32::MAX));
    assert_eq!(1, wmulh_u64(1 << 32, 1 << 32));
    assert_eq!(0xfffffffffffffffe, wmulh_u64(u64::MAX, u64::MAX));
}

#[test]
fn goldschmidt_iterations() {
    // No iterations leave the inputs as they are
    assert_eq!((5, 6), goldschmidt_r2(5, 6, 0));
    assert_eq!((5, 6), goldschmidt_final(5, 6, 0));

    assert_eq!((0x2, 0x3fff_fffe), goldschmidt_r2(0xffff_ffff, 0x4000_0000, 2));
    assert_eq!((0xffd8_730e, 0x3eb6_425c), goldschmidt_r2(0xb451_0000, 0x4000_0000, 3));
    assert_eq!(
        (0x4000_0000_0000_0000, 0x1fff_ffff_ffff_ffff),
        goldschmidt_final(0xffff_ffff_0000_0000, 0x4000_0000_0000_0000, 2)
    );
}

#[test]
fn gen() {
    let rng = RandRng::new();
    assert!(rng.gen_u64().is_some());
    assert!(rng.gen_u128().is_some());
    assert_ne!(RandRng::new().gen_u128(), RandRng::new().gen_u128());
    let mut a = [0u8; 32];
    let mut b = [0u8; 32];
    RandRng::new().fill(&mut a).unwrap();
    RandRng::new().fill(&mut b).unwrap();
    assert_ne!(a, b);
}

#[test]
fn now() {
    assert!(emit::platform::system_clock::SystemClock::new().now().is_some())
}

#[test]
fn fill_hands_back_the_same_buffer() {
    let mut a = [0u8; 16];
    let filled = RandRng::new().fill(&mut a).unwrap();
    assert_eq!(16, filled.len());
    filled[0] = 1;
    filled[15] = 2;
    assert_eq!(1, a[0]);
    assert_eq!(2, a[15]);
}

#[test]
fn clock_readings_as_timestamps_and_utc_times() {
    assert_eq!(Some(Timestamp::from_unix_nanos(2_000_000_003)), Timestamp::from_epoch_offset(EpochOffset::After(2, 3)));
    assert_eq!(None, Timestamp::from_epoch_offset(EpochOffset::Before(0, 1)));

    assert_eq!(Some(UtcTime { secs: 5, nanos: 7 }), UtcTime::from_epoch_offset(EpochOffset::After(5, 7)));
    assert_eq!(Some(UtcTime { secs: -1, nanos: 0 }), UtcTime::from_epoch_offset(EpochOffset::Before(1, 0)));
    assert_eq!(Some(UtcTime { secs: -2, nanos: 999_999_750 }), UtcTime::from_epoch_offset(EpochOffset::Before(1, 250)));
    assert_eq!(Some(UtcTime { secs: i64::MIN, nanos: 0 }), UtcTime::from_epoch_offset(EpochOffset::Before(1 << 63, 0)));
    assert_eq!(None, UtcTime::from_epoch_offset(EpochOffset::Before(1 << 63, 1)));
    assert_eq!(None, UtcTime::from_epoch_offset(EpochOffset::After(1 << 63, 0)));
}
