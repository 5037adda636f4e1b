use emit::buf::{find, trim, trim_end, trim_start, Buffer};

#[test]
fn trims_ascii_whitespace() {
    assert_eq!(b"a b", trim_start(b" \t\n\r\x0ca b"));
    assert_eq!(b"a b \t", trim_start(b"a b \t"));
    assert_eq!(b" a", trim_end(b" a \r\n"));
    assert_eq!(b"a", trim(b"  a  "));
    assert_eq!(b"", trim(b" \t "));
    // Vertical tab is not ASCII whitespace
    assert_eq!(b"\x0ba", trim(b"\x0ba "));
}

#[test]
fn finds_the_first_position_holding_any_needle() {
    let needles = [(b',', 1u8), (b':', 1u8), (b'=', 0u8)];
    assert_eq!(Some((1, 1)), find(b"k: v, x", &needles[1..]));
    assert_eq!(Some((1, 1)), find(b"k: v, x", &needles));
    assert_eq!(Some((1, 1)), find(b"1: 1], [2", &[(b',', 1), (b':', 1)]));
    assert_eq!(Some((1, 0)), find(b"k=v", &needles));
    assert_eq!(Some((0, 1)), find(b",k=v", &needles));
    assert_eq!(None, find(b"kv", &needles));
    assert_eq!(None, find(b"k,v", &[]));
    // Where a byte is listed twice, the first entry's skip count applies
    assert_eq!(Some((2, 3)), find(b"ab:", &[(b':', 3), (b':', 0)]));
}

#[test]
fn buffer_holds_what_fits() {
    let mut buf = Buffer::<4>::new();
    assert_eq!(b"", buf.as_bytes());
    assert!(buf.push_str("ab"));
    assert!(buf.push_str("cd"));
    assert!(!buf.push_str("e"));
    assert_eq!(b"abcd", buf.as_bytes());
    buf.reset();
    assert_eq!(b"", buf.as_bytes());
    assert_eq!(b"xyz", buf.buffer("xyz").unwrap());
    assert!(buf.buffer("toolong").is_err());
}
