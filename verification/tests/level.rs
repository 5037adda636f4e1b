use std::str::FromStr;

use emit::level::{min_filter, Level, MinLevelFilter, ParseLevelError};

#[test]
fn parse() {
    for (case, expected) in [
        ("d", Ok(Level::Debug)),
        ("dbg", Ok(Level::Debug)),
        ("debug", Ok::<Level, ParseLevelError>(Level::Debug)),
        ("i", Ok(Level::Info)),
        ("inf", Ok(Level::Info)),
        ("info", Ok(Level::Info)),
        ("information", Ok(Level::Info)),
        ("w", Ok(Level::Warn)),
        ("wrn", Ok(Level::Warn)),
        ("warn", Ok(Level::Warn)),
        ("warning", Ok(Level::Warn)),
        ("e", Ok(Level::Error)),
        ("err", Ok(Level::Error)),
        ("error", Ok(Level::Error)),
        ("INFO3", Ok(Level::Info)),
        ("WRN(x)", Ok(Level::Warn)),
        ("info warn", Ok(Level::Info)),
        ("", Err(ParseLevelError {})),
        ("ifo", Err(ParseLevelError {})),
        ("trace", Err(ParseLevelError {})),
        ("erroneous", Err(ParseLevelError {})),
        ("infoℹ️", Err(ParseLevelError {})),
    ] {
        match expected {
            Ok(expected) => {
                assert_eq!(expected, Level::from_str(case).unwrap());
                assert_eq!(expected, Level::from_str(&case.to_uppercase()).unwrap());
                assert_eq!(expected, Level::from_str(&format!(" {case} ")).unwrap());
            }
            Err(expected) => assert_eq!(
                expected.to_string(),
                Level::from_str(case).unwrap_err().to_string()
            ),
        }
    }
}

#[test]
fn roundtrip() {
    for lvl in [Level::Info, Level::Debug, Level::Warn, Level::Error] {
        let fmt = lvl.to_string();

        let parsed: Level = fmt.parse().unwrap();

        assert_eq!(lvl, parsed, "{}", fmt);
    }
}

#[test]
fn level_names() {
    assert_eq!("debug", Level::Debug.to_string());
    assert_eq!("info", Level::Info.to_string());
    assert_eq!("warn", Level::Warn.to_string());
    assert_eq!("error", Level::Error.to_string());
}

#[test]
fn level_default_is_info() {
    assert_eq!(Level::Info, Level::default());
}

#[test]
fn parse_trims_unicode_white_space() {
    assert_eq!(Level::Warn, Level::try_from_str("\u{3000}\tWARN\u{2028}\n").unwrap());
}

#[test]
fn parse_rejects_control_characters() {
    assert!(Level::try_from_str("info\u{7f}").is_err());
    assert!(Level::try_from_str("in\u{1}fo").is_err());
    assert!(Level::try_from_str("x").is_err());
    assert_eq!("the input was not a valid level", ParseLevelError {}.to_string());
}

#[test]
fn parse_allows_trailing_printable_ascii() {
    assert_eq!(Level::Error, Level::try_from_str("ERR!!").unwrap());
    assert_eq!(Level::Debug, Level::try_from_str("db~").unwrap());
}

#[test]
fn min_level_filter() {
    let filter = MinLevelFilter::new(Level::Warn);

    assert!(filter.matches(Level::try_from_str("error").ok()));
    assert!(filter.matches(Level::try_from_str("warn").ok()));
    assert!(!filter.matches(None));
    assert!(!filter.matches(Level::try_from_str("debug").ok()));
    assert!(!filter.matches(Level::try_from_str("info").ok()));
}

#[test]
fn min_level_filter_with_default() {
    let filter = MinLevelFilter::new(Level::Info).treat_unleveled_as(Level::Info);

    assert!(filter.matches(Some(Level::Error)));
    assert!(filter.matches(Some(Level::Warn)));
    assert!(filter.matches(Some(Level::Info)));
    assert!(filter.matches(None));
    assert!(!filter.matches(Some(Level::Debug)));
}

#[test]
fn min_level_filter_integer() {
    let filter = MinLevelFilter::new(3).treat_unleveled_as(1);

    assert!(filter.matches(Some(3)));
    assert!(filter.matches(Some(4)));
    assert!(!filter.matches(Some(2)));
    assert!(!filter.matches(None));
}

#[test]
fn min_filter_is_min_level_filter() {
    let filter = min_filter(Level::Error);

    assert!(filter.matches(Some(Level::Error)));
    assert!(!filter.matches(Some(Level::Warn)));
    assert!(!filter.matches(None));
}

#[test]
fn parse_ignores_ascii_case_and_surrounding_space() {
    for (text, expected) in [("dEbUg", Some(Level::Debug)), ("iNfOrMaTiOn", Some(Level::Info)), ("wrn", Some(Level::Warn)), ("nope", None)] {
        let parsed = Level::try_from_str(text).ok();
        assert_eq!(expected, parsed, "{text}");
        assert_eq!(parsed, Level::try_from_str(&text.to_ascii_uppercase()).ok(), "{text}");
        assert_eq!(parsed, Level::try_from_str(&text.to_ascii_lowercase()).ok(), "{text}");
        assert_eq!(parsed, Level::try_from_str(&format!("\u{3000}\t{text}\u{2028} ")).ok(), "{text}");
    }
}
