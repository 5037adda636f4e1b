use emit::level::path_map::segments;
use emit::level::{min_by_path_filter, min_filter, Level, MinLevelFilter, MinLevelPathMap};

#[test]
fn min_level() {
    let mut filter = MinLevelPathMap::new();

    filter.min_level("a", min_filter(Level::Error));

    assert!(!filter.matches("a", Some(Level::Warn)));
    assert!(filter.matches("a", Some(Level::Error)));
}

#[test]
fn min_level_default() {
    let mut filter = MinLevelPathMap::new();

    filter.default_min_level(min_filter(Level::Error));

    assert!(!filter.matches("a", Some(Level::Warn)));
    assert!(filter.matches("a", Some(Level::Error)));
}

#[test]
fn min_level_child() {
    let mut filter = MinLevelPathMap::new();

    filter
        .min_level("a", min_filter(Level::Error))
        .min_level("a::b::c", min_filter(Level::Warn));

    assert!(!filter.matches("a", Some(Level::Warn)));
    assert!(!filter.matches("a::b", Some(Level::Warn)));
    assert!(filter.matches("a::b::c", Some(Level::Warn)));
}

#[test]
fn min_level_unmatched() {
    let mut filter = MinLevelPathMap::new();

    filter.min_level("a", min_filter(Level::Error));

    assert!(filter.matches("b", Some(Level::Warn)));
}

#[test]
fn min_level_default_unmatched() {
    let mut filter = MinLevelPathMap::new();

    filter
        .default_min_level(min_filter(Level::Error))
        .min_level("a", min_filter(Level::Error));

    assert!(!filter.matches("b", Some(Level::Warn)));
}

#[test]
fn min_level_integer() {
    let mut filter = MinLevelPathMap::<u8>::new();

    filter
        .default_min_level(MinLevelFilter::new(3))
        .min_level("a", MinLevelFilter::new(1));

    assert!(filter.matches("a", Some(2)));
    assert!(filter.matches("b", Some(6)));
    assert!(!filter.matches("a", Some(0)));
    assert!(!filter.matches("b", Some(2)));
}

#[test]
fn path_map_segments_split_at_double_colons() {
    assert_eq!(
        segments(b"a::bc::d"),
        vec![b"a".to_vec(), b"bc".to_vec(), b"d".to_vec()]
    );
    assert_eq!(segments(b"a:b"), vec![b"a:b".to_vec()]);
    assert_eq!(segments(b""), vec![Vec::<u8>::new()]);
}

#[test]
fn path_map_child_of_deeper_module_uses_nearest_parent() {
    let mut filter = MinLevelPathMap::new();

    filter.min_level("a::b", min_filter(Level::Error));

    // A child below the module is covered by its filter.
    assert!(!filter.matches("a::b::c::d", Some(Level::Warn)));
    // The parent and a sibling are not.
    assert!(filter.matches("a", Some(Level::Debug)));
    assert!(filter.matches("a::c", Some(Level::Debug)));
    // A module that only shares a text prefix is not a child.
    assert!(filter.matches("a::bc", Some(Level::Debug)));
}

#[test]
fn path_map_unleveled_events() {
    let mut filter = MinLevelPathMap::new();

    filter.min_level("a", min_filter(Level::Info));
    filter.min_level("b", min_filter(Level::Warn).treat_unleveled_as(Level::Error));

    // Unleveled events are treated as carrying the default level, `Info`.
    assert!(filter.matches("a", None));
    assert!(filter.matches("b", None));
    assert!(!filter.matches("a", Some(Level::Debug)));
}

#[test]
fn path_map_later_setting_replaces_earlier() {
    let mut filter = MinLevelPathMap::new();

    filter.min_level("x::y", min_filter(Level::Error));
    filter.min_level("x::y", min_filter(Level::Debug));

    assert!(filter.matches("x::y", Some(Level::Debug)));
}

#[test]
fn path_map_from_pairs() {
    let filter = min_by_path_filter(vec![
        ("a", min_filter(Level::Error)),
        ("a::b", min_filter(Level::Debug)),
        ("a", min_filter(Level::Warn)),
    ]);

    // The later setting for `a` replaces the earlier one.
    assert!(filter.matches("a", Some(Level::Warn)));
    assert!(!filter.matches("a", Some(Level::Info)));
    assert!(filter.matches("a::b::c", Some(Level::Debug)));
    assert!(filter.matches("z", Some(Level::Debug)));
}

#[test]
fn path_map_empty_passes_everything() {
    let filter = MinLevelPathMap::<Level>::new();

    assert!(filter.matches("a::b", Some(Level::Debug)));
    assert!(filter.matches("", None));
}
