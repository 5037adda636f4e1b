use emit::events::Event;
use emit::utc::UtcTime;
use log::Level;

fn names<V>(props: &[(String, V)]) -> Vec<&str> {
    props.iter().map(|(k, _)| k.as_str()).collect()
}

#[test]
fn event_properties_are_sorted_and_later_values_win() {
    let evt = Event::new(
        UtcTime { secs: 1, nanos: 0 },
        Level::Warn,
        "the {b} and {a}".to_string(),
        vec![
            ("b".to_string(), 1),
            ("a".to_string(), 2),
            ("b".to_string(), 3),
            ("ä".to_string(), 4),
            ("Z".to_string(), 5),
        ],
    );

    assert_eq!(vec!["Z", "a", "b", "ä"], names(evt.properties()));
    assert_eq!(
        vec![5, 2, 3, 4],
        evt.properties().iter().map(|(_, v)| *v).collect::<Vec<_>>()
    );
    assert_eq!(Level::Warn, evt.level());
    assert_eq!("the {b} and {a}", evt.message_template());
    assert_eq!(UtcTime { secs: 1, nanos: 0 }, evt.timestamp());
}

#[test]
fn event_add_or_update_property() {
    let mut evt = Event::new(
        UtcTime { secs: 0, nanos: 0 },
        Level::Info,
        String::new(),
        vec![("x".to_string(), "1".to_string())],
    );

    evt.add_or_update_property("x", "2".to_string());
    evt.add_or_update_property("w", "3".to_string());

    assert_eq!(
        vec![("w".to_string(), "3".to_string()), ("x".to_string(), "2".to_string())],
        evt.properties().to_vec()
    );
}

#[test]
fn event_add_property_if_absent() {
    let mut evt = Event::new(
        UtcTime { secs: 0, nanos: 0 },
        Level::Error,
        String::new(),
        vec![("x".to_string(), 1u8)],
    );

    evt.add_property_if_absent("x", 2);
    evt.add_property_if_absent("y", 3);

    assert_eq!(vec![("x".to_string(), 1), ("y".to_string(), 3)], evt.properties().to_vec());
}

#[test]
fn info_is_enabled_at_info_level() {
    assert!(emit::events::level_is_enabled(Level::Info, Level::Info));
}

#[test]
fn warn_is_enabled_at_info_level() {
    assert!(emit::events::level_is_enabled(Level::Info, Level::Warn));
}

#[test]
fn debug_is_disabled_at_info_level() {
    assert!(!emit::events::level_is_enabled(Level::Info, Level::Debug));
    assert!(emit::events::level_is_enabled(Level::Trace, Level::Debug));
    assert!(!emit::events::level_is_enabled(Level::Error, Level::Warn));
}

#[test]
fn event_new_now() {
    let evt = Event::new_now(Level::Info, "now".to_string(), vec![("a".to_string(), 1)]).unwrap();
    assert!(evt.timestamp().secs > 0);
    assert_eq!(Level::Info, evt.level());
    assert_eq!(vec![("a".to_string(), 1)], evt.properties().to_vec());
}

#[test]
fn events_keep_times_before_the_epoch() {
    let evt = Event::new(UtcTime { secs: -86400, nanos: 5 }, Level::Warn, "old".to_string(), Vec::<(String, i32)>::new());
    assert_eq!(UtcTime { secs: -86400, nanos: 5 }, evt.timestamp());
}
