use steel::host::{is_plugin_extension, plugin_library_hint, AnnouncerPlugin, HostState};

#[test]
fn counters_insert_get_len() {
    let mut h = HostState::new();
    assert_eq!(h.counter_len(), 0);
    assert_eq!(h.get_counter("a"), None);
    assert_eq!(h.insert_counter("a", 5), None);
    assert_eq!(h.get_counter("a"), Some(5));
    assert_eq!(h.insert_counter("a", 7), Some(5));
    assert_eq!(h.get_counter("a"), Some(7));
    assert_eq!(h.insert_counter("b", 1), None);
    assert_eq!(h.counter_len(), 2);
}

#[test]
fn increment_creates_and_saturates() {
    let mut h = HostState::new();
    assert_eq!(h.increment_counter("x", 3), 3);
    assert_eq!(h.increment_counter("x", 4), 7);
    h.insert_counter("big", u32::MAX - 1);
    assert_eq!(h.increment_counter("big", 5), u32::MAX);
    assert_eq!(h.get_counter("big"), Some(u32::MAX));
    assert_eq!(h.counter_len(), 2);
}

#[test]
fn log_appends() {
    let mut h = HostState::new();
    h.log("one");
    h.log("two");
    assert_eq!(h.logged(), &vec![String::from("one"), String::from("two")]);
}

#[test]
fn announcer_callbacks() {
    let mut h = HostState::new();
    let mut p = AnnouncerPlugin::new();
    assert_eq!(p.name(), "announcer");
    assert_eq!(p.on_server_start(&mut h, 120), 1);
    assert_eq!(p.on_server_start(&mut h, 240), 2);
    assert_eq!(h.get_counter("server_starts"), Some(2));
    assert_eq!(p.on_player_join(&mut h, "Alex"), 1);
    assert_eq!(p.on_player_join(&mut h, "Alex"), 2);
    assert_eq!(p.on_player_join(&mut h, "Sam"), 3);
    assert_eq!(h.get_counter("Alex"), Some(2));
    assert_eq!(h.get_counter("Sam"), Some(1));
    assert_eq!(h.get_counter("player_joins"), Some(3));
    assert_eq!(p.joins_seen, 3);
    assert_eq!(p.starts_seen, 2);
    assert_eq!(h.logged().len(), 5);
    assert_eq!(h.logged()[0], "announcer observed server start");
    assert_eq!(h.logged()[2], "announcer observed player join");
}

#[test]
fn library_hints_and_extensions() {
    assert_eq!(plugin_library_hint("windows"), "your_plugin.dll");
    assert_eq!(plugin_library_hint("macos"), "libyour_plugin.dylib");
    assert_eq!(plugin_library_hint("linux"), "libyour_plugin.so");
    assert!(is_plugin_extension("so"));
    assert!(is_plugin_extension("dll"));
    assert!(is_plugin_extension("dylib"));
    assert!(!is_plugin_extension("txt"));
    assert!(!is_plugin_extension("SO"));
}
