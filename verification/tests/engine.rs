use std::collections::HashMap;

use history_metadata::engine::load;
use history_metadata::engine::save;
use history_metadata::engine::update;
use history_metadata::message::Message;
use history_metadata::metadata::Metadata;
use history_metadata::metadata::ReadMarker;
use history_metadata::path::file_name;
use history_metadata::path::Kind;
use history_metadata::timestamp::Timestamp;

/// An in-memory stand-in for the storage directory: file name to file text,
/// driven exactly as a host drives the engine against real files.
struct Store {
    files: HashMap<String, String>,
}

impl Store {
    fn new() -> Store {
        Store { files: HashMap::new() }
    }

    fn load(&self, server: &str, kind: &Kind) -> Metadata {
        let name = file_name(server, kind);
        load(self.files.get(&name).map(|s| s.as_str()))
    }

    fn save(&mut self, server: &str, kind: &Kind, messages: &[Message], rm: Option<ReadMarker>) {
        let name = file_name(server, kind);
        let text = save(messages, rm);
        self.files.insert(name, text);
    }

    fn update(&mut self, server: &str, kind: &Kind, rm: &ReadMarker) {
        let name = file_name(server, kind);
        if let Some(text) = update(self.files.get(&name).map(|s| s.as_str()), rm) {
            self.files.insert(name, text);
        }
    }
}

fn marker(text: &str) -> ReadMarker {
    ReadMarker::from_rfc3339(text).unwrap()
}

#[test]
fn load_defaults_on_missing_or_corrupt_text() {
    let default = Metadata { read_marker: None, last_triggers_unread: None };
    assert_eq!(load(None), default);
    assert_eq!(load(Some("")), default);
    assert_eq!(load(Some("{invalid json!")), default);
    assert_eq!(load(Some("[1,2,3]")), default);
    assert_eq!(load(Some("{\"read_marker\":\"eleven\",\"last_triggers_unread\":null}")), default);
}

#[test]
fn load_keeps_a_marker_stored_with_unknown_members() {
    // a file written with extra members, say by a newer version, still
    // yields its marker, and an older candidate still cannot regress it
    let text = "{\"read_marker\":\"2024-01-01T00:00:00.000Z\",\"future_member\":[1,2]}";
    let loaded = load(Some(text));
    assert_eq!(
        loaded.read_marker.unwrap().to_rfc3339(),
        "2024-01-01T00:00:00.000Z"
    );
    assert_eq!(update(Some(text), &marker("2023-12-31T23:00:00.000Z")), None);
}

#[test]
fn load_reads_back_what_save_wrote() {
    let mut store = Store::new();
    let kind = Kind::Channel(String::from("#verus"));
    let t1 = Timestamp::new(2024, 5, 1, 10, 0, 0, 0).unwrap();
    let t2 = Timestamp::new(2024, 5, 1, 10, 5, 0, 500).unwrap();
    let messages = [Message::new(t1, false, true), Message::new(t2, false, true)];
    store.save("libera", &kind, &messages, Some(ReadMarker(t1)));
    let loaded = store.load("libera", &kind);
    assert_eq!(loaded.read_marker, Some(ReadMarker(t1)));
    assert_eq!(loaded.last_triggers_unread, Some(t2));
}

#[test]
fn save_overwrites_and_may_clear_the_marker() {
    let mut store = Store::new();
    let kind = Kind::Server;
    let t = Timestamp::new(2024, 5, 1, 10, 0, 0, 0).unwrap();
    store.save("libera", &kind, &[Message::new(t, false, true)], Some(ReadMarker(t)));
    assert_eq!(store.load("libera", &kind).read_marker, Some(ReadMarker(t)));
    // the full-refresh path writes exactly what it is given, None included
    store.save("libera", &kind, &[], None);
    let loaded = store.load("libera", &kind);
    assert_eq!(loaded.read_marker, None);
    assert_eq!(loaded.last_triggers_unread, None);
}

#[test]
fn update_scenario_keeps_the_newer_marker() {
    // an update on an empty store persists the marker; a later update with
    // an older marker leaves the stored one unchanged
    let mut store = Store::new();
    let kind = Kind::Channel(String::from("#general"));
    store.update("serverX", &kind, &marker("2024-01-01T00:00:00.000Z"));
    assert_eq!(
        store.load("serverX", &kind).read_marker.unwrap().to_rfc3339(),
        "2024-01-01T00:00:00.000Z"
    );
    store.update("serverX", &kind, &marker("2023-12-31T23:00:00.000Z"));
    assert_eq!(
        store.load("serverX", &kind).read_marker.unwrap().to_rfc3339(),
        "2024-01-01T00:00:00.000Z"
    );
}

#[test]
fn update_with_older_marker_leaves_the_text_untouched() {
    let mut store = Store::new();
    let kind = Kind::Query(String::from("alice"));
    store.update("libera", &kind, &marker("2024-06-01T12:00:00.000Z"));
    let name = file_name("libera", &kind);
    let before = store.files.get(&name).unwrap().clone();
    // an equal marker is also a no-op
    assert_eq!(update(Some(&before), &marker("2024-06-01T12:00:00.000Z")), None);
    assert_eq!(update(Some(&before), &marker("2024-06-01T11:59:59.999Z")), None);
    store.update("libera", &kind, &marker("2024-06-01T11:00:00.000Z"));
    assert_eq!(store.files.get(&name).unwrap(), &before);
}

#[test]
fn sequential_updates_end_at_the_maximum() {
    let mut store = Store::new();
    let kind = Kind::Server;
    let markers = [
        "2024-01-05T00:00:00.000Z",
        "2024-01-02T00:00:00.000Z",
        "2024-01-09T00:00:00.000Z",
        "2024-01-09T00:00:00.000Z",
        "2024-01-01T00:00:00.000Z",
    ];
    for m in markers {
        store.update("libera", &kind, &marker(m));
    }
    assert_eq!(
        store.load("libera", &kind).read_marker.unwrap().to_rfc3339(),
        "2024-01-09T00:00:00.000Z"
    );
}

#[test]
fn update_carries_the_unread_trigger_over() {
    let mut store = Store::new();
    let kind = Kind::Server;
    let t = Timestamp::new(2024, 5, 1, 10, 0, 0, 0).unwrap();
    store.save("libera", &kind, &[Message::new(t, false, true)], None);
    store.update("libera", &kind, &marker("2024-05-01T10:00:00.000Z"));
    let loaded = store.load("libera", &kind);
    assert_eq!(loaded.read_marker, Some(ReadMarker(t)));
    assert_eq!(loaded.last_triggers_unread, Some(t));
}

#[test]
fn distinct_conversations_use_distinct_files() {
    let mut store = Store::new();
    let a = Kind::Channel(String::from("#general"));
    let b = Kind::Channel(String::from("#verus"));
    store.update("libera", &a, &marker("2024-01-01T00:00:00.000Z"));
    store.update("libera", &b, &marker("2022-06-01T00:00:00.000Z"));
    store.update("oftc", &a, &marker("2021-01-01T00:00:00.000Z"));
    assert_eq!(
        store.load("libera", &a).read_marker.unwrap().to_rfc3339(),
        "2024-01-01T00:00:00.000Z"
    );
    assert_eq!(
        store.load("libera", &b).read_marker.unwrap().to_rfc3339(),
        "2022-06-01T00:00:00.000Z"
    );
    assert_eq!(
        store.load("oftc", &a).read_marker.unwrap().to_rfc3339(),
        "2021-01-01T00:00:00.000Z"
    );
    assert_eq!(store.load("oftc", &b).read_marker, None);
    assert_eq!(store.files.len(), 3);
}
