use history_metadata::message::Message;
use history_metadata::metadata::latest_triggers_unread;
use history_metadata::metadata::ReadMarker;
use history_metadata::timestamp::Timestamp;

fn at(second: u8) -> Timestamp {
    Timestamp::new(2024, 6, 1, 12, 0, second, 0).unwrap()
}

#[test]
fn latest_read_marker_takes_last_external_message() {
    let messages = [
        Message::new(at(1), false, true),
        Message::new(at(2), false, true),
        Message::new(at(3), true, false),
    ];
    // the newest message is internal, so the one before it wins
    assert_eq!(ReadMarker::latest(&messages), Some(ReadMarker(at(2))));
}

#[test]
fn latest_read_marker_empty_and_all_internal() {
    assert_eq!(ReadMarker::latest(&[]), None);
    let messages = [
        Message::new(at(1), true, false),
        Message::new(at(2), true, false),
    ];
    assert_eq!(ReadMarker::latest(&messages), None);
}

#[test]
fn latest_read_marker_takes_newest_when_external() {
    let messages = [
        Message::new(at(1), true, false),
        Message::new(at(2), false, true),
    ];
    assert_eq!(ReadMarker::latest(&messages), Some(ReadMarker(at(2))));
}

#[test]
fn latest_unread_trigger_takes_last_triggering_message() {
    let messages = [
        Message::new(at(1), false, true),
        Message::new(at(2), false, true),
        Message::new(at(3), false, false),
    ];
    assert_eq!(latest_triggers_unread(&messages), Some(at(2)));
}

#[test]
fn latest_unread_trigger_none_when_nothing_triggers() {
    assert_eq!(latest_triggers_unread(&[]), None);
    let messages = [
        Message::new(at(1), false, false),
        Message::new(at(2), true, false),
    ];
    assert_eq!(latest_triggers_unread(&messages), None);
}

#[test]
fn derivations_are_independent() {
    // an internal message may still trigger the unread indicator, and an
    // external one may not: the two scans pick different messages
    let messages = [
        Message::new(at(1), false, false),
        Message::new(at(2), true, true),
    ];
    assert_eq!(ReadMarker::latest(&messages), Some(ReadMarker(at(1))));
    assert_eq!(latest_triggers_unread(&messages), Some(at(2)));
    assert!(messages[1].is_internal_origin());
    assert!(messages[1].triggers_unread());
}
