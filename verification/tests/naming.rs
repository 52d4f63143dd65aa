use history_metadata::path::canonical_name;
use history_metadata::path::file_name;
use history_metadata::path::Kind;

#[test]
fn canonical_names_follow_the_documented_shapes() {
    assert_eq!(canonical_name("libera", &Kind::Server), "libera-metadata");
    assert_eq!(
        canonical_name("libera", &Kind::Channel(String::from("#general"))),
        "liberachannel#general-metadata"
    );
    assert_eq!(
        canonical_name("libera", &Kind::Query(String::from("alice"))),
        "liberanicknamealice-metadata"
    );
    assert_eq!(canonical_name("libera", &Kind::Logs), "log-metadata");
}

#[test]
fn file_name_is_the_decimal_seahash_of_the_canonical_name() {
    let expected = format!("{}.json", seahash::hash("libera-metadata".as_bytes()));
    assert_eq!(file_name("libera", &Kind::Server), expected);

    let expected = format!(
        "{}.json",
        seahash::hash("liberachannel#general-metadata".as_bytes())
    );
    assert_eq!(
        file_name("libera", &Kind::Channel(String::from("#general"))),
        expected
    );

    let expected = format!("{}.json", seahash::hash("log-metadata".as_bytes()));
    assert_eq!(file_name("libera", &Kind::Logs), expected);
    // the aggregate log view ignores the server identity
    assert_eq!(file_name("oftc", &Kind::Logs), expected);
}

#[test]
fn canonical_names_can_collide_for_contrived_pairs() {
    // the name scheme concatenates without a separator, so a server identity
    // that itself contains "channel" can collide with a channel conversation;
    // such pairs share a file, the documented residual risk of the scheme
    let a = file_name("abcchannel#general", &Kind::Server);
    let b = file_name("abc", &Kind::Channel(String::from("#general")));
    assert_eq!(a, b);
}

#[test]
fn file_name_is_deterministic_and_separates_kinds() {
    let a = file_name("libera", &Kind::Channel(String::from("#general")));
    let b = file_name("libera", &Kind::Channel(String::from("#general")));
    assert_eq!(a, b);
    let kinds = [
        file_name("libera", &Kind::Server),
        file_name("libera", &Kind::Channel(String::from("#general"))),
        file_name("libera", &Kind::Query(String::from("alice"))),
        file_name("libera", &Kind::Logs),
        file_name("oftc", &Kind::Server),
    ];
    for i in 0..kinds.len() {
        for j in 0..kinds.len() {
            if i != j {
                assert_ne!(kinds[i], kinds[j]);
            }
        }
    }
}
