use noscript::create_d_tag;
use noscript::find_first_by_prefix;
use noscript::find_second_by_prefix;
use noscript::Event;

fn event_with_tags(tags: Vec<Vec<String>>) -> Event {
    Event {
        id: "evt-id".to_string(),
        pubkey: "pk".to_string(),
        created_at: 1700000000,
        kind: noscript::NOSCRIPT_KIND,
        tags,
        content: String::new(),
        sig: "sig".to_string(),
    }
}

#[test]
fn prefix_lookup_returns_first_and_second_match() {
    let tags = vec![
        vec!["e1".to_string(), "first".to_string()],
        vec!["x".to_string(), "other".to_string()],
        vec!["e2".to_string(), "second".to_string()],
    ];
    assert_eq!(find_first_by_prefix(&tags, "e"), Some(&"first".to_string()));
    assert_eq!(find_second_by_prefix(&tags, "e"), Some(&"second".to_string()));
}

#[test]
fn second_lookup_misses_with_a_single_match() {
    let tags = vec![
        vec!["e1".to_string(), "first".to_string()],
        vec!["x".to_string(), "other".to_string()],
    ];
    assert_eq!(find_first_by_prefix(&tags, "e"), Some(&"first".to_string()));
    assert_eq!(find_second_by_prefix(&tags, "e"), None);
}

#[test]
fn event_e_tag_lookups_scan_in_order() {
    let ev = event_with_tags(vec![
        vec!["p".to_string(), "pk1".to_string()],
        vec!["e".to_string(), "aaa".to_string()],
        vec!["expiration".to_string(), "123".to_string()],
        vec!["e".to_string(), "bbb".to_string()],
    ]);
    assert_eq!(ev.find_first_e_tag(), Some(&"aaa".to_string()));
    // any key starting with "e" counts as a match, so the "expiration"
    // record is the second one and its value comes back
    assert_eq!(ev.find_second_e_tag(), Some(&"123".to_string()));
}

#[test]
fn event_e_tag_lookups_miss_without_matches() {
    let ev = event_with_tags(vec![vec!["p".to_string(), "pk1".to_string()]]);
    assert_eq!(ev.find_first_e_tag(), None);
    assert_eq!(ev.find_second_e_tag(), None);
}

#[test]
fn matching_record_without_value_field_yields_nothing() {
    let ev = event_with_tags(vec![vec!["e".to_string()]]);
    assert_eq!(ev.find_first_e_tag(), None);
}

#[test]
fn find_first_tag_returns_all_fields_after_the_key() {
    let ev = event_with_tags(vec![
        vec!["d".to_string(), "script-id".to_string()],
        vec!["kinds".to_string(), "1".to_string(), "30023".to_string()],
    ]);
    assert_eq!(ev.find_first_tag("d"), Some(vec!["script-id".to_string()]));
    assert_eq!(
        ev.find_first_tag("kinds"),
        Some(vec!["1".to_string(), "30023".to_string()])
    );
    assert_eq!(ev.find_first_tag("missing"), None);
}

#[test]
fn key_only_record_yields_empty_field_list() {
    let ev = event_with_tags(vec![vec!["d".to_string()]]);
    assert_eq!(ev.find_first_tag("d"), Some(Vec::<String>::new()));
}

#[test]
fn identifier_encoding_round_trips_through_lookup() {
    let ev = event_with_tags(create_d_tag(Some("Japanese-Lang".to_string())));
    assert_eq!(ev.find_first_tag("d"), Some(vec!["Japanese-Lang".to_string()]));

    let ev2 = event_with_tags(create_d_tag(None));
    assert_eq!(ev2.tags, Vec::<Vec<String>>::new());
    assert_eq!(ev2.find_first_tag("d"), None);
}
