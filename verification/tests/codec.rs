use noscript::create_d_tag;
use noscript::create_noscript_payload_tag;
use noscript::encode_filter;
use noscript::FilterOptMode;
use noscript::NoscriptPayload;
use noscript::QueryFilter;

fn empty_payload() -> NoscriptPayload {
    NoscriptPayload {
        title: None,
        description: None,
        picture: None,
        version: None,
        source_code: None,
        published_at: None,
        runtime_version: None,
    }
}

#[test]
fn payload_empty_yields_no_records() {
    let tags = create_noscript_payload_tag(empty_payload());
    assert_eq!(tags, Vec::<Vec<String>>::new());
}

#[test]
fn payload_full_uses_fixed_field_order() {
    let p = NoscriptPayload {
        title: Some("follow".to_string()),
        description: Some("a noscript that filter japanese text only".to_string()),
        picture: Some("https://example.com/p.png".to_string()),
        version: Some("0.1.0".to_string()),
        source_code: Some("https://example.com/src".to_string()),
        published_at: Some(1700000000),
        runtime_version: Some("1.2.3".to_string()),
    };
    let tags = create_noscript_payload_tag(p);
    let expected = vec![
        vec!["title".to_string(), "follow".to_string()],
        vec![
            "description".to_string(),
            "a noscript that filter japanese text only".to_string(),
        ],
        vec!["picture".to_string(), "https://example.com/p.png".to_string()],
        vec!["version".to_string(), "0.1.0".to_string()],
        vec!["source_code".to_string(), "https://example.com/src".to_string()],
        vec!["published_at".to_string(), "1700000000".to_string()],
        vec!["runtime_version".to_string(), "1.2.3".to_string()],
    ];
    assert_eq!(tags, expected);
}

#[test]
fn payload_record_count_matches_populated_fields() {
    let p = NoscriptPayload {
        version: Some("2.0.0".to_string()),
        description: Some("d".to_string()),
        ..empty_payload()
    };
    let tags = create_noscript_payload_tag(p);
    assert_eq!(tags.len(), 2);
    // order is the declared field order, not the order the caller set them
    assert_eq!(tags[0][0], "description");
    assert_eq!(tags[1][0], "version");
}

#[test]
fn payload_negative_timestamp_renders_with_sign() {
    let p = NoscriptPayload {
        published_at: Some(-5),
        ..empty_payload()
    };
    let tags = create_noscript_payload_tag(p);
    assert_eq!(tags, vec![vec!["published_at".to_string(), "-5".to_string()]]);
}

#[test]
fn payload_zero_timestamp_renders_single_digit() {
    let p = NoscriptPayload {
        published_at: Some(0),
        ..empty_payload()
    };
    let tags = create_noscript_payload_tag(p);
    assert_eq!(tags, vec![vec!["published_at".to_string(), "0".to_string()]]);
}

#[test]
fn identifier_present_yields_single_d_record() {
    let tags = create_d_tag(Some("Japanese-Lang".to_string()));
    assert_eq!(tags, vec![vec!["d".to_string(), "Japanese-Lang".to_string()]]);
}

#[test]
fn identifier_absent_yields_nothing() {
    let tags = create_d_tag(None);
    assert_eq!(tags, Vec::<Vec<String>>::new());
}

#[test]
fn mode_ordinals_cover_the_closed_set() {
    assert_eq!(FilterOptMode::global.to_string(), "0");
    assert_eq!(FilterOptMode::follow.to_string(), "1");
    assert_eq!(FilterOptMode::trust_network.to_string(), "2");
    assert_eq!(FilterOptMode::sign_in_user.to_string(), "3");
    assert_eq!(FilterOptMode::visiting_user.to_string(), "4");
    assert_eq!(FilterOptMode::custom.to_string(), "5");
}

#[test]
fn empty_filter_yields_mode_and_marker_only() {
    let f = QueryFilter::default();
    let tags = encode_filter(&f, FilterOptMode::global);
    let expected = vec![
        vec!["mode".to_string(), "0".to_string()],
        vec!["noscript".to_string(), "wasm:msg:filter".to_string()],
    ];
    assert_eq!(tags, expected);
}

#[test]
fn filter_kinds_flatten_into_one_record() {
    let f = QueryFilter {
        kinds: vec![1, 30023],
        ..QueryFilter::default()
    };
    let tags = encode_filter(&f, FilterOptMode::global);
    let expected = vec![
        vec!["kinds".to_string(), "1".to_string(), "30023".to_string()],
        vec!["mode".to_string(), "0".to_string()],
        vec!["noscript".to_string(), "wasm:msg:filter".to_string()],
    ];
    assert_eq!(tags, expected);
}

#[test]
fn filter_full_uses_fixed_dimension_order() {
    let f = QueryFilter {
        ids: vec!["id1".to_string(), "id2".to_string()],
        authors: vec!["alice".to_string()],
        kinds: vec![1],
        limit: Some(50),
        since: Some(1690000000),
        until: Some(1700000000),
        generic_tags: vec![
            ('E', vec!["event-ref".to_string()]),
            ('p', vec!["pk1".to_string(), "pk2".to_string()]),
        ],
    };
    let tags = encode_filter(&f, FilterOptMode::custom);
    let expected = vec![
        vec!["ids".to_string(), "id1".to_string(), "id2".to_string()],
        vec!["authors".to_string(), "alice".to_string()],
        vec!["kinds".to_string(), "1".to_string()],
        vec!["limit".to_string(), "50".to_string()],
        vec!["since".to_string(), "1690000000".to_string()],
        vec!["until".to_string(), "1700000000".to_string()],
        vec!["#e".to_string(), "event-ref".to_string()],
        vec!["#p".to_string(), "pk1".to_string(), "pk2".to_string()],
        vec!["mode".to_string(), "5".to_string()],
        vec!["noscript".to_string(), "wasm:msg:filter".to_string()],
    ];
    assert_eq!(tags, expected);
}

#[test]
fn filter_generic_entry_with_no_values_is_omitted() {
    let f = QueryFilter {
        generic_tags: vec![('t', Vec::new()), ('r', vec!["ref".to_string()])],
        ..QueryFilter::default()
    };
    let tags = encode_filter(&f, FilterOptMode::follow);
    let expected = vec![
        vec!["#r".to_string(), "ref".to_string()],
        vec!["mode".to_string(), "1".to_string()],
        vec!["noscript".to_string(), "wasm:msg:filter".to_string()],
    ];
    assert_eq!(tags, expected);
}

#[test]
fn filter_always_carries_one_mode_and_one_marker() {
    let filters = vec![
        QueryFilter::default(),
        QueryFilter {
            ids: vec!["x".to_string()],
            kinds: vec![1, 2, 3],
            limit: Some(1),
            ..QueryFilter::default()
        },
    ];
    for f in filters {
        let tags = encode_filter(&f, FilterOptMode::trust_network);
        let modes = tags.iter().filter(|t| t[0] == "mode").count();
        let markers = tags.iter().filter(|t| t[0] == "noscript").count();
        assert_eq!(modes, 1);
        assert_eq!(markers, 1);
        assert_eq!(tags[tags.len() - 2], vec!["mode".to_string(), "2".to_string()]);
        assert_eq!(
            tags[tags.len() - 1],
            vec!["noscript".to_string(), "wasm:msg:filter".to_string()]
        );
    }
}

#[test]
fn extreme_numeric_fields_render_exactly() {
    let p = NoscriptPayload {
        published_at: Some(i64::MIN),
        ..empty_payload()
    };
    let tags = create_noscript_payload_tag(p);
    assert_eq!(
        tags,
        vec![vec![
            "published_at".to_string(),
            "-9223372036854775808".to_string()
        ]]
    );

    let f = QueryFilter {
        limit: Some(u64::MAX),
        ..QueryFilter::default()
    };
    let tags = encode_filter(&f, FilterOptMode::global);
    assert_eq!(tags[0], vec!["limit".to_string(), "18446744073709551615".to_string()]);
}

#[test]
fn generic_tag_keys_fold_to_lower_case() {
    let f = QueryFilter {
        generic_tags: vec![
            ('Z', vec!["a".to_string()]),
            ('q', vec!["b".to_string()]),
            ('1', vec!["c".to_string()]),
        ],
        ..QueryFilter::default()
    };
    let tags = encode_filter(&f, FilterOptMode::global);
    assert_eq!(tags[0][0], "#z");
    assert_eq!(tags[1][0], "#q");
    assert_eq!(tags[2][0], "#1");
}

#[test]
fn noscript_kind_is_fixed() {
    assert_eq!(noscript::NOSCRIPT_KIND, 32043);
}
