use field_assist::ids::{parse_prefixed_uuid, CompositionId};

#[test]
fn composition_id_round_trips_prefixed() {
    let id = CompositionId::from_u128(42);
    let text = id.to_string();
    assert_eq!(text, "comp:00000000-0000-0000-0000-00000000002a");
    let parsed = CompositionId::parse(&text).unwrap();
    assert_eq!(parsed, id);
    let via_from_str: CompositionId = text.parse().unwrap();
    assert_eq!(via_from_str, id);
}

#[test]
fn hyphenated_form_groups_digits() {
    let id = CompositionId::from_u128(0x0123456789abcdef0123456789abcdef);
    assert_eq!(id.to_string(), "comp:01234567-89ab-cdef-0123-456789abcdef");
}

#[test]
fn prefixed_parse_rules() {
    assert_eq!(
        parse_prefixed_uuid("comp", "  comp:00000000-0000-0000-0000-00000000002a \n"),
        Ok(42)
    );
    // A bare uuid is accepted.
    assert_eq!(parse_prefixed_uuid("comp", "00000000-0000-0000-0000-00000000002a"), Ok(42));
    assert_eq!(parse_prefixed_uuid("comp", "0000000000000000000000000000002a"), Ok(42));
    // Another prefix is refused before the uuid is read.
    assert_eq!(
        parse_prefixed_uuid("comp", "sess:00000000-0000-0000-0000-00000000002a"),
        Err("expected `comp:<uuid>`, got `sess:00000000-0000-0000-0000-00000000002a`".to_string())
    );
    let err = parse_prefixed_uuid("comp", "comp:nope").unwrap_err();
    assert!(err.starts_with("invalid comp uuid `comp:nope`: "), "{err}");
    let err = CompositionId::parse("nope").unwrap_err();
    assert!(err.starts_with("invalid comp uuid `nope`: "), "{err}");
}

#[test]
fn new_ids_are_random_v4() {
    let a = CompositionId::new();
    let b = CompositionId::default();
    assert_ne!(a, b);
    for id in [a, b] {
        assert_eq!((id.0 >> 76) & 0xf, 4);
        assert_eq!((id.0 >> 62) & 0x3, 2);
    }
}
