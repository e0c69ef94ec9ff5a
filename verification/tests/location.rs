use field_assist::location::{Location, LocationError};

#[test]
fn relative_url_round_trips() {
    let base = Location::from_path("/sessions");
    let url = Location::from_path_relative_to("/sessions/takes/a.wav", "/sessions");
    assert_eq!(url.as_str(), "takes/a.wav");
    let resolved = url.resolve(Some(&base)).unwrap();
    assert_eq!(resolved, "/sessions/takes/a.wav");
}

#[test]
fn relative_without_base_errors() {
    let url = Location::parse("takes/a.wav").unwrap();
    let err = url.resolve(None).unwrap_err().message();
    assert!(err.contains("requires a document base"), "{err}");
    let err = url.as_path().unwrap_err().message();
    assert!(err.contains("requires a document base"), "{err}");
}

#[test]
fn memory_urls_are_kept() {
    let loc = Location::from_path("memory://test");
    assert_eq!(loc.as_str(), "memory://test");
    assert_eq!(loc.resolve(None).unwrap(), "memory://test");
}

#[test]
fn absolute_file_url_parses() {
    let loc = Location::parse("file:///tmp/a.wav").unwrap();
    let resolved = loc.as_path().unwrap();
    assert_eq!(resolved, "/tmp/a.wav");
}

#[test]
fn plain_absolute_path_is_accepted() {
    let path = "/audio/a.wav";
    let loc = Location::parse(path).unwrap();
    let resolved = loc.as_path().unwrap();
    assert_eq!(resolved, path);
}

#[test]
fn parse_trims_and_rejects_blank() {
    assert_eq!(Location::parse("  takes/a.wav \n").unwrap().as_str(), "takes/a.wav");
    assert_eq!(Location::parse("   ").unwrap_err(), LocationError::EmptyUrl);
    assert_eq!(Location::parse("").unwrap_err(), LocationError::EmptyUrl);
}

#[test]
fn file_url_percent_decoding() {
    let loc = Location::parse("file:///tmp/my%20take.wav").unwrap();
    assert_eq!(loc.as_path().unwrap(), "/tmp/my take.wav");
    // A `+` before one hex digit is read as that digit (u8::from_str_radix rules).
    let loc = Location::parse("file:///tmp/a%+9b").unwrap();
    assert_eq!(loc.as_path().unwrap(), "/tmp/a\u{9}b");
    let bad = Location::parse("file:///tmp/a%zz").unwrap();
    assert_eq!(bad.as_path().unwrap_err(), LocationError::InvalidPercentEncoding);
    let short = Location::parse("file:///tmp/a%4").unwrap();
    assert_eq!(short.as_path().unwrap_err(), LocationError::InvalidPercentEncoding);
    let not_utf8 = Location::parse("file:///tmp/%ff").unwrap();
    assert_eq!(not_utf8.as_path().unwrap_err(), LocationError::InvalidPercentEncoding);
    // A body without a leading slash gets one.
    let loc = Location::parse("file://tmp/x").unwrap();
    assert_eq!(loc.as_path().unwrap(), "/tmp/x");
}

#[test]
fn relative_detection() {
    assert!(Location::parse("takes/a.wav").unwrap().is_relative());
    assert!(!Location::parse("/takes/a.wav").unwrap().is_relative());
    assert!(!Location::parse("file:///a").unwrap().is_relative());
    assert!(!Location::parse("memory://x").unwrap().is_relative());
    assert!(Location::parse("memory://x").unwrap().is_memory());
}

#[test]
fn resolve_against_path_joins_relative() {
    let url = Location::parse("takes/a.wav").unwrap();
    assert_eq!(url.resolve_against_path(Some("/var/doc")).unwrap(), "/var/doc/takes/a.wav");
    assert_eq!(url.resolve_against_path(Some("/var/doc/")).unwrap(), "/var/doc/takes/a.wav");
    assert!(matches!(url.resolve_against_path(None), Err(LocationError::NeedsBase { .. })));
}

#[test]
fn relative_base_must_resolve() {
    let url = Location::parse("takes/a.wav").unwrap();
    let base = Location::parse("other/dir").unwrap();
    let err = url.resolve(Some(&base)).unwrap_err();
    assert_eq!(err, LocationError::InvalidBase { url: "takes/a.wav".to_string() });
    assert_eq!(err.message(), "invalid base location for relative URL takes/a.wav");
}

#[test]
fn parent_of_relative_and_absolute() {
    let url = Location::parse("takes/a.wav").unwrap();
    assert_eq!(url.parent().unwrap().as_str(), "takes");
    let top = Location::parse("a.wav").unwrap();
    assert_eq!(top.parent().unwrap_err(), LocationError::NoParent);
    let abs = Location::parse("file:///nonexistent-dir-xyz/a.wav").unwrap();
    assert_eq!(abs.parent().unwrap().as_str(), "file:///nonexistent-dir-xyz");
}

#[test]
fn from_canonical_encodes_file_urls() {
    assert_eq!(Location::from_canonical("x", Some("/abs/x")).as_str(), "file:///abs/x");
    assert_eq!(Location::from_canonical("C:\\a\\b", None).as_str(), "file:///C:/a/b");
    assert_eq!(Location::from_canonical("memory://m", Some("/ignored")).as_str(), "memory://m");
}

#[test]
fn relative_from_uses_components() {
    assert_eq!(Location::relative_from("/a/b/c.wav", "/a", None, None).as_deref(), Some("b/c.wav"));
    assert_eq!(Location::relative_from("/ab/c.wav", "/a", None, None), None);
    assert_eq!(Location::relative_from("/a", "/a", None, None), None);
    assert_eq!(
        Location::relative_from("/x/c.wav", "/a", Some("/real/c.wav"), Some("/real")).as_deref(),
        Some("c.wav")
    );
}

#[test]
fn parse_trims_unicode_whitespace() {
    let loc = Location::parse("\u{3000}\t takes/a.wav\u{85}\u{2029} ").unwrap();
    assert_eq!(loc.as_str(), "takes/a.wav");
    let kept = Location::parse("\u{200b}a\u{200b}").unwrap();
    assert_eq!(kept.as_str(), "\u{200b}a\u{200b}");
    assert_eq!(Location::parse("\u{1680}\u{2000}\u{200a}\u{202f}\u{205f}\u{a0}"), Err(LocationError::EmptyUrl));
}
