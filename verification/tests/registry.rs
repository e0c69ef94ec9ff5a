use field_assist::registry::NamedRegistry;

#[test]
fn define_replaces_in_place_and_appends_new() {
    let mut r: NamedRegistry<u32> = NamedRegistry::new();
    assert_eq!(r.len(), 0);
    r.define("stereo".to_string(), 2);
    r.define("5.1".to_string(), 6);
    r.define("stereo".to_string(), 22);
    assert_eq!(r.len(), 2);
    assert_eq!(r.names(), vec!["stereo".to_string(), "5.1".to_string()]);
    assert_eq!(r.get("stereo"), Some(&22));
    assert_eq!(r.get("5.1"), Some(&6));
    assert_eq!(r.get("mono"), None);
}

#[test]
fn remove_drops_only_that_name() {
    let mut r: NamedRegistry<&str> = NamedRegistry::new();
    r.define("a".to_string(), "first");
    r.define("b".to_string(), "second");
    r.define("c".to_string(), "third");
    r.remove("b");
    assert_eq!(r.names(), vec!["a".to_string(), "c".to_string()]);
    assert_eq!(r.get("b"), None);
    r.remove("missing");
    assert_eq!(r.len(), 2);
    r.define("b".to_string(), "again");
    assert_eq!(r.names(), vec!["a".to_string(), "c".to_string(), "b".to_string()]);
    assert_eq!(r.get("b"), Some(&"again"));
}
