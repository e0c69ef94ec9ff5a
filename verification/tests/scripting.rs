use field_assist::scripting::{
    button_names, parse_align_name, parse_browse_name, parse_toolbar_icon, toggle_on_icon, PathBrowse, ToolbarAlign,
    checksum, extension_matches, find_files, hex_lower, format_modified, is_default_local_template, join_rel, local_c_path, local_lua_path, normalize_extension,
    strip_shebang, user_config_dir_from, LogLevel,
};

#[test]
fn strip_shebang_removes_first_line() {
    assert_eq!(strip_shebang("#!/usr/bin/env field-batch\nprint(1)\n"), "print(1)\n");
    assert_eq!(strip_shebang("print(1)\n"), "print(1)\n");
}

#[test]
fn strip_shebang_edge_cases() {
    assert_eq!(strip_shebang("\u{feff}#!x\nbody"), "body");
    assert_eq!(strip_shebang("\u{feff}body"), "body");
    assert_eq!(strip_shebang("#!only-a-shebang"), "");
    assert_eq!(strip_shebang(""), "");
    assert_eq!(strip_shebang("#"), "#");
}

#[test]
fn local_lua_path_includes_config() {
    let path = local_lua_path(Some("/tmp/cfg"));
    assert!(path.contains("/tmp/cfg/?.lua"));
    assert!(path.contains("./?.lua"));
}

#[test]
fn local_paths_exact() {
    assert_eq!(local_lua_path(Some("/c")), "/c/?.lua;/c/?/init.lua;./?.lua;./?/init.lua");
    assert_eq!(local_lua_path(None), "./?.lua;./?/init.lua");
    assert_eq!(local_c_path(Some("/c")), "/c/?.so;./?.so");
    assert_eq!(local_c_path(None), "./?.so");
}

#[test]
fn default_local_templates() {
    assert!(is_default_local_template("./?.lua", None));
    assert!(is_default_local_template(".\\?.lua", None));
    assert!(!is_default_local_template("/usr/local/share/lua/?.lua", None));
    assert!(is_default_local_template("/tmp/cfg/?.lua", Some("/tmp/cfg/")));
    assert!(is_default_local_template("/tmp/cfg", Some("/tmp/cfg")));
    assert!(!is_default_local_template("/tmp/cfgx/?.lua", Some("/tmp/cfg")));
    assert!(!is_default_local_template("/tmp/cfg/?.lua", Some("///")));
}

#[test]
fn extension_filters() {
    assert_eq!(normalize_extension("  .WAV "), "wav");
    assert_eq!(normalize_extension("..FlAc"), "flac");
    let exts = vec!["wav".to_string(), "flac".to_string()];
    assert!(extension_matches("take.WAV", &exts));
    assert!(extension_matches("more.flac", &exts));
    assert!(!extension_matches("notes.txt", &exts));
    assert!(!extension_matches("wav", &exts));
}

#[test]
fn join_rel_and_levels() {
    assert_eq!(join_rel("", "a.wav"), "a.wav");
    assert_eq!(join_rel("nested", "more.flac"), "nested/more.flac");
    assert_eq!(LogLevel::Info.as_str(), "info");
    assert_eq!(LogLevel::Warn.as_str(), "warn");
    assert_eq!(LogLevel::Error.as_str(), "error");
}

fn entry(dir: &str, name: &str) -> (String, String) {
    (dir.to_string(), name.to_string())
}

#[test]
fn find_files_sorts_and_filters() {
    let entries = vec![
        entry("", "b.WAV"),
        entry("sub", "a.txt"),
        entry("", "a.wav"),
        entry("sub/deep", "c.flac"),
        entry("", "noext"),
    ];
    let all = find_files(&entries, None);
    assert_eq!(all, vec!["a.wav", "b.WAV", "noext", "sub/a.txt", "sub/deep/c.flac"]);
    let exts = vec!["wav".to_string(), "flac".to_string()];
    let audio = find_files(&entries, Some(&exts));
    assert_eq!(audio, vec!["a.wav", "b.WAV", "sub/deep/c.flac"]);
    let none: Vec<String> = Vec::new();
    assert!(find_files(&entries, Some(&none)).is_empty());
    assert!(find_files(&[], None).is_empty());
}

#[test]
fn modified_time_is_decimal_seconds() {
    assert_eq!(format_modified(0), "0");
    assert_eq!(format_modified(1700000000), "1700000000");
    assert_eq!(format_modified(u64::MAX), "18446744073709551615");
}

#[test]
fn checksum_defaults_to_blake3_hex() {
    assert_eq!(
        checksum(b"", None).unwrap(),
        "af1349b9f5f9a1a6a0404dea36dcc9499bcb25c9adc112b7cc9a93cae41f3262"
    );
    assert_eq!(
        checksum(b"abc", Some("BLAKE3")).unwrap(),
        "6437b3ac38465133ffb63b75273a8db548c558465d79db03fd359c6cd5bd9d85"
    );
    assert_eq!(checksum(b"wav", Some("blake3")).unwrap(), blake3::hash(b"wav").to_hex().to_string());
}

#[test]
fn checksum_refuses_other_algorithms() {
    assert_eq!(checksum(b"x", Some("SHA256")), Err("unsupported checksum algorithm `sha256`".to_string()));
    assert_eq!(checksum(b"x", Some("")), Err("unsupported checksum algorithm ``".to_string()));
}

#[test]
fn hex_is_lowercase_pairs() {
    assert_eq!(hex_lower(&[0x00, 0x0f, 0xa5, 0xff]), "000fa5ff");
    assert_eq!(hex_lower(&[]), "");
}

#[test]
fn user_config_dir_ends_with_field_assist() {
    assert_eq!(user_config_dir_from(Some("/xdg"), Some("/home/me")).as_deref(), Some("/xdg/FieldAssist"));
    assert_eq!(user_config_dir_from(None, Some("/home/me")).as_deref(), Some("/home/me/.config/FieldAssist"));
    assert_eq!(user_config_dir_from(None, None), None);
}

#[test]
fn toggle_on_icon_accepts_hyphen_and_underscore_names() {
    assert_eq!(toggle_on_icon(Some("circle-check")), Ok("circle_check".to_string()));
    assert_eq!(toggle_on_icon(Some("circle_alert")), Ok("circle_alert".to_string()));
    assert_eq!(toggle_on_icon(Some("circle-x")), Ok("circle_x".to_string()));
    assert_eq!(toggle_on_icon(None), Ok("check".to_string()));
    let err = toggle_on_icon(Some("star")).unwrap_err();
    assert!(err.contains("icon"), "{err}");
}

#[test]
fn toolbar_icon_names_and_refusal() {
    assert_eq!(parse_toolbar_icon("arrow-right"), Ok("arrow_right".to_string()));
    assert_eq!(parse_toolbar_icon("check"), Ok("check".to_string()));
    assert_eq!(toggle_on_icon(Some("")), Ok("check".to_string()));
    let err = parse_toolbar_icon("star-big").unwrap_err();
    assert_eq!(
        err,
        "icon must be \"check\", \"circle-check\", \"circle-x\", \"circle-alert\", \"arrow-left\", or \"arrow-right\", got `star_big`"
    );
}

#[test]
fn button_id_and_label_stand_in_for_each_other() {
    assert_eq!(button_names(Some("run"), Some("Run it"), false), Ok(("run".to_string(), "Run it".to_string())));
    assert_eq!(button_names(Some("run"), None, false), Ok(("run".to_string(), "run".to_string())));
    assert_eq!(button_names(Some(""), Some("Go"), true), Ok(("Go".to_string(), "Go".to_string())));
    assert_eq!(
        button_names(None, Some(""), true),
        Err("button with icon needs id or label for accessibility".to_string())
    );
    assert_eq!(button_names(None, None, false), Err("button id or label is required".to_string()));
}

#[test]
fn align_and_browse_names() {
    assert_eq!(parse_align_name("left"), Ok(ToolbarAlign::Left));
    assert_eq!(parse_align_name("right"), Ok(ToolbarAlign::Right));
    assert_eq!(parse_align_name("center"), Err("align must be \"left\" or \"right\", got `center`".to_string()));
    assert_eq!(parse_browse_name("file"), Ok(PathBrowse::File));
    assert_eq!(parse_browse_name("directory"), Ok(PathBrowse::Directory));
    assert_eq!(
        parse_browse_name("dir"),
        Err("browse must be \"file\", \"directory\", or false, got `dir`".to_string())
    );
}

#[test]
fn button_icon_is_icon_only() {
    let (a, la) = button_names(Some("previous"), Some("Previous"), true).unwrap();
    let ia = parse_toolbar_icon("arrow-left").unwrap();
    assert_eq!(a, "previous");
    assert_eq!(la, "Previous");
    assert_eq!(ia, "arrow_left");
    let (b, lb) = button_names(Some("next"), None, true).unwrap();
    let ib = parse_toolbar_icon("arrow_right").unwrap();
    assert_eq!(b, "next");
    assert_eq!(lb, "next");
    assert_eq!(ib, "arrow_right");
}
