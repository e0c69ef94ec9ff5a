use field_assist::play_session::{clamp_seek_sample, save_target_at, PlaySession};

/// Create an empty file named `name` inside `dir` (kept while the handle lives).
fn touch(dir: &tempfile::TempDir, name: &str) -> tempfile::NamedTempFile {
    let (stem, ext) = name.split_once('.').unwrap();
    tempfile::Builder::new()
        .prefix(stem)
        .suffix(&format!(".{ext}"))
        .rand_bytes(0)
        .tempfile_in(dir.path())
        .unwrap()
}

#[test]
fn facomp_open_uses_opened_path_without_confirm() {
    let path = "/tmp/take.facomp".to_string();
    let session = PlaySession::new(path.clone());
    assert_eq!(session.save_path(), Some(path.as_str()));
    let target = session.resolve_save_target("ignored.facomp").expect("target");
    assert_eq!(target.path, path);
    assert!(!target.needs_overwrite_confirm);
}

#[test]
fn media_open_suggests_beside_source() {
    let dir = tempfile::tempdir().unwrap();
    let wav = dir.path().join("take.wav");
    let _wav_file = touch(&dir, "take.wav");
    let session = PlaySession::new(wav.to_string_lossy().into_owned());
    let target = session.resolve_save_target("take.facomp").expect("target");
    assert_eq!(target.path, dir.path().join("take.facomp").to_string_lossy());
    assert!(!target.needs_overwrite_confirm);
}

#[test]
fn media_open_confirms_when_suggested_exists() {
    let dir = tempfile::tempdir().unwrap();
    let wav = dir.path().join("take.wav");
    let facomp = dir.path().join("take.facomp");
    let _wav_file = touch(&dir, "take.wav");
    let _facomp_file = touch(&dir, "take.facomp");
    let session = PlaySession::new(wav.to_string_lossy().into_owned());
    let target = session.resolve_save_target("take.facomp").expect("target");
    assert_eq!(target.path, facomp.to_string_lossy());
    assert!(target.needs_overwrite_confirm);
}

#[test]
fn after_mark_saved_no_confirm_even_if_exists() {
    let dir = tempfile::tempdir().unwrap();
    let wav = dir.path().join("take.wav");
    let facomp = dir.path().join("take.facomp");
    let _wav_file = touch(&dir, "take.wav");
    let _facomp_file = touch(&dir, "take.facomp");
    let mut session = PlaySession::new(wav.to_string_lossy().into_owned());
    session.mark_saved(facomp.to_string_lossy().into_owned());
    let target = session.resolve_save_target("take.facomp").expect("target");
    assert_eq!(target.path, facomp.to_string_lossy());
    assert!(!target.needs_overwrite_confirm);
}

#[test]
fn media_open_has_no_save_path_and_bare_name_has_no_dir() {
    let session = PlaySession::new("/tmp/take.wav".to_string());
    assert_eq!(session.save_path(), None);
    assert_eq!(session.opened(), "/tmp/take.wav");
    let bare = PlaySession::new(String::new());
    assert_eq!(bare.resolve_save_target("x.facomp"), None);
}

#[test]
fn clamp_seek_sample_bounds() {
    assert_eq!(clamp_seek_sample(-10, 1000), 0);
    assert_eq!(clamp_seek_sample(9999, 1000), 999);
    assert_eq!(clamp_seek_sample(500, 1000), 500);
    assert_eq!(clamp_seek_sample(5, 0), 0);
}

#[test]
fn save_target_confirms_exactly_when_something_exists() {
    let t = save_target_at("/rec/take.facomp".to_string(), true);
    assert_eq!(t.path, "/rec/take.facomp");
    assert!(t.needs_overwrite_confirm);
    assert!(!save_target_at("/rec/take.facomp".to_string(), false).needs_overwrite_confirm);
}
