use field_assist::composition::{
    check_project_header, display_name, display_title_from, is_facomp_path, media_display_name, suggested_facomp_name, normalize_facomp_file_name, normalize_playback_channels,
    AnalysisPassStats, Clipboard, ProjectHeaderError, keeps_loaded_collection, loaded_identity, loaded_monitor_chain,
    next_region_id_after_load, PassBound, FACOMP_FORMAT_VERSION,
};
use field_assist::ids::CompositionId;

#[test]
fn facomp_names() {
    assert!(is_facomp_path("take.facomp"));
    assert!(is_facomp_path("/a/b/TAKE.FaComp"));
    assert!(!is_facomp_path("take.wav"));
    assert!(!is_facomp_path(".facomp"));
    assert_eq!(normalize_facomp_file_name("renamed take"), "renamed take.facomp");
    assert_eq!(normalize_facomp_file_name("  already.facomp "), "already.facomp");
    assert_eq!(normalize_facomp_file_name("   "), "untitled.facomp");
    assert_eq!(normalize_facomp_file_name("take.wav"), "take.wav.facomp");
}

#[test]
fn playback_channels_normalize() {
    assert_eq!(normalize_playback_channels(None, 4), None);
    assert_eq!(normalize_playback_channels(Some(vec![3, 1, 3, 9]), 4), Some(vec![1, 3]));
    assert_eq!(normalize_playback_channels(Some(vec![0, 1, 2, 3]), 4), None);
    assert_eq!(normalize_playback_channels(Some(vec![3, 2, 1, 0, 0]), 4), None);
    assert_eq!(normalize_playback_channels(Some(vec![7, 8]), 4), None);
    assert_eq!(normalize_playback_channels(Some(vec![]), 4), None);
}

#[test]
fn clipboard_and_stats() {
    let clip = Clipboard { sample_rate: 44100, channel_count: 2, clip_lens: vec![10, 6] };
    assert!(!clip.is_empty());
    assert_eq!(clip.frames(), 16);
    assert!(Clipboard::default().is_empty());
    let stats = AnalysisPassStats { decode_ns: 5, consume_ns: 5, ..AnalysisPassStats::default() };
    assert!(stats.decode_dominates());
    assert!(!AnalysisPassStats::default().decode_dominates());
}

#[test]
fn project_header_checks() {
    assert_eq!(check_project_header("facomp", 5), Ok(()));
    assert_eq!(check_project_header("facomp", 1), Ok(()));
    assert_eq!(check_project_header("facomp", 0), Err(ProjectHeaderError::MissingVersion));
    assert_eq!(check_project_header("facomp", 6), Ok(()));
    assert_eq!(check_project_header("facomp", 7), Err(ProjectHeaderError::NewerVersion { version: 7 }));
    assert_eq!(check_project_header("facomp", 99), Err(ProjectHeaderError::NewerVersion { version: 99 }));
    assert_eq!(
        check_project_header("session", 1),
        Err(ProjectHeaderError::NotAComposition { kind: "session".to_string() })
    );
}

#[test]
fn suggested_facomp_name_uses_basename_stem() {
    assert_eq!(suggested_facomp_name(None, Some("take.wav")), "take.facomp");
    assert_eq!(display_name(None, Some("take.wav")), "take.wav");
    assert_eq!(suggested_facomp_name(None, Some("/rec/day one/take 2.flac")), "take 2.facomp");
}

#[test]
fn display_title_feeds_suggested_name() {
    let title = display_title_from("  renamed take ").unwrap();
    assert_eq!(title, "renamed take");
    assert_eq!(display_name(Some(&title), Some("take.wav")), "renamed take");
    assert_eq!(suggested_facomp_name(Some(&title), Some("take.wav")), "renamed take.facomp");
    assert_eq!(suggested_facomp_name(Some("already.facomp"), None), "already.facomp");
    assert_eq!(display_title_from(" \t "), None);
}

#[test]
fn unnamed_media_falls_back() {
    assert_eq!(media_display_name(None), "FieldAssist");
    assert_eq!(media_display_name(Some("/")), "FieldAssist");
    assert_eq!(suggested_facomp_name(None, None), "FieldAssist.facomp");
    assert_eq!(suggested_facomp_name(None, Some("/")), "FieldAssist.facomp");
}

#[test]
fn playback_channels_all_clears_to_default() {
    // A two-channel composition: selecting every channel is the default routing.
    assert_eq!(normalize_playback_channels(Some(vec![0, 1]), 2), None);
    assert_eq!(normalize_playback_channels(Some(vec![5, 1, 1]), 2).as_deref(), Some(&[1][..]));
}

#[test]
fn writer_version_is_accepted() {
    assert_eq!(FACOMP_FORMAT_VERSION, 6);
    assert_eq!(check_project_header("facomp", FACOMP_FORMAT_VERSION), Ok(()));
}

#[test]
fn loading_keeps_stored_identity_and_mints_missing_one() {
    let id = CompositionId::from_u128(42);
    assert_eq!(loaded_identity(Some(id)), (id, false));
    let (minted, dirty) = loaded_identity(None);
    assert!(dirty);
    assert_eq!((minted.0 >> 76) & 0xf, 4);
}

#[test]
fn loading_drops_empty_chain_and_selection_collections() {
    assert_eq!(loaded_monitor_chain(Some(String::new())), None);
    assert_eq!(loaded_monitor_chain(None), None);
    assert_eq!(loaded_monitor_chain(Some("room".to_string())), Some("room".to_string()));
    assert!(!keeps_loaded_collection("selection"));
    assert!(!keeps_loaded_collection(""));
    assert!(keeps_loaded_collection("takes"));
}

#[test]
fn region_counter_moves_past_loaded_ids() {
    assert_eq!(next_region_id_after_load(0, &[]), 1);
    assert_eq!(next_region_id_after_load(1, &[3, 9, 4]), 10);
    assert_eq!(next_region_id_after_load(20, &[3, 9, 4]), 20);
    assert_eq!(next_region_id_after_load(5, &[u64::MAX]), u64::MAX);
}

#[test]
fn pass_bound_picks_the_dominant_cost() {
    let io = AnalysisPassStats { decode_ns: 9, consume_ns: 3, read_ns: 20, ..AnalysisPassStats::default() };
    assert_eq!(io.bound(), PassBound::IoBound);
    assert_eq!(io.bound().label(), "I/O-bound");
    let cpu = AnalysisPassStats { decode_ns: 2, consume_ns: 8, read_ns: 8, ..AnalysisPassStats::default() };
    assert_eq!(cpu.bound(), PassBound::CpuBound);
    assert_eq!(cpu.bound().label(), "CPU-bound");
    let mixed = AnalysisPassStats { decode_ns: 2, consume_ns: 5, read_ns: 8, ..AnalysisPassStats::default() };
    assert_eq!(mixed.bound(), PassBound::Mixed);
    assert_eq!(mixed.bound().label(), "mixed");
    assert_eq!(AnalysisPassStats::default().bound(), PassBound::CpuBound);
}
