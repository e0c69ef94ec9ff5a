use field_assist::play_session::PlaySession;
use field_assist::play_ui::{
    action_from_key, KeyCode, KeyPress, TransportAction, begin_save, decide_save, finish_save, handle_ui_action, idle_step, AfterSave, Focus, PlayerView, Transport,
    UiAction, UiEffect, UiNotice, UiState,
};
use field_assist::play_session::SaveTarget;

fn view(transport: Transport, modified: bool) -> PlayerView {
    PlayerView { transport, looping: false, modified, position: 1000, frames: 44_100 }
}

fn fresh() -> UiState {
    UiState { focus: Focus::Transport, force_exit: false }
}

fn is_transport(fx: &UiEffect, t: Transport) -> bool {
    matches!(fx, UiEffect::SetTransport(x) if *x == t)
}

#[test]
fn quit_clean_leaves_and_dirty_asks() {
    let mut s = fresh();
    let fx = handle_ui_action(&mut s, &view(Transport::Playing, false), UiAction::RequestQuit);
    assert!(s.force_exit);
    assert_eq!(fx.len(), 1);
    assert!(is_transport(&fx[0], Transport::Stopped));

    let mut s = fresh();
    let fx = handle_ui_action(&mut s, &view(Transport::Playing, true), UiAction::RequestQuit);
    assert!(!s.force_exit);
    assert!(matches!(s.focus, Focus::ConfirmQuit));
    assert!(fx.is_empty());
}

#[test]
fn toggle_pause_flips_transport() {
    let mut s = fresh();
    let fx = handle_ui_action(&mut s, &view(Transport::Playing, false), UiAction::TogglePause);
    assert!(is_transport(&fx[0], Transport::Paused));
    let fx = handle_ui_action(&mut s, &view(Transport::Paused, false), UiAction::TogglePause);
    assert!(is_transport(&fx[0], Transport::Playing));
    let fx = handle_ui_action(&mut s, &view(Transport::Stopped, false), UiAction::TogglePause);
    assert!(fx.is_empty());
}

#[test]
fn seeks_are_clamped() {
    let mut s = fresh();
    let v = view(Transport::Playing, false);
    let fx = handle_ui_action(&mut s, &v, UiAction::SeekRel(-5000));
    assert!(matches!(fx[0], UiEffect::SeekTo(0)));
    let fx = handle_ui_action(&mut s, &v, UiAction::SeekRel(44_100));
    assert!(matches!(fx[0], UiEffect::SeekTo(44_099)));
    let fx = handle_ui_action(&mut s, &v, UiAction::SeekRel(500));
    assert!(matches!(fx[0], UiEffect::SeekTo(1500)));
    let fx = handle_ui_action(&mut s, &v, UiAction::SeekStart);
    assert!(matches!(fx[0], UiEffect::SeekTo(0)));
    let fx = handle_ui_action(&mut s, &v, UiAction::SeekEnd);
    assert!(matches!(fx[0], UiEffect::SeekTo(44_099)));
    let empty = PlayerView { frames: 0, position: 0, ..v };
    let fx = handle_ui_action(&mut s, &empty, UiAction::SeekEnd);
    assert!(matches!(fx[0], UiEffect::SeekTo(0)));
}

#[test]
fn note_commit_adds_note_and_resumes() {
    let mut s = fresh();
    let fx = handle_ui_action(&mut s, &view(Transport::Playing, false), UiAction::StartNote);
    assert!(is_transport(&fx[0], Transport::Paused));
    match &mut s.focus {
        Focus::NoteInput { buffer, cursor, resume_playing } => {
            assert!(buffer.is_empty());
            assert_eq!(*cursor, 0);
            assert!(*resume_playing);
            buffer.push_str("wind noise");
        }
        _ => panic!("expected note input"),
    }
    let fx = handle_ui_action(&mut s, &view(Transport::Paused, false), UiAction::CommitNote);
    assert!(matches!(s.focus, Focus::Transport));
    assert_eq!(fx.len(), 3);
    assert!(matches!(fx[0], UiEffect::EnsureNoteMarkerType));
    assert!(matches!(&fx[1], UiEffect::AddNote(t) if t == "wind noise"));
    assert!(is_transport(&fx[2], Transport::Playing));
}

#[test]
fn note_cancel_while_paused_stays_paused() {
    let mut s = fresh();
    let fx = handle_ui_action(&mut s, &view(Transport::Paused, false), UiAction::StartNote);
    assert!(fx.is_empty());
    let fx = handle_ui_action(&mut s, &view(Transport::Paused, false), UiAction::CancelNote);
    assert!(fx.is_empty());
    assert!(matches!(s.focus, Focus::Transport));
    let fx = handle_ui_action(&mut s, &view(Transport::Paused, false), UiAction::CommitNote);
    assert!(fx.is_empty());
}

#[test]
fn loop_toggle_reports() {
    let mut s = fresh();
    let fx = handle_ui_action(&mut s, &view(Transport::Playing, false), UiAction::ToggleLoop);
    assert!(matches!(fx[0], UiEffect::SetLooping(true)));
    assert!(matches!(&fx[1], UiEffect::Notice(n) if n.message() == "Looping on"));
    let v = PlayerView { looping: true, ..view(Transport::Playing, false) };
    let fx = handle_ui_action(&mut s, &v, UiAction::ToggleLoop);
    assert!(matches!(fx[0], UiEffect::SetLooping(false)));
    assert!(matches!(&fx[1], UiEffect::Notice(n) if n.message() == "Looping off"));
}

#[test]
fn quit_prompt_choices() {
    let mut s = UiState { focus: Focus::ConfirmQuit, force_exit: false };
    let fx = handle_ui_action(&mut s, &view(Transport::Stopped, true), UiAction::QuitStay);
    assert!(matches!(s.focus, Focus::Transport));
    assert!(is_transport(&fx[0], Transport::Paused));
    let mut s = UiState { focus: Focus::ConfirmQuit, force_exit: false };
    let fx = handle_ui_action(&mut s, &view(Transport::Playing, true), UiAction::QuitStay);
    assert!(fx.is_empty());
    let mut s = UiState { focus: Focus::ConfirmQuit, force_exit: false };
    let fx = handle_ui_action(&mut s, &view(Transport::Playing, true), UiAction::QuitDiscard);
    assert!(s.force_exit);
    assert!(is_transport(&fx[0], Transport::Stopped));
    let mut s = UiState { focus: Focus::ConfirmQuit, force_exit: false };
    let fx = handle_ui_action(&mut s, &view(Transport::Playing, true), UiAction::QuitSave);
    assert!(matches!(fx[0], UiEffect::BeginSave(AfterSave::Quit)));
    let fx = handle_ui_action(&mut s, &view(Transport::Playing, true), UiAction::Save);
    assert!(matches!(fx[0], UiEffect::BeginSave(AfterSave::Stay)));
}

#[test]
fn overwrite_prompt_yes_and_no() {
    let mut s = UiState {
        focus: Focus::ConfirmOverwrite { path: "/tmp/a.facomp".to_string(), after: AfterSave::Quit },
        force_exit: false,
    };
    let fx = handle_ui_action(&mut s, &view(Transport::Paused, true), UiAction::ConfirmYes);
    assert!(matches!(s.focus, Focus::Transport));
    assert!(matches!(&fx[0], UiEffect::Save { path, after: AfterSave::Quit } if path == "/tmp/a.facomp"));
    let fx = handle_ui_action(&mut s, &view(Transport::Paused, true), UiAction::ConfirmYes);
    assert!(fx.is_empty());
    let fx = handle_ui_action(&mut s, &view(Transport::Paused, true), UiAction::ConfirmNo);
    assert!(matches!(&fx[0], UiEffect::Notice(n) if n.message() == "Save cancelled"));
}

#[test]
fn save_decisions() {
    let mut s = fresh();
    let fx = decide_save(&mut s, None, AfterSave::Stay);
    assert!(matches!(&fx[0], UiEffect::Notice(n) if n.message() == "Save failed: no target path"));
    let mut s = fresh();
    let t = SaveTarget { path: "/d/x.facomp".to_string(), needs_overwrite_confirm: true };
    let fx = decide_save(&mut s, Some(t), AfterSave::Quit);
    assert!(fx.is_empty());
    assert!(matches!(&s.focus, Focus::ConfirmOverwrite { path, after: AfterSave::Quit } if path == "/d/x.facomp"));
    let mut s = fresh();
    let t = SaveTarget { path: "/d/x.facomp".to_string(), needs_overwrite_confirm: false };
    let fx = decide_save(&mut s, Some(t), AfterSave::Stay);
    assert!(matches!(&fx[0], UiEffect::Save { path, after: AfterSave::Stay } if path == "/d/x.facomp"));
}

#[test]
fn begin_save_uses_established_path() {
    let session = PlaySession::new("/tmp/take.facomp".to_string());
    let mut s = fresh();
    let fx = begin_save(&mut s, &session, "ignored.facomp", AfterSave::Stay);
    assert!(matches!(&fx[0], UiEffect::Save { path, .. } if path == "/tmp/take.facomp"));
}

#[test]
fn finish_save_success_and_failure() {
    let mut session = PlaySession::new("/nowhere/take.wav".to_string());
    let mut s = UiState { focus: Focus::ConfirmQuit, force_exit: false };
    let fx = finish_save(&mut s, &mut session, "/nowhere/take.facomp".to_string(), AfterSave::Quit, Ok(()));
    assert!(s.force_exit);
    assert!(matches!(s.focus, Focus::Transport));
    assert!(matches!(&fx[0], UiEffect::Notice(n) if n.message() == "Saved /nowhere/take.facomp"));
    assert!(is_transport(&fx[1], Transport::Stopped));
    assert_eq!(session.save_path(), Some("/nowhere/take.facomp"));

    let mut session = PlaySession::new("/nowhere/take.wav".to_string());
    let mut s = fresh();
    let fx = finish_save(&mut s, &mut session, "/x".to_string(), AfterSave::Quit, Err("disk full".to_string()));
    assert!(!s.force_exit);
    assert_eq!(fx.len(), 1);
    assert!(matches!(&fx[0], UiEffect::Notice(n) if n.message() == "Save failed: disk full"));
    assert_eq!(session.save_path(), None);
}

#[test]
fn idle_leaves_only_when_clean_or_forced() {
    let mut s = fresh();
    assert!(idle_step(&mut s, Transport::Stopped, false));
    let mut s = fresh();
    assert!(!idle_step(&mut s, Transport::Stopped, true));
    assert!(matches!(s.focus, Focus::ConfirmQuit));
    assert!(!idle_step(&mut s, Transport::Stopped, true));
    let mut s = fresh();
    assert!(!idle_step(&mut s, Transport::Playing, false));
    let mut s = UiState { focus: Focus::ConfirmQuit, force_exit: true };
    assert!(idle_step(&mut s, Transport::Playing, true));
}

#[test]
fn dirty_composition_never_exits_without_discard() {
    let actions = [
        UiAction::RequestQuit,
        UiAction::TogglePause,
        UiAction::SeekRel(3),
        UiAction::SeekStart,
        UiAction::SeekEnd,
        UiAction::AddMarker,
        UiAction::StartNote,
        UiAction::Save,
        UiAction::ToggleLoop,
        UiAction::CommitNote,
        UiAction::CancelNote,
        UiAction::ConfirmYes,
        UiAction::ConfirmNo,
        UiAction::QuitStay,
        UiAction::QuitSave,
    ];
    for a in actions {
        let mut s = fresh();
        handle_ui_action(&mut s, &view(Transport::Playing, true), a);
        assert!(!s.force_exit, "{a:?}");
    }
    let _ = UiNotice::SaveCancelled;
}

fn press(code: KeyCode, control: bool, shift: bool) -> KeyPress {
    KeyPress { code, press: true, control, shift }
}

#[test]
fn maps_quit_and_space() {
    assert_eq!(action_from_key(press(KeyCode::Char('q'), false, false)), Some(TransportAction::Quit));
    assert_eq!(action_from_key(press(KeyCode::Char(' '), false, false)), Some(TransportAction::TogglePause));
    assert_eq!(action_from_key(press(KeyCode::Char('c'), true, false)), Some(TransportAction::Quit));
}

#[test]
fn maps_arrows_with_modifiers() {
    assert_eq!(action_from_key(press(KeyCode::Left, false, false)), Some(TransportAction::SeekRel(-1)));
    assert_eq!(action_from_key(press(KeyCode::Right, false, false)), Some(TransportAction::SeekRel(1)));
    assert_eq!(action_from_key(press(KeyCode::Left, false, true)), Some(TransportAction::SeekRel(-5)));
    assert_eq!(action_from_key(press(KeyCode::Right, false, true)), Some(TransportAction::SeekRel(5)));
    assert_eq!(action_from_key(press(KeyCode::Left, true, false)), Some(TransportAction::SeekStart));
    assert_eq!(action_from_key(press(KeyCode::Right, true, false)), Some(TransportAction::SeekEnd));
}

#[test]
fn ctrl_takes_precedence_over_shift() {
    assert_eq!(action_from_key(press(KeyCode::Left, true, true)), Some(TransportAction::SeekStart));
    assert_eq!(action_from_key(press(KeyCode::Right, true, true)), Some(TransportAction::SeekEnd));
}

#[test]
fn releases_and_other_keys_do_nothing() {
    let release = KeyPress { code: KeyCode::Char('q'), press: false, control: false, shift: false };
    assert_eq!(action_from_key(release), None);
    assert_eq!(action_from_key(press(KeyCode::Char('c'), false, false)), None);
    assert_eq!(action_from_key(press(KeyCode::Char('Q'), false, false)), Some(TransportAction::Quit));
    assert_eq!(action_from_key(press(KeyCode::Other, true, true)), None);
}
