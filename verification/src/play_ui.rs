//! Keyboard-driven decisions of the interactive player: which prompt has the
//! keyboard, what a key press asks of the engine, and when the player may leave.
//!
//! The caller owns the engine, the composition and the terminal. It hands each
//! decision a snapshot of the player and carries out the returned effects in
//! order.
use vstd::prelude::*;

use crate::location::path_join_spec;
use crate::play_session::{clamp_seek_sample, clamp_seek_spec, PlaySession, SaveTarget};

verus! {

/// Transport state of the playback engine.
#[derive(Clone, Copy, Debug, PartialEq, Eq, Structural)]
pub enum Transport {
    Playing,
    Paused,
    Stopped,
}

/// What happens once a save has been written.
#[derive(Clone, Copy, Debug, PartialEq, Eq, Structural)]
pub enum AfterSave {
    /// Keep playing.
    Stay,
    /// Leave the player.
    Quit,
}

/// Which prompt the keyboard currently drives.
#[derive(Clone, Debug)]
pub enum Focus {
    /// Transport keys (pause, seek, markers, save, quit).
    Transport,
    /// "Unsaved changes: save, discard or stay?"
    ConfirmQuit,
    /// Typing the text of a note marker.
    NoteInput { buffer: String, cursor: usize, resume_playing: bool },
    /// "Overwrite the existing file?"
    ConfirmOverwrite { path: String, after: AfterSave },
}

/// One keyboard intent.
#[derive(Clone, Copy, Debug, PartialEq, Eq, Structural)]
pub enum UiAction {
    RequestQuit,
    TogglePause,
    /// Relative seek, already converted to a signed number of samples.
    SeekRel(i64),
    SeekStart,
    SeekEnd,
    AddMarker,
    StartNote,
    Save,
    ToggleLoop,
    CommitNote,
    CancelNote,
    ConfirmYes,
    ConfirmNo,
    QuitDiscard,
    QuitStay,
    QuitSave,
}

/// What a decision reads of the player.
#[derive(Clone, Copy, Debug)]
pub struct PlayerView {
    pub transport: Transport,
    pub looping: bool,
    /// The composition has unsaved changes.
    pub modified: bool,
    /// Playhead, in samples.
    pub position: usize,
    /// Timeline length, in samples.
    pub frames: u64,
}

/// A line for the event log.
#[derive(Clone, Debug)]
pub enum UiNotice {
    LoopingOn,
    LoopingOff,
    SaveCancelled,
    NoSaveTarget,
    /// Saved to this path.
    Saved(String),
    /// The save failed with this error text.
    SaveFailed(String),
}

/// Work the caller carries out, in order.
#[derive(Clone, Debug)]
pub enum UiEffect {
    SetTransport(Transport),
    SeekTo(usize),
    SetLooping(bool),
    Notice(UiNotice),
    /// A plain marker at the playhead.
    AddMarker,
    /// Register the note marker type when the composition lacks it.
    EnsureNoteMarkerType,
    /// A note marker with this text at the playhead.
    AddNote(String),
    /// Ask for the suggested file name and call [`begin_save`].
    BeginSave(AfterSave),
    /// Write the composition to `path`, then call [`finish_save`].
    Save { path: String, after: AfterSave },
}

/// Prompt state of the player.
#[derive(Clone, Debug)]
pub struct UiState {
    pub focus: Focus,
    /// Set once the player must leave, even with unsaved changes.
    pub force_exit: bool,
}

impl UiNotice {
    /// Text of the event-log line.
    pub fn message(&self) -> (out: String)
        ensures
            out@ == notice_text(*self),
    {
        match self {
            UiNotice::LoopingOn => String::from_str("Looping on"),
            UiNotice::LoopingOff => String::from_str("Looping off"),
            UiNotice::SaveCancelled => String::from_str("Save cancelled"),
            UiNotice::NoSaveTarget => String::from_str("Save failed: no target path"),
            UiNotice::Saved(p) => {
                let mut s = String::from_str("Saved ");
                s.append(p.as_str());
                s
            },
            UiNotice::SaveFailed(e) => {
                let mut s = String::from_str("Save failed: ");
                s.append(e.as_str());
                s
            },
        }
    }
}

/// Text of an event-log line.
pub open spec fn notice_text(n: UiNotice) -> Seq<char> {
    match n {
        UiNotice::LoopingOn => "Looping on"@,
        UiNotice::LoopingOff => "Looping off"@,
        UiNotice::SaveCancelled => "Save cancelled"@,
        UiNotice::NoSaveTarget => "Save failed: no target path"@,
        UiNotice::Saved(p) => "Saved "@ + p@,
        UiNotice::SaveFailed(e) => "Save failed: "@ + e@,
    }
}

/// The player's numbers fit the machine: the timeline's last sample and the
/// playhead are `i64` values.
pub open spec fn view_fits(v: PlayerView) -> bool {
    &&& v.frames <= i64::MAX
    &&& v.frames <= usize::MAX
    &&& v.position <= i64::MAX
}

/// A relative seek from the playhead stays within `i64`.
pub open spec fn seek_fits(v: PlayerView, a: UiAction) -> bool {
    a matches UiAction::SeekRel(d) ==> i64::MIN <= v.position + d <= i64::MAX
}

/// Same prompt, no exit requested.
pub open spec fn focus_only(old: UiState, focus: Focus) -> UiState {
    UiState { focus, force_exit: old.force_exit }
}

/// The effects that set the transport to `t` when `cond` holds.
pub open spec fn transport_if(cond: bool, t: Transport) -> Seq<UiEffect> {
    if cond { seq![UiEffect::SetTransport(t)] } else { Seq::empty() }
}

/// What one key press does: the next prompt state `new` and the effects `fx`.
pub open spec fn ui_step(old: UiState, v: PlayerView, a: UiAction, new: UiState, fx: Seq<UiEffect>) -> bool {
    match a {
        UiAction::RequestQuit => if v.modified {
            new == focus_only(old, Focus::ConfirmQuit) && fx.len() == 0
        } else {
            new == (UiState { focus: old.focus, force_exit: true }) && fx == seq![UiEffect::SetTransport(Transport::Stopped)]
        },
        UiAction::TogglePause => new == old && fx == match v.transport {
            Transport::Playing => seq![UiEffect::SetTransport(Transport::Paused)],
            Transport::Paused => seq![UiEffect::SetTransport(Transport::Playing)],
            Transport::Stopped => Seq::empty(),
        },
        UiAction::SeekRel(d) => new == old
            && fx == seq![UiEffect::SeekTo(clamp_seek_spec((v.position + d) as i64, v.frames) as usize)],
        UiAction::SeekStart => new == old && fx == seq![UiEffect::SeekTo(0)],
        UiAction::SeekEnd => new == old
            && fx == seq![UiEffect::SeekTo(clamp_seek_spec(v.frames as i64, v.frames) as usize)],
        UiAction::AddMarker => new == old && fx == seq![UiEffect::AddMarker],
        UiAction::StartNote => {
            &&& new.force_exit == old.force_exit
            &&& new.focus matches Focus::NoteInput { buffer, cursor, resume_playing }
                && buffer@.len() == 0 && cursor == 0 && resume_playing == (v.transport == Transport::Playing)
            &&& fx == transport_if(v.transport == Transport::Playing, Transport::Paused)
        },
        UiAction::Save => new == old && fx == seq![UiEffect::BeginSave(AfterSave::Stay)],
        UiAction::QuitSave => new == old && fx == seq![UiEffect::BeginSave(AfterSave::Quit)],
        UiAction::ToggleLoop => new == old && fx == seq![
            UiEffect::SetLooping(!v.looping),
            UiEffect::Notice(if !v.looping { UiNotice::LoopingOn } else { UiNotice::LoopingOff }),
        ],
        UiAction::CommitNote => match old.focus {
            Focus::NoteInput { buffer, cursor, resume_playing } => {
                &&& new == focus_only(old, Focus::Transport)
                &&& fx == seq![UiEffect::EnsureNoteMarkerType, UiEffect::AddNote(buffer)]
                    + transport_if(resume_playing, Transport::Playing)
            },
            _ => new == old && fx.len() == 0,
        },
        UiAction::CancelNote => {
            &&& new == focus_only(old, Focus::Transport)
            &&& fx == match old.focus {
                Focus::NoteInput { resume_playing, .. } => transport_if(resume_playing, Transport::Playing),
                _ => Seq::empty(),
            }
        },
        UiAction::ConfirmYes => match old.focus {
            Focus::ConfirmOverwrite { path, after } => {
                &&& new == focus_only(old, Focus::Transport)
                &&& fx == seq![UiEffect::Save { path, after }]
            },
            _ => new == old && fx.len() == 0,
        },
        UiAction::ConfirmNo => new == focus_only(old, Focus::Transport)
            && fx == seq![UiEffect::Notice(UiNotice::SaveCancelled)],
        UiAction::QuitDiscard => new == (UiState { focus: Focus::Transport, force_exit: true })
            && fx == seq![UiEffect::SetTransport(Transport::Stopped)],
        UiAction::QuitStay => new == focus_only(old, Focus::Transport)
            && fx == transport_if(v.transport == Transport::Stopped, Transport::Paused),
    }
}

fn one(e: UiEffect) -> (out: Vec<UiEffect>)
    ensures
        out@ == seq![e],
{
    let mut out = Vec::new();
    out.push(e);
    out
}

fn transport_effects(cond: bool, t: Transport) -> (out: Vec<UiEffect>)
    ensures
        out@ == transport_if(cond, t),
{
    let mut out = Vec::new();
    if cond {
        out.push(UiEffect::SetTransport(t));
    }
    proof {
        if cond {
            assert(out@ =~= seq![UiEffect::SetTransport(t)]);
        } else {
            assert(out@ =~= Seq::<UiEffect>::empty());
        }
    }
    out
}

/// Apply one key press to the prompt state and return what the caller must do.
pub fn handle_ui_action(state: &mut UiState, view: &PlayerView, action: UiAction) -> (fx: Vec<UiEffect>)
    requires
        view_fits(*view),
        seek_fits(*view, action),
    ensures
        ui_step(*old(state), *view, action, *final(state), fx@),
{
    match action {
        UiAction::RequestQuit => {
            if view.modified {
                state.focus = Focus::ConfirmQuit;
                Vec::new()
            } else {
                state.force_exit = true;
                one(UiEffect::SetTransport(Transport::Stopped))
            }
        },
        UiAction::TogglePause => match view.transport {
            Transport::Playing => one(UiEffect::SetTransport(Transport::Paused)),
            Transport::Paused => one(UiEffect::SetTransport(Transport::Playing)),
            Transport::Stopped => Vec::new(),
        },
        UiAction::SeekRel(d) => {
            let target = view.position as i64 + d;
            one(UiEffect::SeekTo(clamp_seek_sample(target, view.frames)))
        },
        UiAction::SeekStart => one(UiEffect::SeekTo(0)),
        UiAction::SeekEnd => one(UiEffect::SeekTo(clamp_seek_sample(view.frames as i64, view.frames))),
        UiAction::AddMarker => one(UiEffect::AddMarker),
        UiAction::StartNote => {
            let resume_playing = view.transport == Transport::Playing;
            state.focus = Focus::NoteInput { buffer: String::new(), cursor: 0, resume_playing };
            transport_effects(resume_playing, Transport::Paused)
        },
        UiAction::Save => one(UiEffect::BeginSave(AfterSave::Stay)),
        UiAction::QuitSave => one(UiEffect::BeginSave(AfterSave::Quit)),
        UiAction::ToggleLoop => {
            let next = !view.looping;
            let mut fx = Vec::new();
            fx.push(UiEffect::SetLooping(next));
            fx.push(UiEffect::Notice(if next { UiNotice::LoopingOn } else { UiNotice::LoopingOff }));
            assert(fx@ =~= seq![
                UiEffect::SetLooping(next),
                UiEffect::Notice(if next { UiNotice::LoopingOn } else { UiNotice::LoopingOff }),
            ]);
            fx
        },
        UiAction::CommitNote => {
            if let Focus::NoteInput { .. } = &state.focus {
                let mut prev = Focus::Transport;
                std::mem::swap(&mut prev, &mut state.focus);
                match prev {
                    Focus::NoteInput { buffer, cursor: _, resume_playing } => {
                        let mut fx = Vec::new();
                        fx.push(UiEffect::EnsureNoteMarkerType);
                        fx.push(UiEffect::AddNote(buffer));
                        let ghost head = fx@;
                        let mut tail = transport_effects(resume_playing, Transport::Playing);
                        fx.append(&mut tail);
                        assert(head =~= seq![UiEffect::EnsureNoteMarkerType, UiEffect::AddNote(buffer)]);
                        fx
                    },
                    _ => Vec::new(),
                }
            } else {
                Vec::new()
            }
        },
        UiAction::CancelNote => {
            let resume = match &state.focus {
                Focus::NoteInput { resume_playing, .. } => *resume_playing,
                _ => false,
            };
            state.focus = Focus::Transport;
            transport_effects(resume, Transport::Playing)
        },
        UiAction::ConfirmYes => {
            if let Focus::ConfirmOverwrite { .. } = &state.focus {
                let mut prev = Focus::Transport;
                std::mem::swap(&mut prev, &mut state.focus);
                match prev {
                    Focus::ConfirmOverwrite { path, after } => one(UiEffect::Save { path, after }),
                    _ => Vec::new(),
                }
            } else {
                Vec::new()
            }
        },
        UiAction::ConfirmNo => {
            state.focus = Focus::Transport;
            one(UiEffect::Notice(UiNotice::SaveCancelled))
        },
        UiAction::QuitDiscard => {
            state.focus = Focus::Transport;
            state.force_exit = true;
            one(UiEffect::SetTransport(Transport::Stopped))
        },
        UiAction::QuitStay => {
            state.focus = Focus::Transport;
            transport_effects(view.transport == Transport::Stopped, Transport::Paused)
        },
    }
}

/// What a save request leads to once its target is known: no target is an
/// error line, an existing file asks first, anything else is written.
pub open spec fn save_decision(old: UiState, target: Option<SaveTarget>, after: AfterSave, new: UiState, fx: Seq<UiEffect>) -> bool {
    match target {
        None => new == focus_only(old, Focus::Transport) && fx == seq![UiEffect::Notice(UiNotice::NoSaveTarget)],
        Some(t) => if t.needs_overwrite_confirm {
            new == focus_only(old, Focus::ConfirmOverwrite { path: t.path, after }) && fx.len() == 0
        } else {
            new == old && fx == seq![UiEffect::Save { path: t.path, after }]
        },
    }
}

/// Decide a save request for a resolved target.
pub fn decide_save(state: &mut UiState, target: Option<SaveTarget>, after: AfterSave) -> (fx: Vec<UiEffect>)
    ensures
        save_decision(*old(state), target, after, *final(state), fx@),
{
    match target {
        None => {
            state.focus = Focus::Transport;
            one(UiEffect::Notice(UiNotice::NoSaveTarget))
        },
        Some(t) => {
            if t.needs_overwrite_confirm {
                state.focus = Focus::ConfirmOverwrite { path: t.path, after };
                Vec::new()
            } else {
                one(UiEffect::Save { path: t.path, after })
            }
        },
    }
}

/// Start a save: resolve where it goes for this session and decide. Whether a
/// suggested file already exists on disk is read at the call, so for a media
/// session either outcome can come back.
pub fn begin_save(state: &mut UiState, session: &PlaySession, suggested: &str, after: AfterSave) -> (fx: Vec<UiEffect>)
    ensures
        session.save_path_view() matches Some(p) ==> {
            &&& *final(state) == *old(state)
            &&& fx@.len() == 1
            &&& fx@[0] matches UiEffect::Save { path, after: a } && path@ == p && a == after
        },
        session.save_path_view() is None && session.media_dir_view() is None ==> {
            &&& *final(state) == focus_only(*old(state), Focus::Transport)
            &&& fx@ == seq![UiEffect::Notice(UiNotice::NoSaveTarget)]
        },
        session.save_path_view() is None && session.media_dir_view() is Some ==> {
            let want = path_join_spec(session.media_dir_view()->0, suggested@);
            ||| {
                &&& final(state).force_exit == old(state).force_exit
                &&& final(state).focus matches Focus::ConfirmOverwrite { path, after: a } && path@ == want && a == after
                &&& fx@.len() == 0
            }
            ||| {
                &&& *final(state) == *old(state)
                &&& fx@.len() == 1
                &&& fx@[0] matches UiEffect::Save { path, after: a } && path@ == want && a == after
            }
        },
{
    let target = session.resolve_save_target(suggested);
    decide_save(state, target, after)
}

/// What finishing a save does: the prompt returns to the transport, the log
/// says how it went, and a successful save-and-quit stops and leaves.
pub open spec fn save_finished(
    old: UiState,
    path: String,
    after: AfterSave,
    outcome: Result<(), String>,
    new: UiState,
    fx: Seq<UiEffect>,
) -> bool {
    match outcome {
        Ok(_) => {
            &&& new == (UiState { focus: Focus::Transport, force_exit: old.force_exit || after == AfterSave::Quit })
            &&& fx == seq![UiEffect::Notice(UiNotice::Saved(path))] + transport_if(after == AfterSave::Quit, Transport::Stopped)
        },
        Err(e) => new == focus_only(old, Focus::Transport) && fx == seq![UiEffect::Notice(UiNotice::SaveFailed(e))],
    }
}

/// Record the outcome of writing the composition to `path`. A success makes
/// `path` the session's save path.
pub fn finish_save(
    state: &mut UiState,
    session: &mut PlaySession,
    path: String,
    after: AfterSave,
    outcome: Result<(), String>,
) -> (fx: Vec<UiEffect>)
    ensures
        save_finished(*old(state), path, after, outcome, *final(state), fx@),
        outcome is Ok ==> {
            &&& final(session).save_path_view() == Some(path@)
            &&& final(session).opened_view() == old(session).opened_view()
            &&& final(session).media_dir_view() == old(session).media_dir_view()
        },
        outcome is Err ==> *final(session) == *old(session),
{
    state.focus = Focus::Transport;
    match outcome {
        Ok(_) => {
            session.mark_saved(path.clone());
            let quit = after == AfterSave::Quit;
            if quit {
                state.force_exit = true;
            }
            let ghost head = seq![UiEffect::Notice(UiNotice::Saved(path))];
            let mut fx = one(UiEffect::Notice(UiNotice::Saved(path)));
            let mut tail = transport_effects(quit, Transport::Stopped);
            fx.append(&mut tail);
            assert(fx@ =~= head + transport_if(quit, Transport::Stopped));
            fx
        },
        Err(e) => one(UiEffect::Notice(UiNotice::SaveFailed(e))),
    }
}

/// Whether the player leaves between key polls: a requested exit leaves, and
/// so does a stopped transport with nothing unsaved. A stopped transport with
/// unsaved changes opens the quit prompt instead.
pub fn idle_step(state: &mut UiState, transport: Transport, modified: bool) -> (leave: bool)
    ensures
        leave == (old(state).force_exit || (transport == Transport::Stopped && old(state).focus is Transport && !modified)),
        !old(state).force_exit && transport == Transport::Stopped && old(state).focus is Transport && modified
            ==> *final(state) == focus_only(*old(state), Focus::ConfirmQuit),
        !(!old(state).force_exit && transport == Transport::Stopped && old(state).focus is Transport && modified)
            ==> *final(state) == *old(state),
{
    if state.force_exit {
        return true;
    }
    if transport == Transport::Stopped {
        if let Focus::Transport = state.focus {
            if modified {
                state.focus = Focus::ConfirmQuit;
                return false;
            }
            return true;
        }
    }
    false
}

/// Unsaved changes are never dropped by a key press unless the user chose to
/// discard them: with a modified composition, every action but `QuitDiscard`
/// leaves the exit flag as it was.
pub proof fn lemma_dirty_exit_needs_discard(old: UiState, v: PlayerView, a: UiAction, new: UiState, fx: Seq<UiEffect>)
    requires
        ui_step(old, v, a, new, fx),
        v.modified,
        a != UiAction::QuitDiscard,
    ensures
        new.force_exit == old.force_exit,
{
}

/// A failed save never makes the player leave.
pub proof fn lemma_failed_save_stays(
    old: UiState,
    path: String,
    after: AfterSave,
    e: String,
    new: UiState,
    fx: Seq<UiEffect>,
)
    requires
        save_finished(old, path, after, Err(e), new, fx),
    ensures
        new.force_exit == old.force_exit,
        new.focus is Transport,
{
}

/// Starting a note and then cancelling it returns to the transport prompt
/// and resumes playback exactly when the note paused it.
pub proof fn lemma_note_cancel_restores(
    s0: UiState,
    v0: PlayerView,
    s1: UiState,
    fx1: Seq<UiEffect>,
    v1: PlayerView,
    s2: UiState,
    fx2: Seq<UiEffect>,
)
    requires
        ui_step(s0, v0, UiAction::StartNote, s1, fx1),
        ui_step(s1, v1, UiAction::CancelNote, s2, fx2),
    ensures
        s2 == focus_only(s0, Focus::Transport),
        fx1 + fx2 == if v0.transport == Transport::Playing {
            seq![UiEffect::SetTransport(Transport::Paused), UiEffect::SetTransport(Transport::Playing)]
        } else {
            Seq::<UiEffect>::empty()
        },
{
    if v0.transport == Transport::Playing {
        assert(fx1 + fx2 =~= seq![UiEffect::SetTransport(Transport::Paused), UiEffect::SetTransport(Transport::Playing)]);
    } else {
        assert(fx1 + fx2 =~= Seq::<UiEffect>::empty());
    }
}

/// The key of a keyboard event, as far as the transport keys go.
#[derive(Clone, Copy, Debug, PartialEq, Eq, Structural)]
pub enum KeyCode {
    Char(char),
    Left,
    Right,
    /// Any other key.
    Other,
}

/// A keyboard event as the transport mapping reads it.
#[derive(Clone, Copy, Debug, PartialEq, Eq, Structural)]
pub struct KeyPress {
    pub code: KeyCode,
    /// A key press (not a release or an auto-repeat).
    pub press: bool,
    pub control: bool,
    pub shift: bool,
}

/// Keyboard → transport mapping of the simple player loop.
#[derive(Clone, Copy, Debug, PartialEq, Eq, Structural)]
pub enum TransportAction {
    /// Stop playback and exit.
    Quit,
    /// Toggle between playing and paused.
    TogglePause,
    /// Seek by a whole number of seconds (negative = backward).
    SeekRel(i64),
    /// Seek to sample 0.
    SeekStart,
    /// Seek to the last sample.
    SeekEnd,
}

/// Transport action of a key event: `q`/`Q` and Ctrl+`c` quit, space
/// pauses, ←/→ seek one second, five with Shift, and to the start/end with
/// Ctrl (which wins over Shift). Releases and repeats do nothing.
pub open spec fn action_spec(k: KeyPress) -> Option<TransportAction> {
    if !k.press {
        None
    } else {
        match k.code {
            KeyCode::Char(c) => if c == 'q' || c == 'Q' {
                Some(TransportAction::Quit)
            } else if c == ' ' {
                Some(TransportAction::TogglePause)
            } else if c == 'c' && k.control {
                Some(TransportAction::Quit)
            } else {
                None
            },
            KeyCode::Left => if k.control {
                Some(TransportAction::SeekStart)
            } else if k.shift {
                Some(TransportAction::SeekRel(-5i64))
            } else {
                Some(TransportAction::SeekRel(-1i64))
            },
            KeyCode::Right => if k.control {
                Some(TransportAction::SeekEnd)
            } else if k.shift {
                Some(TransportAction::SeekRel(5i64))
            } else {
                Some(TransportAction::SeekRel(1i64))
            },
            KeyCode::Other => None,
        }
    }
}

/// Map a key event to zero or one transport action.
pub fn action_from_key(event: KeyPress) -> (out: Option<TransportAction>)
    ensures
        out == action_spec(event),
{
    if !event.press {
        return None;
    }
    match event.code {
        KeyCode::Char(c) => {
            if c == 'q' || c == 'Q' {
                Some(TransportAction::Quit)
            } else if c == ' ' {
                Some(TransportAction::TogglePause)
            } else if c == 'c' && event.control {
                Some(TransportAction::Quit)
            } else {
                None
            }
        },
        KeyCode::Left => {
            if event.control {
                Some(TransportAction::SeekStart)
            } else if event.shift {
                Some(TransportAction::SeekRel(-5))
            } else {
                Some(TransportAction::SeekRel(-1))
            }
        },
        KeyCode::Right => {
            if event.control {
                Some(TransportAction::SeekEnd)
            } else if event.shift {
                Some(TransportAction::SeekRel(5))
            } else {
                Some(TransportAction::SeekRel(1))
            }
        },
        KeyCode::Other => None,
    }
}

} // verus!
