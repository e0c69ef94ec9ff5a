//! Open-path / save-target tracking and seek clamping for the command-line player.
use vstd::prelude::*;

use crate::composition::{is_facomp_path, is_facomp_path_spec};
use crate::location::{opt_view, path_exists, path_join, path_join_spec, path_parent, path_parent_of};

verus! {

/// Remembers where the composition was opened and where it should be saved.
#[derive(Clone, Debug)]
pub struct PlaySession {
    opened: String,
    /// Set when opened as `.facomp`, or after the first successful save.
    save_path: Option<String>,
    /// Parent directory of the opened file.
    media_dir: Option<String>,
}

/// Result of [`PlaySession::resolve_save_target`].
#[derive(Clone, Debug, PartialEq, Eq)]
pub struct SaveTarget {
    /// Path to write.
    pub path: String,
    /// True when the user must confirm overwriting an existing file.
    pub needs_overwrite_confirm: bool,
}

/// The save target for a new document at `path`: an overwrite must be
/// confirmed exactly when something already exists there.
pub fn save_target_at(path: String, exists: bool) -> (out: SaveTarget)
    ensures
        out.path@ == path@,
        out.needs_overwrite_confirm == exists,
{
    SaveTarget { path, needs_overwrite_confirm: exists }
}

impl PlaySession {
    /// Path originally opened.
    pub closed spec fn opened_view(&self) -> Seq<char> {
        self.opened@
    }

    /// Established `.facomp` write path, if any.
    pub closed spec fn save_path_view(&self) -> Option<Seq<char>> {
        opt_view(self.save_path)
    }

    /// Directory beside which a new document is suggested.
    pub closed spec fn media_dir_view(&self) -> Option<Seq<char>> {
        opt_view(self.media_dir)
    }

    /// Session state for the path given on the command line: a `.facomp`
    /// document is its own save path; media gets none until first saved.
    pub fn new(opened: String) -> (out: Self)
        ensures
            out.opened_view() == opened@,
            out.media_dir_view() == path_parent_of(opened@),
            is_facomp_path_spec(opened@) ==> out.save_path_view() == Some(opened@),
            !is_facomp_path_spec(opened@) ==> out.save_path_view() is None,
    {
        let media_dir = path_parent(opened.as_str());
        if is_facomp_path(opened.as_str()) {
            let save = String::from_str(opened.as_str());
            PlaySession { opened, save_path: Some(save), media_dir }
        } else {
            PlaySession { opened, save_path: None, media_dir }
        }
    }

    /// Path originally opened.
    pub fn opened(&self) -> (out: &str)
        ensures
            out@ == self.opened_view(),
    {
        self.opened.as_str()
    }

    /// Established `.facomp` write path, if any.
    pub fn save_path(&self) -> (out: Option<&str>)
        ensures
            match out {
                Some(p) => self.save_path_view() == Some(p@),
                None => self.save_path_view() is None,
            },
    {
        match &self.save_path {
            Some(p) => Some(p.as_str()),
            None => None,
        }
    }

    /// Resolve the write path and whether an overwrite confirm is required:
    /// the established save path never needs one; otherwise the suggestion
    /// beside the opened file needs one when something already exists there
    /// (asked of the disk for that joined path, and passed to [`save_target_at`]).
    pub fn resolve_save_target(&self, suggested_name: &str) -> (out: Option<SaveTarget>)
        ensures
            self.save_path_view() matches Some(p) ==> (out matches Some(t) && t.path@ == p && !t.needs_overwrite_confirm),
            self.save_path_view() is None && self.media_dir_view() is None ==> out is None,
            self.save_path_view() is None && self.media_dir_view() is Some ==>
                (out matches Some(t) && t.path@ == path_join_spec(self.media_dir_view()->0, suggested_name@)),
    {
        match &self.save_path {
            Some(p) => {
                return Some(SaveTarget { path: String::from_str(p.as_str()), needs_overwrite_confirm: false });
            },
            None => {},
        }
        let dir = match &self.media_dir {
            Some(d) => d,
            None => return None,
        };
        let path = path_join(dir.as_str(), suggested_name);
        let exists = path_exists(path.as_str());
        Some(save_target_at(path, exists))
    }

    /// Record a successful save so later saves overwrite without re-prompting.
    pub fn mark_saved(&mut self, path: String)
        ensures
            final(self).save_path_view() == Some(path@),
            final(self).opened_view() == old(self).opened_view(),
            final(self).media_dir_view() == old(self).media_dir_view(),
    {
        self.save_path = Some(path);
    }
}

/// Clamp of `sample` into `[0, frames - 1]` (0 when there are no frames).
pub open spec fn clamp_seek_spec(sample: i64, frames: u64) -> int {
    if frames == 0 {
        0
    } else if sample < 0 {
        0
    } else if sample > frames - 1 {
        frames - 1
    } else {
        sample as int
    }
}

/// Clamp a seek target in samples to a valid playhead index.
pub fn clamp_seek_sample(sample: i64, frames: u64) -> (out: usize)
    requires
        frames == 0 || frames - 1 <= i64::MAX,
        frames == 0 || frames - 1 <= usize::MAX,
    ensures
        out == clamp_seek_spec(sample, frames),
{
    if frames == 0 {
        return 0;
    }
    let max = (frames - 1) as i64;
    let clamped = if sample < 0 { 0 } else if sample > max { max } else { sample };
    clamped as usize
}

/// A clamped seek always lands on a frame of a non-empty timeline.
pub proof fn lemma_clamp_seek_in_bounds(sample: i64, frames: u64)
    requires
        frames > 0,
    ensures
        0 <= clamp_seek_spec(sample, frames) < frames,
        0 <= sample < frames ==> clamp_seek_spec(sample, frames) == sample,
{
}

} // verus!
