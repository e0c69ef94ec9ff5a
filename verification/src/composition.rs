//! Composition-level rules that do not depend on sample data: clipboard
//! length, analysis outcomes, playback channel routing, `.facomp` naming and
//! the project-file header check, and the plain decisions of loading one.
use vstd::prelude::*;

use crate::ids::{is_v4, CompositionId};
use crate::location::{path_extension, path_extension_of, path_file_name, path_file_name_of, path_file_stem, path_file_stem_of};
use crate::text::{concat2, eq_ignore_ascii_case, eq_ignore_ascii_case_spec, string_from, trim_bounds, trim_spec, chars_of};

verus! {

/// Result of folding one pager-sized analysis chunk into a live composition.
#[derive(Clone, Copy, Debug, PartialEq, Eq, Structural)]
pub enum AnalysisBlockOutcome {
    /// Work progressed and more blocks remain.
    Progress,
    /// The analysis pass finished.
    Complete,
    /// The job epoch was cancelled before or during this block.
    Cancelled,
}

/// Wall-time counters for one shared analysis pass (read vs consume).
#[derive(Clone, Copy, Debug, Default, PartialEq, Eq, Structural)]
pub struct AnalysisPassStats {
    /// Nanoseconds spent in planar / warmup reads.
    pub read_ns: u64,
    /// Nanoseconds spent in op consume / flush / write-back.
    pub consume_ns: u64,
    /// Wall time spent decoding blocks.
    pub decode_ns: u64,
    /// Blocks decoded via the block source during the pass.
    pub decodes: u64,
    /// Blocks served from the pager RAM cache.
    pub ram_hits: u64,
    /// Blocks reloaded from disk spill.
    pub spill_hits: u64,
    /// Blocks written to spill when evicted from RAM.
    pub spill_writes: u64,
}

impl AnalysisPassStats {
    /// True when decode wall time dominates consume (I/O-bound pass).
    pub fn decode_dominates(self) -> (out: bool)
        ensures
            out == (self.decode_ns >= self.consume_ns && self.decode_ns > 0),
    {
        self.decode_ns >= self.consume_ns && self.decode_ns > 0
    }

    /// What bounded the pass: decoding when it dominates consuming; else
    /// consuming when it is at least the read and decode times; else mixed.
    pub fn bound(self) -> (out: PassBound)
        ensures
            out == pass_bound_spec(self),
    {
        if self.decode_dominates() {
            PassBound::IoBound
        } else if self.consume_ns >= self.read_ns && self.consume_ns >= self.decode_ns {
            PassBound::CpuBound
        } else {
            PassBound::Mixed
        }
    }
}

/// What bounded an analysis pass, as the pass summary reports it.
#[derive(Clone, Copy, Debug, PartialEq, Eq, Structural)]
pub enum PassBound {
    /// Decoding dominated.
    IoBound,
    /// The analysis operators dominated.
    CpuBound,
    /// Neither clearly dominated.
    Mixed,
}

/// The bound of a pass with counters `s`.
pub open spec fn pass_bound_spec(s: AnalysisPassStats) -> PassBound {
    if s.decode_ns >= s.consume_ns && s.decode_ns > 0 {
        PassBound::IoBound
    } else if s.consume_ns >= s.read_ns && s.consume_ns >= s.decode_ns {
        PassBound::CpuBound
    } else {
        PassBound::Mixed
    }
}

impl PassBound {
    /// The word the pass summary ends with.
    pub fn label(self) -> (out: &'static str)
        ensures
            self is IoBound ==> out@ == "I/O-bound"@,
            self is CpuBound ==> out@ == "CPU-bound"@,
            self is Mixed ==> out@ == "mixed"@,
    {
        match self {
            PassBound::IoBound => "I/O-bound",
            PassBound::CpuBound => "CPU-bound",
            PassBound::Mixed => "mixed",
        }
    }
}

/// Sum of a sequence of frame counts.
pub open spec fn total_frames(lens: Seq<u64>) -> int
    decreases lens.len(),
{
    if lens.len() == 0 { 0 } else { total_frames(lens.drop_last()) + lens.last() }
}

/// Cut/copied material: the format it was taken at and the length of each
/// clip on it, in timeline order.
#[derive(Clone, Debug, Default)]
pub struct Clipboard {
    /// Sample rate of the material.
    pub sample_rate: u32,
    /// Channel count of the material.
    pub channel_count: usize,
    /// Length in frames of each clip.
    pub clip_lens: Vec<u64>,
}

impl Clipboard {
    /// True when nothing is on the clipboard.
    pub fn is_empty(&self) -> (out: bool)
        ensures
            out == (self.clip_lens@.len() == 0),
    {
        self.clip_lens.len() == 0
    }

    /// Total length in frames of the clips.
    pub fn frames(&self) -> (out: u64)
        requires
            total_frames(self.clip_lens@) <= u64::MAX,
        ensures
            out == total_frames(self.clip_lens@),
    {
        let mut sum: u64 = 0;
        let mut i: usize = 0;
        while i < self.clip_lens.len()
            invariant
                i <= self.clip_lens@.len(),
                total_frames(self.clip_lens@) <= u64::MAX,
                sum == total_frames(self.clip_lens@.subrange(0, i as int)),
            decreases self.clip_lens.len() - i,
        {
            proof {
                assert(self.clip_lens@.subrange(0, i + 1).drop_last() =~= self.clip_lens@.subrange(0, i as int));
                lemma_total_prefix_bound(self.clip_lens@, i + 1);
            }
            sum = sum + self.clip_lens[i];
            i = i + 1;
        }
        proof {
            assert(self.clip_lens@.subrange(0, self.clip_lens@.len() as int) =~= self.clip_lens@);
        }
        sum
    }
}

/// A prefix of frame counts never sums to more than the whole.
pub proof fn lemma_total_prefix_bound(lens: Seq<u64>, k: int)
    requires
        0 <= k <= lens.len(),
    ensures
        total_frames(lens.subrange(0, k)) <= total_frames(lens),
        total_frames(lens.subrange(0, k)) >= 0,
    decreases lens.len() - k,
{
    if k == lens.len() {
        assert(lens.subrange(0, k) =~= lens);
        lemma_total_nonneg(lens);
    } else {
        lemma_total_prefix_bound(lens, k + 1);
        assert(lens.subrange(0, k + 1).drop_last() =~= lens.subrange(0, k));
        lemma_total_nonneg(lens.subrange(0, k));
    }
}

proof fn lemma_total_nonneg(lens: Seq<u64>)
    ensures
        total_frames(lens) >= 0,
    decreases lens.len(),
{
    if lens.len() > 0 {
        lemma_total_nonneg(lens.drop_last());
    }
}

/// The distinct channel indices of `channels` below `channel_count`.
pub open spec fn kept_channel(channels: Seq<usize>, channel_count: usize, c: usize) -> bool {
    channels.contains(c) && c < channel_count
}

/// Every channel below `channel_count` is selected.
pub open spec fn all_channels_selected(chs: Seq<usize>, channel_count: usize) -> bool {
    forall|c: usize| c < channel_count ==> #[trigger] chs.contains(c)
}

/// No selected index is a valid channel.
pub open spec fn no_valid_channel(chs: Seq<usize>, channel_count: usize) -> bool {
    forall|c: usize| #[trigger] chs.contains(c) ==> c >= channel_count
}

/// Strictly increasing indices.
pub open spec fn strictly_increasing(v: Seq<usize>) -> bool {
    forall|i: int, j: int| #![trigger v[i], v[j]] 0 <= i < j < v.len() ==> v[i] < v[j]
}

/// `v` holds exactly the valid selected channels.
pub open spec fn holds_kept_channels(v: Seq<usize>, chs: Seq<usize>, channel_count: usize) -> bool {
    forall|c: usize| #[trigger] v.contains(c) <==> kept_channel(chs, channel_count, c)
}

/// Playback routing after normalization: `None` (all channels) when no
/// valid index is left or every channel is selected; otherwise the valid
/// distinct indices in increasing order.
pub open spec fn playback_channels_ok(channels: Option<Seq<usize>>, channel_count: usize, out: Option<Seq<usize>>) -> bool {
    match channels {
        None => out is None,
        Some(chs) => if no_valid_channel(chs, channel_count) || all_channels_selected(chs, channel_count) {
            out is None
        } else {
            out matches Some(v) && strictly_increasing(v) && holds_kept_channels(v, chs, channel_count)
        },
    }
}

/// Normalize an explicit playback channel selection.
pub fn normalize_playback_channels(channels: Option<Vec<usize>>, channel_count: usize) -> (out: Option<Vec<usize>>)
    ensures
        playback_channels_ok(
            match channels { Some(v) => Some(v@), None => None },
            channel_count,
            match out { Some(v) => Some(v@), None => None },
        ),
{
    let chs = match channels {
        Some(v) => v,
        None => return None,
    };
    // Sorted, deduplicated, in-range indices.
    let mut kept: Vec<usize> = Vec::new();
    let mut i: usize = 0;
    while i < chs.len()
        invariant
            i <= chs@.len(),
            forall|a: int, b: int| #![trigger kept@[a], kept@[b]] 0 <= a < b < kept@.len() ==> kept@[a] < kept@[b],
            forall|c: usize| #[trigger] kept@.contains(c) <==> (chs@.subrange(0, i as int).contains(c) && c < channel_count),
        decreases chs.len() - i,
    {
        let c = chs[i];
        let ghost old_kept = kept@;
        proof {
            assert forall|x: usize| chs@.subrange(0, i + 1).contains(x) <==> (chs@.subrange(0, i as int).contains(x) || x == c) by {
                if chs@.subrange(0, i + 1).contains(x) {
                    let k = choose|k: int| 0 <= k < i + 1&& #[trigger] chs@.subrange(0, i + 1)[k] == x;
                    if k < i {
                        assert(chs@.subrange(0, i as int)[k] == x);
                    }
                }
                if chs@.subrange(0, i as int).contains(x) {
                    let k = choose|k: int| 0 <= k < i&& #[trigger] chs@.subrange(0, i as int)[k] == x;
                    assert(chs@.subrange(0, i + 1)[k] == x);
                }
                if x == c {
                    assert(chs@.subrange(0, i + 1)[i as int] == x);
                }
            }
        }
        if c < channel_count {
            let mut p: usize = kept.len();
            while p > 0 && kept[p - 1] > c
                invariant
                    p <= kept@.len(),
                    kept@ == old_kept,
                    forall|k: int| p <= k < kept@.len() ==> #[trigger] kept@[k] > c,
                decreases p,
            {
                p = p - 1;
            }
            if p > 0 && kept[p - 1] == c {
                // Already kept.
            } else {
                proof {
                    old_kept.insert_ensures(p as int, c);
                }
                kept.insert(p, c);
                proof {
                    assert forall|a: int, b: int| #![trigger kept@[a], kept@[b]] 0 <= a < b < kept@.len() implies kept@[a] < kept@[b] by {
                        if a < p && b < p {
                            assert(kept@[a] == old_kept[a] && kept@[b] == old_kept[b]);
                        } else if a < p && b == p {
                            assert(kept@[a] == old_kept[a]);
                            if a < p - 1 {
                                assert(old_kept[a] < old_kept[p - 1]);
                            }
                        } else if a < p && b > p {
                            assert(kept@[a] == old_kept[a] && kept@[(b - 1) + 1] == old_kept[b - 1]);
                        } else if a == p {
                            assert(kept@[(b - 1) + 1] == old_kept[b - 1]);
                        } else {
                            assert(kept@[(a - 1) + 1] == old_kept[a - 1] && kept@[(b - 1) + 1] == old_kept[b - 1]);
                        }
                    }
                    assert forall|x: usize| #[trigger] kept@.contains(x) <==> (old_kept.contains(x) || x == c) by {
                        if kept@.contains(x) {
                            let k = choose|k: int| 0 <= k < kept@.len()&& #[trigger] kept@[k] == x;
                            if k < p {
                                assert(old_kept[k] == x);
                            } else if k > p {
                                assert(kept@[(k - 1) + 1] == old_kept[k - 1]);
                                assert(old_kept[k - 1] == x);
                            }
                        }
                        if old_kept.contains(x) {
                            let k = choose|k: int| 0 <= k < old_kept.len()&& #[trigger] old_kept[k] == x;
                            if k < p {
                                assert(kept@[k] == x);
                            } else {
                                assert(kept@[k + 1] == x);
                            }
                        }
                        if x == c {
                            assert(kept@[p as int] == c);
                        }
                    }
                }
            }
            proof {
                if p > 0 && old_kept[p - 1] == c {
                    assert(old_kept.contains(c));
                }
            }
        }
        i = i + 1;
    }
    proof {
        assert(chs@.subrange(0, chs@.len() as int) =~= chs@);
    }
    if kept.len() == 0 {
        proof {
            assert forall|c: usize| #[trigger] chs@.contains(c) implies c >= channel_count by {
                if c < channel_count {
                    assert(!kept@.contains(c));
                }
            }
        }
        return None;
    }
    if kept.len() == channel_count {
        // Distinct increasing indices below `channel_count`, as many as channels: all of them.
        proof {
            assert forall|k: int| 0 <= k < kept@.len() implies #[trigger] kept@[k] < channel_count by {
                assert(kept@.contains(kept@[k]));
            }
            lemma_increasing_full(kept@, channel_count);
            assert forall|c: usize| c < channel_count implies #[trigger] chs@.contains(c) by {
                assert(kept@[c as int] == c);
                assert(kept@.contains(c));
            }
        }
        return None;
    }
    proof {
        assert forall|k: int| 0 <= k < kept@.len() implies #[trigger] kept@[k] < channel_count by {
            assert(kept@.contains(kept@[k]));
        }
        lemma_increasing_bounded_len(kept@, channel_count);
        lemma_increasing_missing(kept@, channel_count);
        let missing = choose|c: usize| c < channel_count && !kept@.contains(c);
        assert(!chs@.contains(missing));
        assert(kept@.contains(kept@[0]));
        assert(chs@.contains(kept@[0]));
        assert(!all_channels_selected(chs@, channel_count));
        assert(!no_valid_channel(chs@, channel_count));
        assert(strictly_increasing(kept@));
        assert(holds_kept_channels(kept@, chs@, channel_count));
        assert(playback_channels_ok(Some(chs@), channel_count, Some(kept@)));
    }
    Some(kept)
}

proof fn lemma_increasing_bounded_len(v: Seq<usize>, n: usize)
    requires
        forall|a: int, b: int| #![trigger v[a], v[b]] 0 <= a < b < v.len() ==> v[a] < v[b],
        forall|i: int| 0 <= i < v.len() ==> #[trigger] v[i] < n,
    ensures
        v.len() <= n,
        v.len() > 0 ==> v[v.len() - 1] >= v.len() - 1,
    decreases v.len(),
{
    if v.len() > 0 {
        let w = v.drop_last();
        assert(v[v.len() - 1] < n);
        assert forall|a: int, b: int| #![trigger w[a], w[b]] 0 <= a < b < w.len() implies w[a] < w[b] by {
            assert(w[a] == v[a] && w[b] == v[b]);
        }
        assert forall|k: int| 0 <= k < w.len() implies #[trigger] w[k] < n by {
            assert(w[k] == v[k]);
        }
        lemma_increasing_bounded_len(w, n);
        if w.len() > 0 {
            assert(v[w.len() - 1] < v[v.len() - 1]);
            assert(w[w.len() - 1] == v[w.len() - 1]);
        }
    }
}

proof fn lemma_increasing_full(v: Seq<usize>, n: usize)
    requires
        forall|a: int, b: int| #![trigger v[a], v[b]] 0 <= a < b < v.len() ==> v[a] < v[b],
        forall|i: int| 0 <= i < v.len() ==> #[trigger] v[i] < n,
        v.len() == n,
    ensures
        forall|i: int| 0 <= i < v.len() ==> #[trigger] v[i] == i,
{
    assert forall|i: int| 0 <= i < v.len() implies #[trigger] v[i] == i by {
        let lo = v.subrange(0, i + 1);
        assert forall|a: int, b: int| #![trigger lo[a], lo[b]] 0 <= a < b < lo.len() implies lo[a] < lo[b] by {
            assert(lo[a] == v[a] && lo[b] == v[b]);
        }
        assert forall|k: int| 0 <= k < lo.len() implies #[trigger] lo[k] < n by {
            assert(lo[k] == v[k]);
        }
        lemma_increasing_bounded_len(lo, n);
        assert(lo[lo.len() - 1] == v[i]);
        let hi = v.subrange(i, v.len() as int);
        // The tail from i holds v.len() - i increasing values below n.
        lemma_increasing_tail_bound(v, i, n);
    }
}

proof fn lemma_increasing_tail_bound(v: Seq<usize>, i: int, n: usize)
    requires
        forall|a: int, b: int| #![trigger v[a], v[b]] 0 <= a < b < v.len() ==> v[a] < v[b],
        forall|k: int| 0 <= k < v.len() ==> #[trigger] v[k] < n,
        0 <= i < v.len(),
    ensures
        v[i] + (v.len() - i) <= n,
    decreases v.len() - i,
{
    if i + 1 < v.len() {
        lemma_increasing_tail_bound(v, i + 1, n);
        assert(v[i] < v[i + 1]);
    }
}

proof fn lemma_increasing_missing(v: Seq<usize>, n: usize)
    requires
        forall|a: int, b: int| #![trigger v[a], v[b]] 0 <= a < b < v.len() ==> v[a] < v[b],
        forall|k: int| 0 <= k < v.len() ==> #[trigger] v[k] < n,
        v.len() < n,
    ensures
        exists|c: usize| c < n && !v.contains(c),
    decreases v.len(),
{
    if v.len() == 0 {
        assert(!v.contains(0usize));
    } else {
        // Either some value below the last is missing, or the last is not n - 1.
        let last = v[v.len() - 1];
        if last < (n - 1) as usize {
            let c = (n - 1) as usize;
            assert forall|k: int| 0 <= k < v.len() implies v[k] != c by {
                if k < v.len() - 1 {
                    assert(v[k] < v[v.len() - 1]);
                }
            }
            assert(!v.contains(c));
        } else {
            let w = v.drop_last();
            assert forall|a: int, b: int| #![trigger w[a], w[b]] 0 <= a < b < w.len() implies w[a] < w[b] by {
                assert(w[a] == v[a] && w[b] == v[b]);
            }
            assert forall|k: int| 0 <= k < w.len() implies #[trigger] w[k] < (n - 1) as usize by {
                assert(w[k] == v[k]);
                assert(v[k] < v[v.len() - 1]);
            }
            lemma_increasing_missing(w, (n - 1) as usize);
            let c = choose|c: usize| c < (n - 1) as usize && !w.contains(c);
            assert forall|k: int| 0 <= k < v.len() implies v[k] != c by {
                if k < v.len() - 1 {
                    assert(w[k] == v[k]);
                }
            }
            assert(!v.contains(c));
        }
    }
}

/// Name of a `.facomp` document for a user-facing rename: `untitled.facomp`
/// for a blank name, the trimmed name when it already has a `facomp`
/// extension (any ASCII case), else the trimmed name plus `.facomp`.
pub open spec fn facomp_file_name_spec(name: Seq<char>) -> Seq<char> {
    let t = trim_spec(name);
    if t.len() == 0 {
        "untitled.facomp"@
    } else if path_extension_of(t) matches Some(ext) && eq_ignore_ascii_case_spec(ext, "facomp"@) {
        t
    } else {
        t + ".facomp"@
    }
}

/// Ensure a user-facing rename becomes a `.facomp` file name.
pub fn normalize_facomp_file_name(name: &str) -> (out: String)
    ensures
        out@ == facomp_file_name_spec(name@),
{
    let cs = chars_of(name);
    let (lo, hi) = trim_bounds(&cs);
    let trimmed = string_from(&cs, lo, hi);
    if lo == hi {
        return String::from_str("untitled.facomp");
    }
    match path_extension(trimmed.as_str()) {
        Some(ext) => {
            if eq_ignore_ascii_case(ext.as_str(), "facomp") {
                return trimmed;
            }
        },
        None => {},
    }
    concat2(trimmed.as_str(), ".facomp")
}

/// A non-blank name whose extension spells `facomp` in any mix of ASCII
/// upper and lower case is kept as it is (trimmed): no second `.facomp` is
/// added.
pub proof fn lemma_facomp_name_kept_any_case(name: Seq<char>, ext: Seq<char>)
    requires
        trim_spec(name).len() > 0,
        path_extension_of(trim_spec(name)) == Some(ext),
        ext.len() == 6,
        forall|i: int| 0 <= i < 6 ==> #[trigger] ext[i] == "facomp"@[i] || ext[i] == "FACOMP"@[i],
    ensures
        facomp_file_name_spec(name) == trim_spec(name),
{
    reveal_strlit("facomp");
    reveal_strlit("FACOMP");
    assert(crate::text::ascii_lower_all(ext) =~= crate::text::ascii_lower_all("facomp"@)) by {
        assert forall|i: int| 0 <= i < 6 implies #[trigger] crate::text::ascii_lower(ext[i]) == crate::text::ascii_lower("facomp"@[i]) by {
            assert(ext[i] == "facomp"@[i] || ext[i] == "FACOMP"@[i]);
        }
    }
}

/// A name that already is a `.facomp` path is kept as it is (trimmed).
pub proof fn lemma_facomp_path_kept(name: Seq<char>)
    requires
        trim_spec(name).len() > 0,
        is_facomp_path_spec(trim_spec(name)),
    ensures
        facomp_file_name_spec(name) == trim_spec(name),
{
}

/// The path has a `facomp` extension (any ASCII case).
pub open spec fn is_facomp_path_spec(path: Seq<char>) -> bool {
    path_extension_of(path) matches Some(ext) && eq_ignore_ascii_case_spec(ext, "facomp"@)
}

/// Whether `path` names a `.facomp` composition document.
pub fn is_facomp_path(path: &str) -> (out: bool)
    ensures
        out == is_facomp_path_spec(path@),
{
    match path_extension(path) {
        Some(ext) => eq_ignore_ascii_case(ext.as_str(), "facomp"),
        None => false,
    }
}

/// Kind tag of a `.facomp` document.
pub const FACOMP_KIND: &'static str = "facomp";

/// Newest `.facomp` format version this library reads and writes.
pub const FACOMP_FORMAT_VERSION: u32 = 6;

/// Why a project header was refused.
#[derive(Clone, Debug, PartialEq, Eq)]
pub enum ProjectHeaderError {
    /// The document is not a composition (its kind tag).
    NotAComposition { kind: String },
    /// The format version is 0 or absent.
    MissingVersion,
    /// The document was written by a newer release.
    NewerVersion { version: u32 },
    /// Any other version the reader does not know.
    UnsupportedVersion { version: u32 },
}

/// Check the `kind` tag and `format_version` of a project envelope: the kind
/// must be `facomp` and the version between 1 and [`FACOMP_FORMAT_VERSION`].
pub fn check_project_header(kind: &str, format_version: u32) -> (out: Result<(), ProjectHeaderError>)
    ensures
        kind@ != FACOMP_KIND@ ==> (out matches Err(ProjectHeaderError::NotAComposition { kind: k }) && k@ == kind@),
        kind@ == FACOMP_KIND@ && 1 <= format_version <= FACOMP_FORMAT_VERSION ==> out is Ok,
        kind@ == FACOMP_KIND@ && format_version == 0 ==> (out matches Err(e) && e is MissingVersion),
        kind@ == FACOMP_KIND@ && format_version > FACOMP_FORMAT_VERSION ==> (out matches Err(ProjectHeaderError::NewerVersion { version }) && version == format_version),
{
    let k = String::from_str(kind);
    let expected = String::from_str(FACOMP_KIND);
    if !(k == expected) {
        return Err(ProjectHeaderError::NotAComposition { kind: k });
    }
    if format_version >= 1 && format_version <= FACOMP_FORMAT_VERSION {
        Ok(())
    } else if format_version == 0 {
        Err(ProjectHeaderError::MissingVersion)
    } else if format_version > FACOMP_FORMAT_VERSION {
        Err(ProjectHeaderError::NewerVersion { version: format_version })
    } else {
        Err(ProjectHeaderError::UnsupportedVersion { version: format_version })
    }
}

// ---------------------------------------------------------------------------
// Document names
// ---------------------------------------------------------------------------

/// A non-empty file-name component, if `name` is one.
pub open spec fn non_empty(name: Option<Seq<char>>) -> Option<Seq<char>> {
    match name {
        Some(n) => if n.len() > 0 { Some(n) } else { None },
        None => None,
    }
}

/// Name of a composition built from media: the file name of its first media
/// file, or `FieldAssist` when there is none.
pub open spec fn media_display_name_spec(first_media: Option<Seq<char>>) -> Seq<char> {
    match first_media {
        Some(p) => match non_empty(path_file_name_of(p)) {
            Some(n) => n,
            None => "FieldAssist"@,
        },
        None => "FieldAssist"@,
    }
}

/// Name shown for a composition: its title when renamed, else its media name.
pub open spec fn display_name_spec(title: Option<Seq<char>>, first_media: Option<Seq<char>>) -> Seq<char> {
    match title {
        Some(t) => t,
        None => media_display_name_spec(first_media),
    }
}

/// File name suggested for saving: the title as a `.facomp` name when
/// renamed, else the first media file's stem (or the media name) plus `.facomp`.
pub open spec fn suggested_facomp_name_spec(title: Option<Seq<char>>, first_media: Option<Seq<char>>) -> Seq<char> {
    match title {
        Some(t) => facomp_file_name_spec(t),
        None => {
            let stem = match first_media {
                Some(p) => match non_empty(path_file_stem_of(p)) {
                    Some(s) => s,
                    None => media_display_name_spec(first_media),
                },
                None => media_display_name_spec(first_media),
            };
            stem + ".facomp"@
        },
    }
}

/// Views of an optional string.
pub open spec fn opt_str(o: Option<&str>) -> Option<Seq<char>> {
    match o {
        Some(s) => Some(s@),
        None => None,
    }
}

fn non_empty_name(name: Option<String>) -> (out: Option<String>)
    ensures
        match out {
            Some(n) => name matches Some(m) && m@ == n@ && n@.len() > 0,
            None => name matches Some(m) ==> m@.len() == 0,
        },
{
    match name {
        Some(n) => if n.unicode_len() > 0 { Some(n) } else { None },
        None => None,
    }
}

/// Name of a composition built from media (`first_media` is the path of the
/// first media file of its pool).
pub fn media_display_name(first_media: Option<&str>) -> (out: String)
    ensures
        out@ == media_display_name_spec(opt_str(first_media)),
{
    if let Some(p) = first_media {
        if let Some(n) = non_empty_name(path_file_name(p)) {
            return n;
        }
    }
    String::from_str("FieldAssist")
}

/// Name shown for a composition with display title `title`.
pub fn display_name(title: Option<&str>, first_media: Option<&str>) -> (out: String)
    ensures
        out@ == display_name_spec(opt_str(title), opt_str(first_media)),
{
    match title {
        Some(t) => String::from_str(t),
        None => media_display_name(first_media),
    }
}

/// File name suggested when saving a composition.
pub fn suggested_facomp_name(title: Option<&str>, first_media: Option<&str>) -> (out: String)
    ensures
        out@ == suggested_facomp_name_spec(opt_str(title), opt_str(first_media)),
{
    if let Some(t) = title {
        return normalize_facomp_file_name(t);
    }
    let stem = match first_media {
        Some(p) => match non_empty_name(path_file_stem(p)) {
            Some(s) => s,
            None => media_display_name(first_media),
        },
        None => media_display_name(first_media),
    };
    concat2(stem.as_str(), ".facomp")
}

/// The display title a rename sets: the trimmed name, or none when blank.
pub fn display_title_from(name: &str) -> (out: Option<String>)
    ensures
        trim_spec(name@).len() == 0 ==> out is None,
        trim_spec(name@).len() > 0 ==> (out matches Some(t) && t@ == trim_spec(name@)),
{
    let cs = chars_of(name);
    let (lo, hi) = trim_bounds(&cs);
    if lo == hi {
        None
    } else {
        Some(string_from(&cs, lo, hi))
    }
}

// ---------------------------------------------------------------------------
// Loading a project file
// ---------------------------------------------------------------------------

/// Name of the transient selection collection, which is never stored.
pub const SELECTION_COLLECTION: &'static str = "selection";

/// Identity of a loaded composition: the stored id, clean; or, for a file
/// written before ids were stored, a freshly minted id that stays dirty so
/// that the next save records it.
pub fn loaded_identity(stored: Option<CompositionId>) -> (out: (CompositionId, bool))
    ensures
        match stored {
            Some(id) => out == (id, false),
            None => is_v4(out.0.0) && out.1,
        },
{
    match stored {
        Some(id) => (id, false),
        None => (CompositionId::new(), true),
    }
}

/// The stored monitor chain, with an empty name read as none.
pub fn loaded_monitor_chain(chain: Option<String>) -> (out: Option<String>)
    ensures
        match chain {
            Some(c) => if c@.len() == 0 { out is None } else { out matches Some(o) && o@ == c@ },
            None => out is None,
        },
{
    match chain {
        Some(c) => {
            if c.unicode_len() == 0 {
                None
            } else {
                Some(c)
            }
        },
        None => None,
    }
}

/// A stored collection is kept on load unless it is the selection or has no name.
pub fn keeps_loaded_collection(name: &str) -> (out: bool)
    ensures
        out == (name@ != SELECTION_COLLECTION@ && name@.len() > 0),
{
    let n = String::from_str(name);
    let sel = String::from_str(SELECTION_COLLECTION);
    !(n == sel) && name.unicode_len() > 0
}

/// Largest region id in `ids`, 0 for none.
pub open spec fn max_id(ids: Seq<u64>) -> u64
    decreases ids.len(),
{
    if ids.len() == 0 {
        0
    } else {
        let m = max_id(ids.drop_last());
        if ids.last() > m { ids.last() } else { m }
    }
}

/// Next region id after loading: past every stored region id (saturating),
/// never below the current counter, and at least 1.
pub open spec fn next_region_id_spec(current: u64, ids: Seq<u64>) -> u64 {
    let past = if max_id(ids) == u64::MAX { u64::MAX } else { (max_id(ids) + 1) as u64 };
    let m = if current > past { current } else { past };
    if m > 1 { m } else { 1 }
}

/// Advance the region id counter past the ids of the loaded collections.
pub fn next_region_id_after_load(current: u64, region_ids: &[u64]) -> (out: u64)
    ensures
        out == next_region_id_spec(current, region_ids@),
{
    let mut max: u64 = 0;
    let mut i: usize = 0;
    while i < region_ids.len()
        invariant
            i <= region_ids@.len(),
            max == max_id(region_ids@.subrange(0, i as int)),
        decreases region_ids.len() - i,
    {
        proof {
            assert(region_ids@.subrange(0, i as int + 1).drop_last() =~= region_ids@.subrange(0, i as int));
        }
        if region_ids[i] > max {
            max = region_ids[i];
        }
        i = i + 1;
    }
    proof {
        assert(region_ids@.subrange(0, region_ids@.len() as int) =~= region_ids@);
    }
    let past = max.saturating_add(1);
    let m = if current > past { current } else { past };
    if m > 1 { m } else { 1 }
}

} // verus!

