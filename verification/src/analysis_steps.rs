//! Stepping an analysis pass through its target ranges, one pager-sized block
//! at a time: which frames the next block reads, whether a warm-up lookback
//! comes first, and where the cursor stands afterwards.
//!
//! The analysis operators themselves (envelope, spectrum, transients) run in
//! the caller; these are the decisions every block builder shares.
use vstd::prelude::*;

use crate::frame_ranges::{
    expand_all, expand_frame_ranges, merge_frame_ranges, hop_count_spec, hops_for_frames,
    advance_read_pos, advance_spec, covers, in_range, is_canonical, is_merge_of, lemma_next_chunk_in_range,
    next_chunk_in_ranges, next_chunk_spec, normalize_half_open_ranges, FrameRange,
};

use crate::hop_store::{blank, blank_buffer, FloatStreamSeries, SpectralStreamSeries};

verus! {

/// Progress of an analysis pass over its target ranges.
#[derive(Clone, Copy, Debug, PartialEq, Eq, Structural)]
pub struct PassCursor {
    /// Next frame to read.
    pub read_pos: u64,
    /// Frames analysed so far.
    pub done: u64,
    /// Frames the pass must analyse.
    pub total: u64,
}

/// Frames read before a block to warm the operators up.
#[derive(Clone, Copy, Debug, PartialEq, Eq, Structural)]
pub struct WarmUp {
    pub start: u64,
    pub len: u64,
}

/// What the next block of a pass does.
#[derive(Clone, Copy, Debug, PartialEq, Eq, Structural)]
pub enum BlockPlan {
    /// Nothing is left: the pass finishes.
    Finish,
    /// Read `take` frames at `read_pos`, inside the target range that starts
    /// at `range_start` and ends at `range_end`. When the block opens a range
    /// that does not start the timeline, `prime` holds the warm-up frames to
    /// feed the operators first.
    Read { read_pos: u64, take: u64, range_start: u64, range_end: u64, prime: Option<WarmUp> },
}

/// End of the first range holding `pos`, if any.
pub open spec fn end_of_range_at(ranges: Seq<FrameRange>, pos: u64) -> Option<u64>
    decreases ranges.len(),
{
    if ranges.len() == 0 {
        None
    } else if in_range(ranges[0], pos as int) {
        Some(ranges[0].1)
    } else {
        end_of_range_at(ranges.drop_first(), pos)
    }
}

/// The warm-up lookback before a block: up to `warmup` frames before the
/// range start, when the block opens a range that is not at frame 0.
pub open spec fn prime_spec(pos: u64, range_start: u64, warmup: u64) -> Option<WarmUp> {
    if pos == range_start && warmup > 0 && range_start > 0 {
        let len: u64 = if warmup < range_start { warmup } else { range_start };
        Some(WarmUp { start: (range_start - len) as u64, len })
    } else {
        None
    }
}

/// The next block of a pass: finished once `done` reaches `total` or no
/// target frame is left; otherwise the next chunk of at most `block_frames`.
pub open spec fn plan_spec(ranges: Seq<FrameRange>, c: PassCursor, block_frames: u64, warmup: u64) -> BlockPlan {
    if c.done >= c.total {
        BlockPlan::Finish
    } else {
        match next_chunk_spec(ranges, c.read_pos, block_frames) {
            None => BlockPlan::Finish,
            Some((start, end, pos)) => {
                let take = (end - pos) as u64;
                BlockPlan::Read {
                    read_pos: pos,
                    take,
                    range_start: start,
                    range_end: match end_of_range_at(ranges, pos) {
                        Some(e) => e,
                        None => (pos + take) as u64,
                    },
                    prime: prime_spec(pos, start, warmup),
                }
            },
        }
    }
}

fn end_of_range(ranges: &[FrameRange], pos: u64) -> (out: Option<u64>)
    ensures
        out == end_of_range_at(ranges@, pos),
{
    let mut i: usize = 0;
    proof {
        assert(ranges@.subrange(0, ranges@.len() as int) =~= ranges@);
    }
    while i < ranges.len()
        invariant
            i <= ranges.len(),
            end_of_range_at(ranges@, pos) == end_of_range_at(ranges@.subrange(i as int, ranges@.len() as int), pos),
        decreases ranges.len() - i,
    {
        let (s, e) = ranges[i];
        proof {
            let rest = ranges@.subrange(i as int, ranges@.len() as int);
            assert(rest[0] == (s, e));
            assert(rest.drop_first() =~= ranges@.subrange(i + 1, ranges@.len() as int));
        }
        if pos >= s && pos < e {
            return Some(e);
        }
        i = i + 1;
    }
    None
}

/// Plan the next block of a pass.
pub fn plan_block(ranges: &[FrameRange], cursor: PassCursor, block_frames: u64, warmup_frames: u64) -> (out: BlockPlan)
    ensures
        out == plan_spec(ranges@, cursor, block_frames, warmup_frames),
{
    if cursor.done >= cursor.total {
        return BlockPlan::Finish;
    }
    match next_chunk_in_ranges(ranges, cursor.read_pos, block_frames) {
        None => BlockPlan::Finish,
        Some((start, end, pos)) => {
            proof {
                lemma_next_chunk_in_range(ranges@, cursor.read_pos, block_frames);
            }
            let take = end - pos;
            let range_end = match end_of_range(ranges, pos) {
                Some(e) => e,
                None => pos + take,
            };
            let prime = if pos == start && warmup_frames > 0 && start > 0 {
                let len = if warmup_frames < start { warmup_frames } else { start };
                Some(WarmUp { start: start - len, len })
            } else {
                None
            };
            BlockPlan::Read { read_pos: pos, take, range_start: start, range_end, prime }
        },
    }
}

/// The cursor after a block of `take` frames read at `read_pos`: the frames
/// count as done and reading resumes at the next target frame.
pub open spec fn commit_spec(ranges: Seq<FrameRange>, c: PassCursor, read_pos: u64, take: u64) -> PassCursor {
    PassCursor {
        read_pos: advance_spec(ranges, (read_pos + take) as u64),
        done: (c.done + take) as u64,
        total: c.total,
    }
}

/// Record a finished block; returns whether the pass is now complete.
pub fn commit_block(ranges: &[FrameRange], cursor: &mut PassCursor, read_pos: u64, take: u64) -> (complete: bool)
    requires
        read_pos + take <= u64::MAX,
        old(cursor).done + take <= u64::MAX,
    ensures
        *final(cursor) == commit_spec(ranges@, *old(cursor), read_pos, take),
        complete == (final(cursor).done >= final(cursor).total),
{
    cursor.read_pos = advance_read_pos(ranges, read_pos + take);
    cursor.done = cursor.done + take;
    cursor.done >= cursor.total
}

/// Where reading resumes is never before the frame it resumes after.
proof fn lemma_advance_not_before(ranges: Seq<FrameRange>, after: u64)
    ensures
        advance_spec(ranges, after) >= after,
    decreases ranges.len(),
{
    if ranges.len() > 0 && after >= ranges[0].1 {
        lemma_advance_not_before(ranges.drop_first(), after);
    }
}

/// A planned read is a non-empty run of at most `block_frames` frames inside
/// one target range, at or after the cursor; committing it moves the cursor
/// strictly forward and counts exactly its frames as done, so a pass ends.
pub proof fn lemma_block_progress(ranges: Seq<FrameRange>, c: PassCursor, block_frames: u64, warmup: u64)
    requires
        plan_spec(ranges, c, block_frames, warmup) is Read,
    ensures
        ({
            let p = plan_spec(ranges, c, block_frames, warmup);
            let (pos, take, start) = (p->read_pos, p->take, p->range_start);
            &&& 0 < take <= block_frames
            &&& c.read_pos <= pos
            &&& exists|i: int| 0 <= i < ranges.len() && #[trigger] ranges[i].0 == start && start <= pos && pos + take <= ranges[i].1
            &&& c.done + take <= u64::MAX ==> commit_spec(ranges, c, pos, take).done == c.done + take
            &&& pos + take <= u64::MAX ==> commit_spec(ranges, c, pos, take).read_pos > c.read_pos
        }),
{
    lemma_next_chunk_in_range(ranges, c.read_pos, block_frames);
    let p = plan_spec(ranges, c, block_frames, warmup);
    let (pos, take) = (p->read_pos, p->take);
    if pos + take <= u64::MAX {
        lemma_advance_not_before(ranges, (pos + take) as u64);
    }
}

/// Frames in `ranges`, each range counted as `end - start` (0 when empty).
pub open spec fn total_frames(ranges: Seq<FrameRange>) -> nat
    decreases ranges.len(),
{
    if ranges.len() == 0 {
        0
    } else {
        total_frames(ranges.drop_last()) + (if ranges.last().1 > ranges.last().0 { (ranges.last().1 - ranges.last().0) as nat } else { 0nat })
    }
}

/// The target of a pass: the whole timeline when none is given, nothing for
/// an empty selection, else the given ranges in canonical form.
pub open spec fn target_ok(given: Option<Seq<FrameRange>>, frames: u64, out: Seq<FrameRange>) -> bool {
    match given {
        None => out == seq![(0u64, frames)],
        Some(r) => if r.len() == 0 { out.len() == 0 } else { is_merge_of(out, r, frames) },
    }
}

proof fn lemma_canonical_total(ranges: Seq<FrameRange>, frames: u64)
    requires
        is_canonical(ranges, frames),
    ensures
        ranges.len() > 0 ==> total_frames(ranges) <= ranges.last().1,
        total_frames(ranges) <= frames,
    decreases ranges.len(),
{
    if ranges.len() > 0 {
        let init = ranges.drop_last();
        assert(is_canonical(init, frames)) by {
            assert forall|i: int| #![trigger init[i]] 0 <= i < init.len() implies init[i].0 < init[i].1 && init[i].1 <= frames by {
                assert(init[i] == ranges[i]);
            }
            assert forall|i: int, j: int| #![trigger init[i], init[j]] 0 <= i < j < init.len() implies init[i].1 < init[j].0 by {
                assert(init[i] == ranges[i] && init[j] == ranges[j]);
            }
        }
        lemma_canonical_total(init, frames);
        if init.len() > 0 {
            assert(init.last() == ranges[ranges.len() - 2]);
            assert(ranges[ranges.len() - 2].1 < ranges[ranges.len() - 1].0);
        }
        assert(ranges.last() == ranges[ranges.len() - 1]);
    }
}

/// Set up a pass over `ranges` (`None` for the whole timeline of `frames`
/// frames): the normalized target ranges and a cursor at the first target
/// frame with nothing done and every target frame to do.
pub fn begin_analysis_target(ranges: Option<Vec<FrameRange>>, frames: u64) -> (out: (Vec<FrameRange>, PassCursor))
    ensures
        target_ok(match ranges { Some(r) => Some(r@), None => None }, frames, out.0@),
        out.1.read_pos == (if out.0@.len() > 0 { out.0@[0].0 } else { 0 }),
        out.1.done == 0,
        out.1.total == total_frames(out.0@),
{
    let target: Vec<FrameRange> = match ranges {
        None => {
            let mut v = Vec::new();
            v.push((0u64, frames));
            proof {
                assert(v@ =~= seq![(0u64, frames)]);
            }
            v
        },
        Some(r) => if r.len() == 0 {
            Vec::new()
        } else {
            normalize_half_open_ranges(r, frames)
        },
    };
    let ghost whole = target@ == seq![(0u64, frames)];
    proof {
        if !whole {
            if target@.len() > 0 {
                lemma_canonical_total(target@, frames);
            } else {
                assert(total_frames(target@) == 0);
            }
        } else {
            assert(target@.drop_last() =~= Seq::<FrameRange>::empty());
        }
    }
    let mut total: u64 = 0;
    let mut i: usize = 0;
    while i < target.len()
        invariant
            i <= target@.len(),
            total == total_frames(target@.take(i as int)),
            total_frames(target@) <= frames,
            whole == (target@ == seq![(0u64, frames)]),
            !whole ==> target@.len() == 0 || is_canonical(target@, frames),
        decreases target.len() - i,
    {
        let (s, e) = target[i];
        proof {
            assert(target@.take(i + 1).drop_last() =~= target@.take(i as int));
            assert(target@.take(i + 1).last() == (s, e));
            if whole {
                assert(target@.take(1) =~= target@);
            } else {
                let t = target@.take(i + 1);
                assert(is_canonical(t, frames)) by {
                    assert forall|a: int| #![trigger t[a]] 0 <= a < t.len() implies t[a].0 < t[a].1 && t[a].1 <= frames by {
                        assert(t[a] == target@[a]);
                    }
                    assert forall|a: int, b: int| #![trigger t[a], t[b]] 0 <= a < b < t.len() implies t[a].1 < t[b].0 by {
                        assert(t[a] == target@[a] && t[b] == target@[b]);
                    }
                }
                lemma_canonical_total(t, frames);
            }
        }
        if e > s {
            total = total + (e - s);
        }
        i = i + 1;
    }
    proof {
        assert(target@.take(target@.len() as int) =~= target@);
    }
    let read_pos = if target.len() > 0 { target[0].0 } else { 0 };
    (target, PassCursor { read_pos, done: 0, total })
}

// ---------------------------------------------------------------------------
// Seeding a pass
// ---------------------------------------------------------------------------

/// The whole timeline as one range, or nothing when it is empty.
pub open spec fn whole_timeline(frames: u64) -> Seq<FrameRange> {
    if frames == 0 { Seq::empty() } else { seq![(0u64, frames)] }
}

fn whole_timeline_ranges(frames: u64) -> (out: Vec<FrameRange>)
    ensures
        out@ == whole_timeline(frames),
{
    let mut v = Vec::new();
    if frames > 0 {
        v.push((0u64, frames));
    }
    proof {
        if frames > 0 {
            assert(v@ =~= seq![(0u64, frames)]);
        } else {
            assert(v@ =~= Seq::<FrameRange>::empty());
        }
    }
    v
}

fn clone_ranges(ranges: &[FrameRange]) -> (out: Vec<FrameRange>)
    ensures
        out@ == ranges@,
{
    let mut v = Vec::new();
    let mut i: usize = 0;
    while i < ranges.len()
        invariant
            i <= ranges@.len(),
            v@ == ranges@.take(i as int),
        decreases ranges.len() - i,
    {
        v.push(ranges[i]);
        proof {
            assert(ranges@.take(i + 1) =~= ranges@.take(i as int).push(ranges@[i as int]));
        }
        i = i + 1;
    }
    proof {
        assert(ranges@.take(ranges@.len() as int) =~= ranges@);
    }
    v
}

/// A clip on the timeline as the overview (min/max) builder sees it.
#[derive(Clone, Copy, Debug, PartialEq, Eq, Structural)]
pub struct SpanPeaks {
    /// Timeline frame where the clip starts.
    pub start: u64,
    /// Clip length in frames.
    pub len: u64,
    /// Frames of the clip its overview cache already covers.
    pub covered: u64,
    /// The clip's overview cache still needs extending.
    pub needs_extend: bool,
}

/// The part of a clip whose overview is still missing, if any.
pub open spec fn missing_peaks(s: SpanPeaks) -> Option<FrameRange> {
    let covered: u64 = if s.covered < s.len { s.covered } else { s.len };
    let start = s.start.saturating_add(covered);
    let end = s.start.saturating_add(s.len);
    if s.needs_extend && end > start { Some((start, end)) } else { None }
}

/// The missing overview parts of the spans, in span order.
pub open spec fn missing_peaks_all(spans: Seq<SpanPeaks>) -> Seq<FrameRange>
    decreases spans.len(),
{
    if spans.len() == 0 {
        Seq::empty()
    } else {
        let rest = missing_peaks_all(spans.drop_last());
        match missing_peaks(spans.last()) {
            Some(r) => rest.push(r),
            None => rest,
        }
    }
}

/// Seeds of an overview pass: the frames of each clip its overview cache
/// does not cover yet, merged.
pub fn minmax_seed_ranges(spans: &[SpanPeaks], frames: u64) -> (out: Vec<FrameRange>)
    ensures
        is_merge_of(out@, missing_peaks_all(spans@), frames),
{
    let mut out: Vec<FrameRange> = Vec::new();
    let mut i: usize = 0;
    while i < spans.len()
        invariant
            i <= spans@.len(),
            out@ == missing_peaks_all(spans@.take(i as int)),
        decreases spans.len() - i,
    {
        let s = spans[i];
        proof {
            assert(spans@.take(i + 1).drop_last() =~= spans@.take(i as int));
            assert(spans@.take(i + 1).last() == s);
        }
        if s.needs_extend {
            let covered = if s.covered < s.len { s.covered } else { s.len };
            let start = s.start.saturating_add(covered);
            let end = s.start.saturating_add(s.len);
            if end > start {
                out.push((start, end));
            }
        }
        i = i + 1;
    }
    proof {
        assert(spans@.take(spans@.len() as int) =~= spans@);
    }
    merge_frame_ranges(out, frames)
}

/// Hops needed for `frames` frames at `hop` frames per hop.
pub open spec fn hops_needed(frames: u64, hop: usize) -> int {
    hop_count_spec(frames, hop)
}

/// A spectral stream can be rebuilt regionally: it has dirty ranges and the
/// shape the analyser produces for this timeline.
pub open spec fn spectral_regional<T>(s: SpectralStreamSeries<T>, frames: u64, hop: usize, band_count: usize) -> bool {
    &&& s.dirty_ranges@.len() > 0
    &&& stored_hops(s) == hops_needed(frames, hop)
    &&& s.band_count == band_count
}

/// Hops stored for the first channel (0 without channels or bands).
pub open spec fn stored_hops<T>(s: SpectralStreamSeries<T>) -> int {
    if s.channels@.len() == 0 || s.band_count == 0 {
        0
    } else {
        (s.channels@[0]@.len() as int) / (s.band_count as int)
    }
}

/// Seeds of a spectral pass: the dirty ranges of a stream that can be
/// rebuilt regionally, else the whole timeline.
pub fn spectral_seed_ranges<T: Copy>(series: Option<&SpectralStreamSeries<T>>, frames: u64, hop: usize, band_count: usize) -> (out: Vec<FrameRange>)
    requires
        hop > 0,
        frames == 0 || (frames as usize) + hop - 1 <= usize::MAX,
    ensures
        match series {
            Some(s) => if spectral_regional(*s, frames, hop, band_count) { out@ == s.dirty_ranges@ } else { out@ == whole_timeline(frames) },
            None => out@ == whole_timeline(frames),
        },
{
    let needed = hops_for_frames(frames, hop);
    if let Some(s) = series {
        if s.dirty_ranges.len() > 0 && s.hop_count(0) == needed && s.band_count == band_count {
            return clone_ranges(s.dirty_ranges.as_slice());
        }
    }
    whole_timeline_ranges(frames)
}

/// An envelope stream can be rebuilt regionally: it has dirty ranges and
/// every channel holds one bin per hop of the timeline.
pub open spec fn envelope_regional<T>(s: FloatStreamSeries<T>, frames: u64, hop: usize) -> bool {
    &&& s.dirty_ranges@.len() > 0
    &&& forall|c: int| 0 <= c < s.channels@.len() ==> (#[trigger] s.channels@[c])@.len() == hops_needed(frames, hop)
}

fn all_channels_len<T>(channels: &Vec<Vec<T>>, n: usize) -> (out: bool)
    ensures
        out == forall|c: int| 0 <= c < channels@.len() ==> (#[trigger] channels@[c])@.len() == n,
{
    let mut c: usize = 0;
    while c < channels.len()
        invariant
            c <= channels@.len(),
            forall|k: int| 0 <= k < c ==> (#[trigger] channels@[k])@.len() == n,
        decreases channels.len() - c,
    {
        if channels[c].len() != n {
            return false;
        }
        c = c + 1;
    }
    true
}

/// Seeds of an envelope pass: the configured target when the pass is
/// limited to a selection; else the dirty ranges of a stream that can be
/// rebuilt regionally; else the whole timeline.
pub fn envelope_seed_ranges<T: Copy>(
    series: Option<&FloatStreamSeries<T>>,
    selection_configured: bool,
    target: &[FrameRange],
    frames: u64,
    hop: usize,
) -> (out: Vec<FrameRange>)
    requires
        hop > 0,
        frames == 0 || (frames as usize) + hop - 1 <= usize::MAX,
    ensures
        selection_configured ==> out@ == target@,
        !selection_configured ==> match series {
            Some(s) => if envelope_regional(*s, frames, hop) { out@ == s.dirty_ranges@ } else { out@ == whole_timeline(frames) },
            None => out@ == whole_timeline(frames),
        },
{
    if selection_configured {
        return clone_ranges(target);
    }
    let needed = hops_for_frames(frames, hop);
    if let Some(s) = series {
        if s.dirty_ranges.len() > 0 && all_channels_len(&s.channels, needed) {
            return clone_ranges(s.dirty_ranges.as_slice());
        }
    }
    whole_timeline_ranges(frames)
}

/// Seeds of a transient pass: the configured target, else the whole timeline.
pub fn transient_seed_ranges(selection_configured: bool, target: &[FrameRange], frames: u64) -> (out: Vec<FrameRange>)
    ensures
        selection_configured ==> out@ == target@,
        !selection_configured ==> out@ == whole_timeline(frames),
{
    if selection_configured {
        clone_ranges(target)
    } else {
        whole_timeline_ranges(frames)
    }
}

/// The ranges a pass covers: its seeds padded by the largest recompute
/// radius of its kinds (merged as they are when no kind needs padding).
pub fn plan_pass_ranges(seeds: Vec<FrameRange>, max_radius: u64, frames: u64) -> (out: Vec<FrameRange>)
    ensures
        max_radius > 0 ==> is_merge_of(out@, expand_all(seeds@, max_radius, frames), frames),
        max_radius == 0 ==> is_merge_of(out@, seeds@, frames),
{
    if max_radius > 0 {
        expand_frame_ranges(seeds.as_slice(), max_radius, frames)
    } else {
        merge_frame_ranges(seeds, frames)
    }
}

/// Get a spectral stream ready for a pass: one that cannot be rebuilt
/// regionally is reset to the analyser's shape (every band `floor`, covering
/// the timeline) with the planned ranges dirty.
pub fn prepare_spectral<T: Copy>(
    series: &mut SpectralStreamSeries<T>,
    planned: &[FrameRange],
    frames: u64,
    hop: usize,
    band_count: usize,
    fft_size: usize,
)
    requires
        hop > 0,
        frames == 0 || (frames as usize) + hop - 1 <= usize::MAX,
        hops_needed(frames, hop) * band_count <= usize::MAX,
    ensures
        spectral_regional(*old(series), frames, hop, band_count) ==> *final(series) == *old(series),
        !spectral_regional(*old(series), frames, hop, band_count) ==> {
            &&& final(series).hop == hop
            &&& final(series).band_count == band_count
            &&& final(series).fft_size == fft_size
            &&& final(series).covered_frames == frames
            &&& final(series).floor == old(series).floor
            &&& final(series).dirty_ranges@ == planned@
            &&& final(series).channels@.len() == old(series).channels@.len()
            &&& forall|c: int| 0 <= c < old(series).channels@.len() ==>
                (#[trigger] final(series).channels@[c])@ == blank(hops_needed(frames, hop) * band_count, old(series).floor)
        },
{
    let needed = hops_for_frames(frames, hop);
    let regional = series.dirty_ranges.len() > 0 && series.hop_count(0) == needed && series.band_count == band_count;
    if regional {
        return;
    }
    let n = needed * band_count;
    let floor = series.floor;
    let count = series.channels.len();
    let mut channels: Vec<Vec<T>> = Vec::new();
    let mut c: usize = 0;
    while c < count
        invariant
            c <= count,
            channels@.len() == c,
            forall|k: int| 0 <= k < c ==> (#[trigger] channels@[k])@ == blank(n as int, floor),
        decreases count - c,
    {
        channels.push(blank_buffer(n, floor));
        c = c + 1;
    }
    series.channels = channels;
    series.covered_frames = frames;
    series.hop = hop;
    series.band_count = band_count;
    series.fft_size = fft_size;
    series.dirty_ranges = clone_ranges(planned);
}

/// Get an envelope stream ready for a pass: one that cannot be rebuilt
/// regionally is reset to one `blank` bin per hop covering the timeline;
/// a stream left without dirty ranges gets the planned ranges.
pub fn prepare_envelope<T: Copy>(series: &mut FloatStreamSeries<T>, planned: &[FrameRange], frames: u64, hop: usize)
    requires
        hop > 0,
        frames == 0 || (frames as usize) + hop - 1 <= usize::MAX,
    ensures
        final(series).hop == old(series).hop,
        final(series).blank == old(series).blank,
        envelope_regional(*old(series), frames, hop) ==> {
            &&& final(series).channels == old(series).channels
            &&& final(series).covered_frames == old(series).covered_frames
            &&& final(series).dirty_ranges@ == old(series).dirty_ranges@
        },
        !envelope_regional(*old(series), frames, hop) ==> {
            &&& final(series).covered_frames == frames
            &&& final(series).dirty_ranges@ == planned@
            &&& final(series).channels@.len() == old(series).channels@.len()
            &&& forall|c: int| 0 <= c < old(series).channels@.len() ==>
                (#[trigger] final(series).channels@[c])@ == blank(hops_needed(frames, hop), old(series).blank)
        },
{
    let needed = hops_for_frames(frames, hop);
    let regional = series.dirty_ranges.len() > 0 && all_channels_len(&series.channels, needed);
    if !regional {
        let blank_value = series.blank;
        let count = series.channels.len();
        let mut channels: Vec<Vec<T>> = Vec::new();
        let mut c: usize = 0;
        while c < count
            invariant
                c <= count,
                channels@.len() == c,
                forall|k: int| 0 <= k < c ==> (#[trigger] channels@[k])@ == blank(needed as int, blank_value),
            decreases count - c,
        {
            channels.push(blank_buffer(needed, blank_value));
            c = c + 1;
        }
        series.channels = channels;
        series.covered_frames = frames;
        series.dirty_ranges = clone_ranges(planned);
    }
}

// ---------------------------------------------------------------------------
// Transient markers
// ---------------------------------------------------------------------------

/// A marker as the transient pass sees it: its id, frame and type name.
#[derive(Clone, Debug)]
pub struct MarkerEntry {
    pub id: u64,
    pub frame: u64,
    pub marker_type: String,
}

/// Ids of the markers of type `ty` whose frame lies inside the target, in
/// marker order: these are replaced by the new transient markers, and every
/// other marker stays.
pub open spec fn replaced_ids(ms: Seq<MarkerEntry>, target: Seq<FrameRange>, ty: Seq<char>) -> Seq<u64>
    decreases ms.len(),
{
    if ms.len() == 0 {
        Seq::empty()
    } else {
        let rest = replaced_ids(ms.drop_last(), target, ty);
        let m = ms.last();
        if m.marker_type@ == ty && covers(target, m.frame as int) {
            rest.push(m.id)
        } else {
            rest
        }
    }
}

/// Whether `frame` lies in one of `ranges`.
fn frame_in_ranges(ranges: &[FrameRange], frame: u64) -> (out: bool)
    ensures
        out == covers(ranges@, frame as int),
{
    let mut i: usize = 0;
    while i < ranges.len()
        invariant
            i <= ranges@.len(),
            forall|k: int| 0 <= k < i ==> !in_range(#[trigger] ranges@[k], frame as int),
        decreases ranges.len() - i,
    {
        let (start, end) = ranges[i];
        if frame >= start && frame < end {
            assert(in_range(ranges@[i as int], frame as int));
            return true;
        }
        i = i + 1;
    }
    false
}

/// The markers a finished transient pass replaces: every marker of
/// `marker_type` at a frame inside the analysis target (each range taken as
/// its frames `start..=end - 1`). Markers of other types, and markers outside
/// the target, are kept.
pub fn markers_to_replace(markers: &[MarkerEntry], target: &[FrameRange], marker_type: &str) -> (out: Vec<u64>)
    ensures
        out@ == replaced_ids(markers@, target@, marker_type@),
{
    let ty = String::from_str(marker_type);
    let mut out: Vec<u64> = Vec::new();
    let mut i: usize = 0;
    while i < markers.len()
        invariant
            i <= markers@.len(),
            ty@ == marker_type@,
            out@ == replaced_ids(markers@.subrange(0, i as int), target@, marker_type@),
        decreases markers.len() - i,
    {
        let m = &markers[i];
        proof {
            assert(markers@.subrange(0, i as int + 1).drop_last() =~= markers@.subrange(0, i as int));
        }
        if m.marker_type == ty && frame_in_ranges(target, m.frame) {
            out.push(m.id);
        }
        i = i + 1;
    }
    proof {
        assert(markers@.subrange(0, markers@.len() as int) =~= markers@);
    }
    out
}

} // verus!

