//! Half-open frame ranges: clamping, merging, padding, hop alignment and
//! subtraction, as used by the analysis caches of a composition.
use vstd::prelude::*;

use crate::edl::EditOp;

verus! {

/// Half-open timeline range `[start, end)` in frames.
pub type FrameRange = (u64, u64);

/// Frame `x` lies inside the half-open range `r`.
pub open spec fn in_range(r: FrameRange, x: int) -> bool {
    r.0 <= x && x < r.1
}

/// Some range of `rs` holds frame `x`.
pub open spec fn covers(rs: Seq<FrameRange>, x: int) -> bool {
    exists|i: int| 0 <= i < rs.len() && #[trigger] in_range(rs[i], x)
}

/// Sorted, non-empty, pairwise separated (not even touching) ranges inside `[0, frames)`.
pub open spec fn is_canonical(rs: Seq<FrameRange>, frames: u64) -> bool {
    &&& forall|i: int| #![trigger rs[i]] 0 <= i < rs.len() ==> rs[i].0 < rs[i].1 && rs[i].1 <= frames
    &&& forall|i: int, j: int| #![trigger rs[i], rs[j]] 0 <= i < j < rs.len() ==> rs[i].1 < rs[j].0
}

/// `out` is the canonical form of the frames of `input` below `frames`.
pub open spec fn is_merge_of(out: Seq<FrameRange>, input: Seq<FrameRange>, frames: u64) -> bool {
    &&& is_canonical(out, frames)
    &&& forall|x: int| #[trigger] covers(out, x) <==> (covers(input, x) && x < frames)
}

pub proof fn lemma_covers_push(rs: Seq<FrameRange>, r: FrameRange, x: int)
    ensures
        covers(rs.push(r), x) <==> (covers(rs, x) || in_range(r, x)),
{
    if covers(rs, x) {
        let i = choose|i: int| 0 <= i < rs.len() && #[trigger] in_range(rs[i], x);
        assert(rs.push(r)[i] == rs[i]);
    }
    if in_range(r, x) {
        assert(rs.push(r)[rs.len() as int] == r);
    }
    if covers(rs.push(r), x) {
        let i = choose|i: int| 0 <= i < rs.push(r).len() && #[trigger] in_range(rs.push(r)[i], x);
        if i < rs.len() {
            assert(rs.push(r)[i] == rs[i]);
        }
    }
}

pub proof fn lemma_covers_prefix_step(rs: Seq<FrameRange>, i: int, x: int)
    requires
        0 <= i < rs.len(),
    ensures
        covers(rs.subrange(0, i + 1), x) <==> (covers(rs.subrange(0, i), x) || in_range(rs[i], x)),
{
    assert(rs.subrange(0, i + 1) =~= rs.subrange(0, i).push(rs[i]));
    lemma_covers_push(rs.subrange(0, i), rs[i], x);
}

pub proof fn lemma_covers_insert(rs: Seq<FrameRange>, p: int, r: FrameRange, x: int)
    requires
        0 <= p <= rs.len(),
    ensures
        covers(rs.insert(p, r), x) <==> (covers(rs, x) || in_range(r, x)),
{
    rs.insert_ensures(p, r);
    let t = rs.insert(p, r);
    if covers(rs, x) {
        let i = choose|i: int| 0 <= i < rs.len() && #[trigger] in_range(rs[i], x);
        if i < p {
            assert(t[i] == rs[i]);
        } else {
            assert(t[i + 1] == rs[i]);
        }
    }
    if in_range(r, x) {
        assert(t[p] == r);
    }
    if covers(t, x) {
        let i = choose|i: int| 0 <= i < t.len() && #[trigger] in_range(t[i], x);
        if i < p {
            assert(t[i] == rs[i]);
        } else if i > p {
            assert(t[(i - 1) + 1] == rs[i - 1]);
        }
    }
}

/// Keep the non-empty part of each range below `frames`, dropping empty ones.
fn clamp_nonempty(ranges: &Vec<FrameRange>, frames: u64) -> (out: Vec<FrameRange>)
    ensures
        forall|i: int| #![trigger out@[i]] 0 <= i < out.len() ==> out@[i].0 < out@[i].1 && out@[i].1 <= frames,
        forall|x: int| #[trigger] covers(out@, x) <==> (covers(ranges@, x) && x < frames),
{
    let mut out: Vec<FrameRange> = Vec::new();
    let mut i: usize = 0;
    while i < ranges.len()
        invariant
            i <= ranges.len(),
            forall|k: int| #![trigger out@[k]] 0 <= k < out.len() ==> out@[k].0 < out@[k].1 && out@[k].1 <= frames,
            forall|x: int| #[trigger] covers(out@, x) <==> (covers(ranges@.subrange(0, i as int), x) && x < frames),
        decreases ranges.len() - i,
    {
        let (s, e) = ranges[i];
        let start = if s < frames { s } else { frames };
        let end = if e < frames { e } else { frames };
        let ghost old_out = out@;
        if end > start {
            out.push((start, end));
        }
        proof {
            assert forall|x: int| #[trigger] covers(out@, x) <==> (covers(ranges@.subrange(0, i + 1), x) && x < frames) by {
                lemma_covers_prefix_step(ranges@, i as int, x);
                if end > start {
                    lemma_covers_push(old_out, (start, end), x);
                }
            }
        }
        i = i + 1;
    }
    proof {
        assert(ranges@.subrange(0, ranges.len() as int) =~= ranges@);
    }
    out
}

/// Stable insertion sort by range start.
fn sort_by_start(ranges: Vec<FrameRange>, frames: u64) -> (out: Vec<FrameRange>)
    requires
        forall|i: int| #![trigger ranges@[i]] 0 <= i < ranges.len() ==> ranges@[i].0 < ranges@[i].1 && ranges@[i].1 <= frames,
    ensures
        forall|i: int| #![trigger out@[i]] 0 <= i < out.len() ==> out@[i].0 < out@[i].1 && out@[i].1 <= frames,
        forall|i: int, j: int| #![trigger out@[i], out@[j]] 0 <= i < j < out.len() ==> out@[i].0 <= out@[j].0,
        forall|x: int| #[trigger] covers(out@, x) <==> covers(ranges@, x),
{
    let mut out: Vec<FrameRange> = Vec::new();
    let mut i: usize = 0;
    while i < ranges.len()
        invariant
            i <= ranges.len(),
            forall|i: int| #![trigger ranges@[i]] 0 <= i < ranges.len() ==> ranges@[i].0 < ranges@[i].1 && ranges@[i].1 <= frames,
            forall|k: int| #![trigger out@[k]] 0 <= k < out.len() ==> out@[k].0 < out@[k].1 && out@[k].1 <= frames,
            forall|a: int, b: int| #![trigger out@[a], out@[b]] 0 <= a < b < out.len() ==> out@[a].0 <= out@[b].0,
            forall|x: int| #[trigger] covers(out@, x) <==> covers(ranges@.subrange(0, i as int), x),
        decreases ranges.len() - i,
    {
        let r = ranges[i];
        // Insert after every element whose start is <= r.0 (keeps equal starts in order).
        let mut p: usize = out.len();
        while p > 0 && out[p - 1].0 > r.0
            invariant
                p <= out.len(),
                forall|k: int| p <= k < out.len() ==> #[trigger] out@[k].0 > r.0,
            decreases p,
        {
            p = p - 1;
        }
        let ghost old_out = out@;
        proof {
            old_out.insert_ensures(p as int, r);
        }
        out.insert(p, r);
        proof {
            assert forall|k: int| 0 <= k < out.len() implies #[trigger] out@[k].0 < out@[k].1 && out@[k].1 <= frames by {
                if k < p {
                    assert(out@[k] == old_out[k]);
                } else if k > p {
                    assert(out@[(k - 1) + 1] == old_out[k - 1]);
                }
            }
            assert forall|a: int, b: int| #![trigger out@[a], out@[b]] 0 <= a < b < out.len() implies out@[a].0 <= out@[b].0 by {
                if p > 0 {
                    assert(old_out[p - 1].0 <= r.0);
                }
                if a < p && b < p {
                    assert(out@[a] == old_out[a] && out@[b] == old_out[b]);
                } else if a < p && b == p {
                    assert(out@[a] == old_out[a]);
                    assert(old_out[a].0 <= old_out[p - 1].0 || a == p - 1);
                } else if a < p && b > p {
                    assert(out@[a] == old_out[a] && out@[(b - 1) + 1] == old_out[b - 1]);
                } else if a == p {
                    assert(out@[(b - 1) + 1] == old_out[b - 1]);
                } else {
                    assert(out@[(a - 1) + 1] == old_out[a - 1] && out@[(b - 1) + 1] == old_out[b - 1]);
                }
            }
            assert forall|x: int| #[trigger] covers(out@, x) <==> covers(ranges@.subrange(0, i + 1), x) by {
                lemma_covers_prefix_step(ranges@, i as int, x);
                lemma_covers_insert(old_out, p as int, r, x);
            }
        }
        i = i + 1;
    }
    proof {
        assert(ranges@.subrange(0, ranges.len() as int) =~= ranges@);
    }
    out
}

/// Merge sorted non-empty ranges into canonical form.
fn merge_sorted(sorted: &Vec<FrameRange>, frames: u64) -> (out: Vec<FrameRange>)
    requires
        forall|i: int| #![trigger sorted@[i]] 0 <= i < sorted.len() ==> sorted@[i].0 < sorted@[i].1 && sorted@[i].1 <= frames,
        forall|i: int, j: int| #![trigger sorted@[i], sorted@[j]] 0 <= i < j < sorted.len() ==> sorted@[i].0 <= sorted@[j].0,
    ensures
        is_canonical(out@, frames),
        forall|x: int| #[trigger] covers(out@, x) <==> covers(sorted@, x),
{
    let mut merged: Vec<FrameRange> = Vec::new();
    let mut k: usize = 0;
    while k < sorted.len()
        invariant
            k <= sorted.len(),
            forall|i: int| #![trigger sorted@[i]] 0 <= i < sorted.len() ==> sorted@[i].0 < sorted@[i].1 && sorted@[i].1 <= frames,
            forall|i: int, j: int| #![trigger sorted@[i], sorted@[j]] 0 <= i < j < sorted.len() ==> sorted@[i].0 <= sorted@[j].0,
            is_canonical(merged@, frames),
            merged.len() > 0 ==> forall|m: int| k <= m < sorted.len() ==> merged@.last().0 <= #[trigger] sorted@[m].0,
            forall|x: int| #[trigger] covers(merged@, x) <==> covers(sorted@.subrange(0, k as int), x),
        decreases sorted.len() - k,
    {
        let (start, end) = sorted[k];
        let ghost old_m = merged@;
        let n = merged.len();
        if n > 0 && start <= merged[n - 1].1 {
            let (last_start, last_end) = merged[n - 1];
            let new_end = if end > last_end { end } else { last_end };
            merged.set(n - 1, (last_start, new_end));
            proof {
                assert(merged@ =~= old_m.drop_last().push((last_start, new_end)));
                assert(old_m =~= old_m.drop_last().push((last_start, last_end)));
                assert forall|x: int| #[trigger] covers(merged@, x) <==> covers(sorted@.subrange(0, k + 1), x) by {
                    lemma_covers_prefix_step(sorted@, k as int, x);
                    lemma_covers_push(old_m.drop_last(), (last_start, new_end), x);
                    lemma_covers_push(old_m.drop_last(), (last_start, last_end), x);
                }
                assert forall|i: int, j: int| #![trigger merged@[i], merged@[j]] 0 <= i < j < merged.len() implies merged@[i].1 < merged@[j].0 by {
                    assert(old_m[i].1 < old_m[j].0);
                }
            }
        } else {
            merged.push((start, end));
            proof {
                assert forall|x: int| #[trigger] covers(merged@, x) <==> covers(sorted@.subrange(0, k + 1), x) by {
                    lemma_covers_prefix_step(sorted@, k as int, x);
                    lemma_covers_push(old_m, (start, end), x);
                }
                assert forall|i: int, j: int| #![trigger merged@[i], merged@[j]] 0 <= i < j < merged.len() implies merged@[i].1 < merged@[j].0 by {
                    if j < n {
                        assert(old_m[i].1 < old_m[j].0);
                    } else {
                        assert(merged@[j] == (start, end));
                        assert(merged@[i] == old_m[i]);
                        if i < n - 1 {
                            assert(old_m[i].1 < old_m[n - 1].0);
                        }
                    }
                }
                assert forall|m: int| k + 1 <= m < sorted.len() implies merged@.last().0 <= #[trigger] sorted@[m].0 by {
                    assert(sorted@[k as int].0 <= sorted@[m].0);
                }
            }
        }
        k = k + 1;
    }
    proof {
        assert(sorted@.subrange(0, sorted.len() as int) =~= sorted@);
    }
    merged
}

/// Merge overlapping / adjacent half-open ranges, clamped to `[0, frames)`.
///
/// The result is the unique canonical list (sorted, non-empty, separated by
/// at least one frame) holding exactly the input frames below `frames`.
pub fn merge_frame_ranges(ranges: Vec<FrameRange>, frames: u64) -> (out: Vec<FrameRange>)
    ensures
        is_merge_of(out@, ranges@, frames),
{
    let clamped = clamp_nonempty(&ranges, frames);
    let sorted = sort_by_start(clamped, frames);
    merge_sorted(&sorted, frames)
}

/// Clamp, sort and merge half-open ranges into the canonical form of
/// [`merge_frame_ranges`] (analysis targets use the same normal form).
pub fn normalize_half_open_ranges(ranges: Vec<FrameRange>, frames: u64) -> (out: Vec<FrameRange>)
    ensures
        is_merge_of(out@, ranges@, frames),
{
    merge_frame_ranges(ranges, frames)
}

/// A range padded by `radius` on both sides; an empty range becomes the one
/// frame at its start (clamped to `frames`) before padding.
pub open spec fn expand_one(r: FrameRange, radius: u64, frames: u64) -> FrameRange {
    let end: u64 = if r.1 > r.0 {
        r.1
    } else {
        let next = r.0.saturating_add(1);
        if next < frames { next } else { frames }
    };
    (r.0.saturating_sub(radius), end.saturating_add(radius))
}

/// Every range of `ranges` padded by `radius`.
pub open spec fn expand_all(ranges: Seq<FrameRange>, radius: u64, frames: u64) -> Seq<FrameRange> {
    ranges.map_values(|r: FrameRange| expand_one(r, radius, frames))
}

/// Expand each range by `radius` frames on both sides, then merge.
///
/// Zero-length seeds (`start == end`) become `[start-radius, start+1+radius)`.
pub fn expand_frame_ranges(ranges: &[FrameRange], radius: u64, frames: u64) -> (out: Vec<FrameRange>)
    ensures
        is_merge_of(out@, expand_all(ranges@, radius, frames), frames),
{
    let mut expanded: Vec<FrameRange> = Vec::new();
    let mut i: usize = 0;
    while i < ranges.len()
        invariant
            i <= ranges.len(),
            expanded@ =~= expand_all(ranges@, radius, frames).subrange(0, i as int),
        decreases ranges.len() - i,
    {
        let (start, end) = ranges[i];
        let e = if end > start {
            end
        } else {
            let next = start.saturating_add(1);
            if next < frames { next } else { frames }
        };
        expanded.push((start.saturating_sub(radius), e.saturating_add(radius)));
        i = i + 1;
    }
    proof {
        assert(expand_all(ranges@, radius, frames).subrange(0, ranges.len() as int) =~= expand_all(ranges@, radius, frames));
    }
    merge_frame_ranges(expanded, frames)
}

/// A range with its start rounded down and its end rounded up to multiples of `hop`.
pub open spec fn align_one(r: FrameRange, hop: u64) -> FrameRange {
    (((r.0 / hop) * hop) as u64, (((r.1 + hop - 1) / (hop as int)) * hop) as u64)
}

/// Every range of `ranges` snapped outward to multiples of `hop`.
pub open spec fn align_all(ranges: Seq<FrameRange>, hop: u64) -> Seq<FrameRange> {
    ranges.map_values(|r: FrameRange| align_one(r, hop))
}

/// Snap range endpoints outward to hop boundaries, then merge.
pub fn hop_align_frame_ranges(ranges: &[FrameRange], hop: usize, frames: u64) -> (out: Vec<FrameRange>)
    requires
        hop > 0 ==> forall|i: int| 0 <= i < ranges@.len() ==> #[trigger] ranges@[i].1 + hop - 1 <= u64::MAX,
    ensures
        hop == 0 ==> is_merge_of(out@, ranges@, frames),
        hop > 0 ==> is_merge_of(out@, align_all(ranges@, hop as u64), frames),
{
    if hop == 0 {
        let mut copy: Vec<FrameRange> = Vec::new();
        let mut i: usize = 0;
        while i < ranges.len()
            invariant
                i <= ranges.len(),
                copy@ =~= ranges@.subrange(0, i as int),
            decreases ranges.len() - i,
        {
            copy.push(ranges[i]);
            i = i + 1;
        }
        proof {
            assert(ranges@.subrange(0, ranges.len() as int) =~= ranges@);
        }
        return merge_frame_ranges(copy, frames);
    }
    let h = hop as u64;
    let mut aligned: Vec<FrameRange> = Vec::new();
    let mut i: usize = 0;
    while i < ranges.len()
        invariant
            i <= ranges.len(),
            h == hop as u64,
            h > 0,
            forall|i: int| 0 <= i < ranges@.len() ==> #[trigger] ranges@[i].1 + hop - 1 <= u64::MAX,
            aligned@ =~= align_all(ranges@, h).subrange(0, i as int),
        decreases ranges.len() - i,
    {
        let (start, end) = ranges[i];
        assert(end + h - 1 <= u64::MAX);
        assert((start / h) * h <= start) by (nonlinear_arith)
            requires h > 0;
        let s = (start / h) * h;
        let up = (end + (h - 1)) / h;
        assert(up * h <= end + h - 1) by (nonlinear_arith)
            requires up == (end + h - 1) / (h as int), h > 0;
        let e = up * h;
        assert(s <= start) by (nonlinear_arith)
            requires s == (start / h) * h, h > 0;
        aligned.push((s, e));
        i = i + 1;
    }
    proof {
        assert(align_all(ranges@, h).subrange(0, ranges.len() as int) =~= align_all(ranges@, h));
    }
    merge_frame_ranges(aligned, frames)
}

/// What is left of one dirty range once `[done_start, done_end)` is done:
/// its non-empty pieces, in order.
pub open spec fn subtract_pieces(r: FrameRange, done_start: u64, done_end: u64) -> Seq<FrameRange> {
    if r.1 <= done_start || r.0 >= done_end {
        if r.0 < r.1 { seq![r] } else { Seq::empty() }
    } else {
        (if r.0 < done_start { seq![(r.0, done_start)] } else { Seq::<FrameRange>::empty() })
            + (if r.1 > done_end { seq![(done_end, r.1)] } else { Seq::<FrameRange>::empty() })
    }
}

/// The pieces of every dirty range, concatenated in order.
pub open spec fn subtract_all(dirty: Seq<FrameRange>, done_start: u64, done_end: u64) -> Seq<FrameRange>
    decreases dirty.len(),
{
    if dirty.len() == 0 {
        Seq::empty()
    } else {
        subtract_all(dirty.drop_last(), done_start, done_end) + subtract_pieces(dirty.last(), done_start, done_end)
    }
}

/// Subtract a completed half-open span from dirty ranges.
///
/// An empty span leaves the list untouched; otherwise each range is replaced
/// by its non-empty parts outside the span.
pub fn subtract_frame_range(dirty: &[FrameRange], done_start: u64, done_end: u64) -> (out: Vec<FrameRange>)
    ensures
        done_start >= done_end ==> out@ == dirty@,
        done_start < done_end ==> out@ == subtract_all(dirty@, done_start, done_end),
{
    let mut out: Vec<FrameRange> = Vec::new();
    if done_start >= done_end {
        let mut i: usize = 0;
        while i < dirty.len()
            invariant
                i <= dirty.len(),
                out@ =~= dirty@.subrange(0, i as int),
            decreases dirty.len() - i,
        {
            out.push(dirty[i]);
            i = i + 1;
        }
        proof {
            assert(dirty@.subrange(0, dirty.len() as int) =~= dirty@);
        }
        return out;
    }
    let mut i: usize = 0;
    while i < dirty.len()
        invariant
            i <= dirty.len(),
            out@ =~= subtract_all(dirty@.subrange(0, i as int), done_start, done_end),
        decreases dirty.len() - i,
    {
        let (start, end) = dirty[i];
        let ghost before = out@;
        proof {
            assert(dirty@.subrange(0, i + 1).drop_last() =~= dirty@.subrange(0, i as int));
        }
        if end <= done_start || start >= done_end {
            if start < end {
                out.push((start, end));
            }
        } else {
            if start < done_start {
                out.push((start, done_start));
            }
            if end > done_end {
                out.push((done_end, end));
            }
        }
        proof {
            assert(out@ =~= before + subtract_pieces(dirty@[i as int], done_start, done_end));
        }
        i = i + 1;
    }
    proof {
        assert(dirty@.subrange(0, dirty.len() as int) =~= dirty@);
    }
    out
}

/// The next chunk of at most `max_frames` frames at or after `read_pos`
/// inside the first range that still has work: `(range_start, chunk_end, pos)`.
pub open spec fn next_chunk_spec(ranges: Seq<FrameRange>, read_pos: u64, max_frames: u64) -> Option<(u64, u64, u64)>
    decreases ranges.len(),
{
    if ranges.len() == 0 {
        None
    } else {
        let (start, end) = ranges[0];
        if read_pos >= start && read_pos >= end {
            next_chunk_spec(ranges.drop_first(), read_pos, max_frames)
        } else {
            let pos: u64 = if read_pos < start { start } else { read_pos };
            let sum = pos.saturating_add(max_frames);
            let chunk_end: u64 = if sum < end { sum } else { end };
            if chunk_end > pos {
                Some((start, chunk_end, pos))
            } else {
                next_chunk_spec(ranges.drop_first(), read_pos, max_frames)
            }
        }
    }
}

/// Next chunk inside target ranges: `(range_start, chunk_end, read_pos)`.
pub fn next_chunk_in_ranges(ranges: &[FrameRange], read_pos: u64, max_frames: u64) -> (out: Option<(u64, u64, u64)>)
    ensures
        out == next_chunk_spec(ranges@, read_pos, max_frames),
{
    let mut i: usize = 0;
    proof {
        assert(ranges@.subrange(0, ranges@.len() as int) =~= ranges@);
    }
    while i < ranges.len()
        invariant
            i <= ranges.len(),
            next_chunk_spec(ranges@, read_pos, max_frames) == next_chunk_spec(ranges@.subrange(i as int, ranges@.len() as int), read_pos, max_frames),
        decreases ranges.len() - i,
    {
        let (start, end) = ranges[i];
        proof {
            let rest = ranges@.subrange(i as int, ranges@.len() as int);
            assert(rest[0] == (start, end));
            assert(rest.drop_first() =~= ranges@.subrange(i + 1, ranges@.len() as int));
        }
        let pos = if read_pos < start {
            start
        } else if read_pos < end {
            read_pos
        } else {
            i = i + 1;
            continue;
        };
        let sum = pos.saturating_add(max_frames);
        let chunk_end = if sum < end { sum } else { end };
        if chunk_end > pos {
            return Some((start, chunk_end, pos));
        }
        i = i + 1;
    }
    None
}

/// Where reading resumes after `after`: the first range not yet finished
/// lifts `after` to its start; past every range, `after` is kept.
pub open spec fn advance_spec(ranges: Seq<FrameRange>, after: u64) -> u64
    decreases ranges.len(),
{
    if ranges.len() == 0 {
        after
    } else if after < ranges[0].1 {
        if after < ranges[0].0 { ranges[0].0 } else { after }
    } else {
        advance_spec(ranges.drop_first(), after)
    }
}

/// Some range of `rs` ends after `after`: a frame at or after it is still to read.
pub open spec fn ends_after(rs: Seq<FrameRange>, after: u64) -> bool {
    exists|i: int| 0 <= i < rs.len() && #[trigger] rs[i].1 > after
}

/// Over canonical target ranges, reading resumes at the first frame at or
/// after `after` that lies inside a range; when every range ends at or before
/// `after`, the position is kept.
pub proof fn lemma_advance_is_next_covered(ranges: Seq<FrameRange>, frames: u64, after: u64)
    requires
        is_canonical(ranges, frames),
    ensures
        ends_after(ranges, after) ==> {
            let p = advance_spec(ranges, after);
            &&& p >= after
            &&& covers(ranges, p as int)
            &&& forall|y: int| after <= y < p ==> !#[trigger] covers(ranges, y)
        },
        !ends_after(ranges, after) ==> advance_spec(ranges, after) == after,
    decreases ranges.len(),
{
    if ranges.len() == 0 {
        return;
    }
    let r0 = ranges[0];
    let rest = ranges.drop_first();
    if after < r0.1 {
        assert(ends_after(ranges, after)) by {
            assert(ranges[0].1 > after);
        }
        let p = advance_spec(ranges, after);
        assert(in_range(ranges[0], p as int));
        assert forall|y: int| after <= y < p implies !#[trigger] covers(ranges, y) by {
            if covers(ranges, y) {
                let k = choose|k: int| 0 <= k < ranges.len() && #[trigger] in_range(ranges[k], y);
                if k > 0 {
                    assert(ranges[0].1 < ranges[k].0);
                }
            }
        }
    } else {
        assert(is_canonical(rest, frames)) by {
            assert forall|i: int| #![trigger rest[i]] 0 <= i < rest.len() implies rest[i].0 < rest[i].1 && rest[i].1 <= frames by {
                assert(rest[i] == ranges[i + 1]);
            }
            assert forall|i: int, j: int| #![trigger rest[i], rest[j]] 0 <= i < j < rest.len() implies rest[i].1 < rest[j].0 by {
                assert(rest[i] == ranges[i + 1] && rest[j] == ranges[j + 1]);
            }
        }
        lemma_advance_is_next_covered(rest, frames, after);
        if ends_after(ranges, after) {
            let i = choose|i: int| 0 <= i < ranges.len() && #[trigger] ranges[i].1 > after;
            assert(i > 0);
            assert(rest[i - 1] == ranges[i]);
            assert(ends_after(rest, after));
        } else {
            assert forall|i: int| 0 <= i < rest.len() implies !(#[trigger] rest[i].1 > after) by {
                assert(rest[i] == ranges[i + 1]);
            }
        }
        let p = advance_spec(ranges, after);
        if ends_after(rest, after) {
            assert(covers(rest, p as int));
            let k = choose|k: int| 0 <= k < rest.len() && #[trigger] in_range(rest[k], p as int);
            assert(rest[k] == ranges[k + 1]);
            assert(in_range(ranges[k + 1], p as int));
            assert forall|y: int| after <= y < p implies !#[trigger] covers(ranges, y) by {
                if covers(ranges, y) {
                    let m = choose|m: int| 0 <= m < ranges.len() && #[trigger] in_range(ranges[m], y);
                    if m == 0 {
                    } else {
                        assert(rest[m - 1] == ranges[m]);
                        assert(in_range(rest[m - 1], y));
                        assert(covers(rest, y));
                    }
                }
            }
            assert(ends_after(ranges, after)) by {
                assert(ranges[k + 1].1 > after);
            }
        }
    }
}

/// Move the read position past `after` to the next frame that is inside a range.
pub fn advance_read_pos(ranges: &[FrameRange], after: u64) -> (out: u64)
    ensures
        out == advance_spec(ranges@, after),
{
    let mut i: usize = 0;
    proof {
        assert(ranges@.subrange(0, ranges@.len() as int) =~= ranges@);
    }
    while i < ranges.len()
        invariant
            i <= ranges.len(),
            advance_spec(ranges@, after) == advance_spec(ranges@.subrange(i as int, ranges@.len() as int), after),
        decreases ranges.len() - i,
    {
        let (start, end) = ranges[i];
        proof {
            let rest = ranges@.subrange(i as int, ranges@.len() as int);
            assert(rest[0] == (start, end));
            assert(rest.drop_first() =~= ranges@.subrange(i + 1, ranges@.len() as int));
        }
        if after < end {
            return if after < start { start } else { after };
        }
        i = i + 1;
    }
    after
}

/// Index of the hop holding `frame` (0 when `hop` is 0).
pub open spec fn hop_bin_spec(frame: u64, hop: usize) -> int {
    if hop == 0 { 0 } else { ((frame / (hop as u64)) as usize) as int }
}

/// Hops needed to cover `frames` frames (0 when either is 0).
pub open spec fn hop_count_spec(frames: u64, hop: usize) -> int {
    if hop == 0 || frames == 0 { 0 } else { ((frames as usize) + hop - 1) / (hop as int) }
}

/// Index of the hop holding `frame` (0 when `hop` is 0).
pub fn hop_bin(frame: u64, hop: usize) -> (out: usize)
    ensures
        out == hop_bin_spec(frame, hop),
{
    if hop == 0 {
        0
    } else {
        #[verifier::truncate]
        ((frame / hop as u64) as usize)
    }
}

/// Number of hops needed to cover `frames` frames (0 when either is 0).
pub fn hops_for_frames(frames: u64, hop: usize) -> (out: usize)
    requires
        hop == 0 || frames == 0 || (frames as usize) + hop - 1 <= usize::MAX,
    ensures
        out == hop_count_spec(frames, hop),
{
    if hop == 0 || frames == 0 {
        0
    } else {
        #[verifier::truncate]
        let f = frames as usize;
        (f + (hop - 1)) / hop
    }
}

/// The smaller of two frames.
pub open spec fn min_u64(a: u64, b: u64) -> u64 {
    if a < b { a } else { b }
}

/// Seeds of an edit before clamping: the frames of the post-edit timeline
/// whose analysis is stale. Joins are zero-length ranges; a roll uses the
/// landing ranges of the rolled boundary, `roll_landing`.
pub open spec fn raw_dirty_seeds(op: EditOp, roll_landing: Seq<FrameRange>) -> Seq<FrameRange> {
    match op {
        EditOp::Init => Seq::empty(),
        EditOp::Copy { .. } => Seq::empty(),
        EditOp::Delete { start, len } => if len > 0 { seq![(start, start.saturating_add(len))] } else { Seq::empty() },
        EditOp::Cut { start, .. } => seq![(start, start)],
        EditOp::Remove { start, .. } => seq![(start, start)],
        EditOp::Paste { at, len } => if len > 0 { seq![(at, at.saturating_add(len))] } else { Seq::empty() },
        EditOp::Duplicate { start, len } => if len > 0 {
            let insert_at = start.saturating_add(len);
            seq![(insert_at, insert_at.saturating_add(len))]
        } else {
            Seq::empty()
        },
        EditOp::Trim { len, .. } => if len > 0 { seq![(0u64, 0u64), (len, len)] } else { Seq::empty() },
        EditOp::Move { from, len, dest } => if len > 0 {
            let insert_at: u64 = if dest > from { dest.saturating_sub(len) } else { dest };
            let join = min_u64(from, insert_at);
            seq![(join, join), (insert_at, insert_at.saturating_add(len))]
        } else {
            Seq::empty()
        },
        EditOp::Roll { .. } => roll_landing,
    }
}

/// The seeds of [`raw_dirty_seeds`] with both ends clamped to `post_frames`.
pub open spec fn dirty_seeds_spec(op: EditOp, roll_landing: Seq<FrameRange>, post_frames: u64) -> Seq<FrameRange> {
    raw_dirty_seeds(op, roll_landing).map_values(|r: FrameRange| (min_u64(r.0, post_frames), min_u64(r.1, post_frames)))
}

/// An edit that takes material out (a cut, or a removal without the
/// clipboard) always leaves a zero-length seed at the join, clamped to the
/// new length; and cutting or removing the same span dirties the same frames.
pub proof fn lemma_removal_seeds_join(start: u64, len: u64, landing: Seq<FrameRange>, post_frames: u64)
    ensures
        ({
            let j: u64 = if start < post_frames { start } else { post_frames };
            &&& dirty_seeds_spec(EditOp::Cut { start, len }, landing, post_frames).contains((j, j))
            &&& dirty_seeds_spec(EditOp::Remove { start, len }, landing, post_frames).contains((j, j))
        }),
        dirty_seeds_spec(EditOp::Remove { start, len }, landing, post_frames)
            == dirty_seeds_spec(EditOp::Cut { start, len }, landing, post_frames),
{
    let j: u64 = if start < post_frames { start } else { post_frames };
    let cut = dirty_seeds_spec(EditOp::Cut { start, len }, landing, post_frames);
    let rem = dirty_seeds_spec(EditOp::Remove { start, len }, landing, post_frames);
    assert(cut[0] == (j, j));
    assert(rem[0] == (j, j));
    assert(cut =~= rem);
}

/// Dirty seeds (pre-radius) for a sample-changing edit on the post-op timeline.
///
/// May include zero-length join points; callers must expand by radius before
/// merging so those joins survive. For [`EditOp::Roll`] the seeds are the
/// landing ranges of the rolled boundary, passed as `roll_landing`.
pub fn analysis_dirty_seeds(op: &EditOp, roll_landing: &[FrameRange], post_frames: u64) -> (out: Vec<FrameRange>)
    ensures
        out@ == dirty_seeds_spec(*op, roll_landing@, post_frames),
{
    let mut seeds: Vec<FrameRange> = Vec::new();
    match *op {
        EditOp::Init => {},
        EditOp::Copy { .. } => {},
        EditOp::Delete { start, len } => {
            if len > 0 {
                seeds.push((start, start.saturating_add(len)));
            }
        },
        EditOp::Cut { start, .. } => {
            seeds.push((start, start));
        },
        EditOp::Remove { start, .. } => {
            seeds.push((start, start));
        },
        EditOp::Paste { at, len } => {
            if len > 0 {
                seeds.push((at, at.saturating_add(len)));
            }
        },
        EditOp::Duplicate { start, len } => {
            if len > 0 {
                let insert_at = start.saturating_add(len);
                seeds.push((insert_at, insert_at.saturating_add(len)));
            }
        },
        EditOp::Trim { len, .. } => {
            if len > 0 {
                seeds.push((0, 0));
                seeds.push((len, len));
            }
        },
        EditOp::Move { from, len, dest } => {
            if len > 0 {
                let insert_at = if dest > from { dest.saturating_sub(len) } else { dest };
                let join = if from < insert_at { from } else { insert_at };
                seeds.push((join, join));
                seeds.push((insert_at, insert_at.saturating_add(len)));
            }
        },
        EditOp::Roll { .. } => {
            let mut i: usize = 0;
            while i < roll_landing.len()
                invariant
                    i <= roll_landing.len(),
                    seeds@ =~= roll_landing@.subrange(0, i as int),
                decreases roll_landing.len() - i,
            {
                seeds.push(roll_landing[i]);
                i = i + 1;
            }
            proof {
                assert(roll_landing@.subrange(0, roll_landing.len() as int) =~= roll_landing@);
            }
        },
    }
    proof {
        assert(seeds@ =~= raw_dirty_seeds(*op, roll_landing@));
    }
    let mut out: Vec<FrameRange> = Vec::new();
    let mut i: usize = 0;
    while i < seeds.len()
        invariant
            i <= seeds.len(),
            seeds@ == raw_dirty_seeds(*op, roll_landing@),
            out@ =~= dirty_seeds_spec(*op, roll_landing@, post_frames).subrange(0, i as int),
        decreases seeds.len() - i,
    {
        let (start, end) = seeds[i];
        let s = if start < post_frames { start } else { post_frames };
        let e = if end < post_frames { end } else { post_frames };
        out.push((s, e));
        i = i + 1;
    }
    proof {
        assert(dirty_seeds_spec(*op, roll_landing@, post_frames).subrange(0, seeds.len() as int) =~= dirty_seeds_spec(*op, roll_landing@, post_frames));
    }
    out
}

pub proof fn lemma_covers_concat(a: Seq<FrameRange>, b: Seq<FrameRange>, x: int)
    ensures
        covers(a + b, x) <==> (covers(a, x) || covers(b, x)),
{
    let c = a + b;
    if covers(a, x) {
        let i = choose|i: int| 0 <= i < a.len() && #[trigger] in_range(a[i], x);
        assert(c[i] == a[i]);
    }
    if covers(b, x) {
        let i = choose|i: int| 0 <= i < b.len() && #[trigger] in_range(b[i], x);
        assert(c[a.len() + i] == b[i]);
    }
    if covers(c, x) {
        let i = choose|i: int| 0 <= i < c.len() && #[trigger] in_range(c[i], x);
        if i < a.len() {
            assert(c[i] == a[i]);
        } else {
            assert(c[i] == b[i - a.len()]);
        }
    }
}

proof fn lemma_canonical_tail(a: Seq<FrameRange>, frames: u64, x: int)
    requires
        is_canonical(a, frames),
        a.len() > 0,
    ensures
        is_canonical(a.drop_first(), frames),
        covers(a.drop_first(), x) <==> (covers(a, x) && !in_range(a[0], x)),
{
    let t = a.drop_first();
    assert forall|i: int, j: int| #![trigger t[i], t[j]] 0 <= i < j < t.len() implies t[i].1 < t[j].0 by {
        assert(a[i + 1].1 < a[j + 1].0);
    }
    if covers(t, x) {
        let i = choose|i: int| 0 <= i < t.len() && #[trigger] in_range(t[i], x);
        assert(a[i + 1] == t[i]);
        assert(in_range(a[i + 1], x));
        assert(a[0].1 < a[i + 1].0);
    }
    if covers(a, x) && !in_range(a[0], x) {
        let i = choose|i: int| 0 <= i < a.len() && #[trigger] in_range(a[i], x);
        assert(i != 0);
        assert(t[i - 1] == a[i]);
        assert(in_range(t[i - 1], x));
    }
}

/// A canonical list is determined by the frames it holds: two canonical
/// lists holding the same frames are equal. Hence a merge has exactly one
/// possible result.
pub proof fn lemma_canonical_unique(a: Seq<FrameRange>, b: Seq<FrameRange>, frames: u64)
    requires
        is_canonical(a, frames),
        is_canonical(b, frames),
        forall|x: int| #![trigger covers(a, x)] #![trigger covers(b, x)] covers(a, x) <==> covers(b, x),
    ensures
        a == b,
    decreases a.len() + b.len(),
{
    if a.len() == 0 && b.len() == 0 {
        assert(a =~= b);
        return;
    }
    if a.len() == 0 {
        assert(in_range(b[0], b[0].0 as int));
        assert(covers(b, b[0].0 as int));
        assert(covers(a, b[0].0 as int));
        assert(false);
        return;
    }
    if b.len() == 0 {
        assert(in_range(a[0], a[0].0 as int));
        assert(covers(a, a[0].0 as int));
        assert(covers(b, a[0].0 as int));
        assert(false);
        return;
    }
    // Same first start.
    if a[0].0 < b[0].0 {
        let x = a[0].0 as int;
        assert(in_range(a[0], x));
        assert(covers(a, x));
        let j = choose|j: int| 0 <= j < b.len() && #[trigger] in_range(b[j], x);
        if j > 0 {
            assert(b[0].1 < b[j].0);
        }
        assert(false);
    }
    if b[0].0 < a[0].0 {
        let x = b[0].0 as int;
        assert(in_range(b[0], x));
        assert(covers(b, x));
        let j = choose|j: int| 0 <= j < a.len() && #[trigger] in_range(a[j], x);
        if j > 0 {
            assert(a[0].1 < a[j].0);
        }
        assert(false);
    }
    // Same first end.
    if a[0].1 < b[0].1 {
        let x = a[0].1 as int;
        assert(in_range(b[0], x));
        assert(covers(b, x));
        let j = choose|j: int| 0 <= j < a.len() && #[trigger] in_range(a[j], x);
        if j > 0 {
            assert(a[0].1 < a[j].0);
        }
        assert(false);
    }
    if b[0].1 < a[0].1 {
        let x = b[0].1 as int;
        assert(in_range(a[0], x));
        assert(covers(a, x));
        let j = choose|j: int| 0 <= j < b.len() && #[trigger] in_range(b[j], x);
        if j > 0 {
            assert(b[0].1 < b[j].0);
        }
        assert(false);
    }
    assert(a[0] == b[0]);
    assert forall|x: int| #![trigger covers(a.drop_first(), x)] #![trigger covers(b.drop_first(), x)] covers(a.drop_first(), x) <==> covers(b.drop_first(), x) by {
        lemma_canonical_tail(a, frames, x);
        lemma_canonical_tail(b, frames, x);
    }
    lemma_canonical_tail(a, frames, 0);
    lemma_canonical_tail(b, frames, 0);
    lemma_canonical_unique(a.drop_first(), b.drop_first(), frames);
    assert(a =~= seq![a[0]] + a.drop_first());
    assert(b =~= seq![b[0]] + b.drop_first());
}

/// Merging is idempotent: merging a merge result again gives it back.
pub proof fn lemma_merge_idempotent(input: Seq<FrameRange>, once: Seq<FrameRange>, twice: Seq<FrameRange>, frames: u64)
    requires
        is_merge_of(once, input, frames),
        is_merge_of(twice, once, frames),
    ensures
        twice == once,
{
    assert forall|x: int| #[trigger] covers(twice, x) <==> covers(once, x) by {
        if covers(once, x) {
            let i = choose|i: int| 0 <= i < once.len() && #[trigger] in_range(once[i], x);
            assert(once[i].1 <= frames);
        }
    }
    lemma_canonical_unique(twice, once, frames);
}

/// Subtracting a done span removes exactly the frames of the span.
pub proof fn lemma_subtract_covers(dirty: Seq<FrameRange>, done_start: u64, done_end: u64, x: int)
    requires
        done_start < done_end,
    ensures
        covers(subtract_all(dirty, done_start, done_end), x) <==> (covers(dirty, x) && !(done_start <= x < done_end)),
    decreases dirty.len(),
{
    if dirty.len() == 0 {
        return;
    }
    let init = dirty.drop_last();
    let r = dirty.last();
    lemma_subtract_covers(init, done_start, done_end, x);
    lemma_covers_concat(subtract_all(init, done_start, done_end), subtract_pieces(r, done_start, done_end), x);
    assert(dirty =~= init.push(r));
    lemma_covers_push(init, r, x);
    let p = subtract_pieces(r, done_start, done_end);
    if r.1 <= done_start || r.0 >= done_end {
        if r.0 < r.1 {
            lemma_covers_push(Seq::empty(), r, x);
            assert(p =~= Seq::<FrameRange>::empty().push(r));
        }
    } else {
        let left: Seq<FrameRange> = if r.0 < done_start { seq![(r.0, done_start)] } else { Seq::empty() };
        let right: Seq<FrameRange> = if r.1 > done_end { seq![(done_end, r.1)] } else { Seq::empty() };
        lemma_covers_concat(left, right, x);
        if r.0 < done_start {
            lemma_covers_push(Seq::empty(), (r.0, done_start), x);
            assert(left =~= Seq::<FrameRange>::empty().push((r.0, done_start)));
        }
        if r.1 > done_end {
            lemma_covers_push(Seq::empty(), (done_end, r.1), x);
            assert(right =~= Seq::<FrameRange>::empty().push((done_end, r.1)));
        }
    }
}

/// Padding never drops a frame: every frame of a seed below `frames`, and
/// the start frame of every zero-length join seed below `frames`, is in the
/// expanded result.
pub proof fn lemma_expand_keeps_seeds(ranges: Seq<FrameRange>, radius: u64, frames: u64, out: Seq<FrameRange>, i: int, x: int)
    requires
        is_merge_of(out, expand_all(ranges, radius, frames), frames),
        0 <= i < ranges.len(),
        x < frames,
        in_range(ranges[i], x) || (ranges[i].0 >= ranges[i].1 && x == ranges[i].0),
    ensures
        covers(out, x),
{
    let e = expand_all(ranges, radius, frames);
    assert(e[i] == expand_one(ranges[i], radius, frames));
    assert(in_range(e[i], x));
    assert(covers(e, x));
}

/// Hop alignment only widens: every input frame below `frames` stays covered.
pub proof fn lemma_hop_align_keeps_frames(ranges: Seq<FrameRange>, hop: u64, frames: u64, out: Seq<FrameRange>, i: int, x: int)
    requires
        hop > 0,
        forall|k: int| 0 <= k < ranges.len() ==> #[trigger] ranges[k].1 + hop - 1 <= u64::MAX,
        is_merge_of(out, align_all(ranges, hop), frames),
        0 <= i < ranges.len(),
        x < frames,
        in_range(ranges[i], x),
    ensures
        covers(out, x),
{
    let a = align_all(ranges, hop);
    let r = ranges[i];
    assert(a[i] == align_one(r, hop));
    let s = r.0 as int;
    let e = r.1 as int;
    let h = hop as int;
    assert((s / h) * h <= s) by (nonlinear_arith)
        requires h > 0, s >= 0;
    assert(((e + h - 1) / h) * h >= e) by (nonlinear_arith)
        requires h > 0, e >= 0;
    assert(((e + h - 1) / h) * h <= e + h - 1) by (nonlinear_arith)
        requires h > 0, e >= 0;
    assert((s / h) * h >= 0) by (nonlinear_arith)
        requires h > 0, s >= 0;
    assert(in_range(a[i], x));
    assert(covers(a, x));
}

/// A chunk handed out by [`next_chunk_in_ranges`] lies inside one range,
/// starts at or after the read position and spans at most `max_frames`.
pub proof fn lemma_next_chunk_in_range(ranges: Seq<FrameRange>, read_pos: u64, max_frames: u64)
    requires
        next_chunk_spec(ranges, read_pos, max_frames) is Some,
    ensures
        ({
            let (start, chunk_end, pos) = next_chunk_spec(ranges, read_pos, max_frames)->0;
            &&& exists|i: int| 0 <= i < ranges.len() && #[trigger] ranges[i].0 == start && pos < chunk_end <= ranges[i].1 && start <= pos
            &&& read_pos <= pos
            &&& chunk_end - pos <= max_frames
        }),
    decreases ranges.len(),
{
    let (start, end) = ranges[0];
    if read_pos >= start && read_pos >= end {
        lemma_next_chunk_in_range(ranges.drop_first(), read_pos, max_frames);
        let (s, c, p) = next_chunk_spec(ranges, read_pos, max_frames)->0;
        let i = choose|i: int| 0 <= i < ranges.drop_first().len() && #[trigger] ranges.drop_first()[i].0 == s && p < c <= ranges.drop_first()[i].1 && s <= p;
        assert(ranges[i + 1] == ranges.drop_first()[i]);
    } else {
        let pos: u64 = if read_pos < start { start } else { read_pos };
        let sum = pos.saturating_add(max_frames);
        let chunk_end: u64 = if sum < end { sum } else { end };
        if chunk_end > pos {
            assert(ranges[0].0 == start);
        } else {
            lemma_next_chunk_in_range(ranges.drop_first(), read_pos, max_frames);
            let (s, c, p) = next_chunk_spec(ranges, read_pos, max_frames)->0;
            let i = choose|i: int| 0 <= i < ranges.drop_first().len() && #[trigger] ranges.drop_first()[i].0 == s && p < c <= ranges.drop_first()[i].1 && s <= p;
            assert(ranges[i + 1] == ranges.drop_first()[i]);
        }
    }
}

} // verus!
