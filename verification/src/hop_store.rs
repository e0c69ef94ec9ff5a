//! Hop-binned analysis buffers: copying runs of hops between buffers, blanking
//! the hops of dirty ranges, and splicing a buffer through a timeline edit.
//!
//! A buffer holds `stride` values per hop, hop after hop. The element type is
//! left open: the composition stores `f32` envelope and spectrogram bins.
use vstd::prelude::*;

use crate::edl::EditOp;
use crate::frame_ranges::{
    align_all, covers, expand_all, expand_frame_ranges, hop_align_frame_ranges, hop_bin, hop_bin_spec, hop_count_spec,
    hops_for_frames, is_merge_of, merge_frame_ranges, subtract_all, subtract_frame_range, FrameRange,
};

verus! {

/// The smaller of two integers.
pub open spec fn min_int(a: int, b: int) -> int {
    if a < b { a } else { b }
}

/// Elements moved by a copy of `n` elements from `src_base` to `dest_base`,
/// cut short at the end of either buffer.
pub open spec fn copy_len(dest_len: int, dest_base: int, src_len: int, src_base: int, n: int) -> int {
    let k = min_int(n, min_int(dest_len - dest_base, src_len - src_base));
    if k < 0 { 0 } else { k }
}

/// `dest` with `hop_count` hops of `src` starting at hop `src_hop` written at
/// hop `dest_hop`, as far as both buffers reach.
pub open spec fn copy_hops_spec<T>(dest: Seq<T>, dest_hop: int, src: Seq<T>, src_hop: int, hop_count: int, stride: int) -> Seq<T> {
    let db = dest_hop * stride;
    let sb = src_hop * stride;
    let k = copy_len(dest.len() as int, db, src.len() as int, sb, hop_count * stride);
    Seq::new(dest.len(), |i: int| if db <= i < db + k { src[sb + (i - db)] } else { dest[i] })
}

/// `dest` followed by `hop_count` hops of `src` from hop `src_hop`, as far as
/// `src` reaches.
pub open spec fn append_hops_spec<T>(dest: Seq<T>, src: Seq<T>, src_hop: int, hop_count: int, stride: int) -> Seq<T> {
    let sb = src_hop * stride;
    let k = copy_len(src.len() - sb, 0, src.len() as int, sb, hop_count * stride);
    dest + Seq::new(k as nat, |i: int| src[sb + i])
}

/// `a * b`, or `usize::MAX` when the product does not fit.
fn saturating_mul(a: usize, b: usize) -> (out: usize)
    ensures
        a * b <= usize::MAX ==> out == a * b,
        a * b > usize::MAX ==> out == usize::MAX,
{
    match a.checked_mul(b) {
        Some(p) => p,
        None => usize::MAX,
    }
}

fn min_usize(a: usize, b: usize) -> (out: usize)
    ensures
        out == min_int(a as int, b as int),
{
    if a < b { a } else { b }
}

/// Copy `hop_count` hops of `src` from hop `src_hop` into `dest` at hop
/// `dest_hop`, stopping at the end of either buffer.
fn copy_hops_into<T: Copy>(dest: &mut Vec<T>, dest_hop: usize, src: &[T], src_hop: usize, hop_count: usize, stride: usize)
    ensures
        final(dest)@ == copy_hops_spec(old(dest)@, dest_hop as int, src@, src_hop as int, hop_count as int, stride as int),
{
    let ghost d0 = dest@;
    let ghost spec = copy_hops_spec(d0, dest_hop as int, src@, src_hop as int, hop_count as int, stride as int);
    if hop_count == 0 || stride == 0 {
        proof {
            assert(hop_count * stride == 0) by (nonlinear_arith)
                requires hop_count == 0 || stride == 0;
            assert(spec =~= d0);
        }
        return;
    }
    let db = saturating_mul(dest_hop, stride);
    let sb = saturating_mul(src_hop, stride);
    let n = saturating_mul(hop_count, stride);
    let dl = if dest.len() > db { dest.len() - db } else { 0 };
    let sl = if src.len() > sb { src.len() - sb } else { 0 };
    let k = min_usize(n, min_usize(dl, sl));
    proof {
        assert(k == copy_len(d0.len() as int, dest_hop * stride, src@.len() as int, src_hop * stride, hop_count * stride));
        if k > 0 {
            assert(db == dest_hop * stride);
            assert(sb == src_hop * stride);
        }
    }
    let mut j: usize = 0;
    while j < k
        invariant
            j <= k,
            k > 0 ==> db + k <= d0.len() && sb + k <= src@.len(),
            dest@.len() == d0.len(),
            d0.len() <= usize::MAX,
            src@.len() <= usize::MAX,
            forall|i: int| 0 <= i < d0.len() ==> #[trigger] dest@[i] == (if db <= i < db + j { src@[sb + (i - db)] } else { d0[i] }),
        decreases k - j,
    {
        dest.set(db + j, src[sb + j]);
        j = j + 1;
    }
    proof {
        assert(dest@ =~= spec);
    }
}

/// Append `hop_count` hops of `src` from hop `src_hop` to `dest`, as far as
/// `src` reaches.
fn append_hops<T: Copy>(dest: &mut Vec<T>, src: &[T], src_hop: usize, hop_count: usize, stride: usize)
    ensures
        final(dest)@ == append_hops_spec(old(dest)@, src@, src_hop as int, hop_count as int, stride as int),
{
    let ghost d0 = dest@;
    let ghost spec = append_hops_spec(d0, src@, src_hop as int, hop_count as int, stride as int);
    if hop_count == 0 || stride == 0 {
        proof {
            assert(hop_count * stride == 0) by (nonlinear_arith)
                requires hop_count == 0 || stride == 0;
            assert(spec =~= d0 + Seq::<T>::empty());
            assert(spec =~= d0);
        }
        return;
    }
    let sb = saturating_mul(src_hop, stride);
    proof {
        assert(d0 + Seq::new(0, |i: int| src@[sb + i]) =~= d0);
    }
    let sl = if src.len() > sb { src.len() - sb } else { 0 };
    let k = min_usize(saturating_mul(hop_count, stride), sl);
    proof {
        assert(k == copy_len(src@.len() - src_hop * stride, 0, src@.len() as int, src_hop * stride, hop_count * stride));
        if k > 0 {
            assert(sb == src_hop * stride);
        }
    }
    let mut j: usize = 0;
    while j < k
        invariant
            j <= k,
            k > 0 ==> sb + k <= src@.len(),
            src@.len() <= usize::MAX,
            dest@ == d0 + Seq::new(j as nat, |i: int| src@[sb + i]),
        decreases k - j,
    {
        dest.push(src[sb + j]);
        proof {
            assert(d0 + Seq::new((j + 1) as nat, |i: int| src@[sb + i])
                =~= (d0 + Seq::new(j as nat, |i: int| src@[sb + i])).push(src@[sb + j]));
        }
        j = j + 1;
    }
    proof {
        if k > 0 {
            assert(dest@ =~= spec);
        } else {
            assert(dest@ =~= spec);
        }
    }
}

/// Hops in a buffer of `len` values at `stride` values per hop.
pub open spec fn hops_in(len: int, stride: int) -> int {
    if stride == 0 { 0 } else { len / stride }
}

/// Hop of `frame`, clamped to the `old_hops` hops a buffer has.
pub open spec fn bin_within(frame: u64, hop: usize, old_hops: int) -> int {
    min_int(hop_bin_spec(frame, hop), old_hops)
}

/// The first `at_hop` hops of `src`, then `insert_hops` hops left as in
/// `base`, then the rest of `src`'s `src_hops` hops.
pub open spec fn open_gap_spec<T>(base: Seq<T>, src: Seq<T>, at_hop: int, insert_hops: int, src_hops: int, stride: int) -> Seq<T> {
    copy_hops_spec(copy_hops_spec(base, 0, src, 0, at_hop, stride), at_hop + insert_hops, src, at_hop, src_hops - at_hop, stride)
}

/// Splicing through a paste keeps the hops before the paste point, leaves
/// the pasted hops blank, and shifts the hops after it by the pasted length.
pub proof fn lemma_paste_opens_gap<T>(data: Seq<T>, hop: usize, stride: usize, at: u64, len: u64, post_frames: u64, empty: T)
    requires
        stride > 0,
    ensures
        ({
            let out = splice_spec(data, hop, stride, EditOp::Paste { at, len }, post_frames, empty);
            let old_hops = hops_in(data.len() as int, stride as int);
            let at_hop = bin_within(at, hop, old_hops);
            let gap = hop_count_spec(len, hop) * stride;
            let st = stride as int;
            &&& forall|i: int| 0 <= i < at_hop * st && i < out.len() ==> #[trigger] out[i] == data[i]
            &&& forall|i: int| at_hop * st <= i < at_hop * st + gap && i < out.len() ==> #[trigger] out[i] == empty
            &&& forall|i: int| at_hop * st + gap <= i < out.len() && i - gap < old_hops * st ==> #[trigger] out[i] == data[i - gap]
        }),
{
    let st = stride as int;
    let old_hops = hops_in(data.len() as int, st);
    let at_hop = bin_within(at, hop, old_hops);
    let ins = hop_count_spec(len, hop);
    let gap = ins * st;
    let new_hops = hop_count_spec(post_frames, hop);
    let base = blank(new_hops * stride, empty);
    let d = data.len() as int;
    assert(old_hops == d / st);
    assert(at_hop <= old_hops);
    assert(at_hop >= 0) by {
        if hop > 0 {
            assert(hop_bin_spec(at, hop) >= 0);
        }
    }
    assert(ins >= 0) by {
        if hop > 0 && len > 0 {
            assert(((len as usize) + hop - 1) / (hop as int) >= 0) by (nonlinear_arith)
                requires hop > 0;
        }
    }
    assert(old_hops * st <= d) by (nonlinear_arith)
        requires old_hops == d / st, st > 0, d >= 0;
    assert(at_hop * st <= old_hops * st) by (nonlinear_arith)
        requires at_hop <= old_hops, st > 0;
    assert(at_hop * st >= 0) by (nonlinear_arith)
        requires at_hop >= 0, st > 0;
    assert(gap >= 0) by (nonlinear_arith)
        requires ins >= 0, st > 0, gap == ins * st;
    assert((at_hop + ins) * st == at_hop * st + gap) by (nonlinear_arith)
        requires gap == ins * st;
    assert((old_hops - at_hop) * st == old_hops * st - at_hop * st) by (nonlinear_arith);
    let first = copy_hops_spec(base, 0, data, 0, at_hop, st);
    let out = copy_hops_spec(first, at_hop + ins, data, at_hop, old_hops - at_hop, st);
    assert(0 * st == 0);
    assert(out == splice_spec(data, hop, stride, EditOp::Paste { at, len }, post_frames, empty));
}

/// A buffer of `n` values, all `empty`.
pub open spec fn blank<T>(n: int, empty: T) -> Seq<T> {
    Seq::new(n as nat, |i: int| empty)
}

/// The hop buffer of a timeline after `op`: hops outside the edit keep their
/// values and follow the frames they belong to; hops of new material are
/// `empty`; the length is that of `post_frames` frames.
pub open spec fn splice_spec<T>(data: Seq<T>, hop: usize, stride: usize, op: EditOp, post_frames: u64, empty: T) -> Seq<T> {
    let old_hops = hops_in(data.len() as int, stride as int);
    let new_hops = hop_count_spec(post_frames, hop);
    let base = blank(new_hops * stride, empty);
    let st = stride as int;
    match op {
        EditOp::Cut { start, len } => {
            let left = bin_within(start, hop, old_hops);
            let right = bin_within(start.saturating_add(len), hop, old_hops);
            copy_hops_spec(copy_hops_spec(base, 0, data, 0, left, st), left, data, right, old_hops - right, st)
        },
        EditOp::Remove { start, len } => {
            let left = bin_within(start, hop, old_hops);
            let right = bin_within(start.saturating_add(len), hop, old_hops);
            copy_hops_spec(copy_hops_spec(base, 0, data, 0, left, st), left, data, right, old_hops - right, st)
        },
        EditOp::Paste { at, len } => open_gap_spec(base, data, bin_within(at, hop, old_hops), hop_count_spec(len, hop), old_hops, st),
        EditOp::Duplicate { start, len } => open_gap_spec(
            base,
            data,
            bin_within(start.saturating_add(len), hop, old_hops),
            hop_count_spec(len, hop),
            old_hops,
            st,
        ),
        EditOp::Trim { start, len } => {
            let left = bin_within(start, hop, old_hops);
            let right = bin_within(start.saturating_add(len), hop, old_hops);
            copy_hops_spec(base, 0, data, left, min_int(right - left, new_hops), st)
        },
        EditOp::Move { from, len, dest } => {
            let from_h = bin_within(from, hop, old_hops);
            let from_end = bin_within(from.saturating_add(len), hop, old_hops);
            let temp = append_hops_spec(append_hops_spec(Seq::empty(), data, 0, from_h, st), data, from_end, old_hops - from_end, st);
            let temp_hops = hops_in(temp.len() as int, st);
            let insert_at = if dest > from { dest.saturating_sub(len) } else { dest };
            open_gap_spec(base, temp, bin_within(insert_at, hop, temp_hops), hop_count_spec(len, hop), temp_hops, st)
        },
        _ => copy_hops_spec(base, 0, data, 0, min_int(old_hops, new_hops), st),
    }
}

/// Hop counts of the edit's lengths fit in `usize`.
pub open spec fn op_hops_fit(op: EditOp, hop: usize) -> bool {
    let fits = |len: u64| hop == 0 || len == 0 || (len as usize) + hop - 1 <= usize::MAX;
    match op {
        EditOp::Paste { len, .. } => fits(len),
        EditOp::Duplicate { len, .. } => fits(len),
        EditOp::Move { len, .. } => fits(len),
        _ => true,
    }
}

/// A copy that starts at or past the end of `dest` changes nothing.
proof fn lemma_copy_past_end<T>(dest: Seq<T>, dest_hop: int, src: Seq<T>, src_hop: int, hop_count: int, stride: int)
    requires
        stride > 0,
        dest_hop * stride >= dest.len(),
    ensures
        copy_hops_spec(dest, dest_hop, src, src_hop, hop_count, stride) == dest,
{
    assert(copy_hops_spec(dest, dest_hop, src, src_hop, hop_count, stride) =~= dest);
}

pub(crate) fn blank_buffer<T: Copy>(n: usize, empty: T) -> (out: Vec<T>)
    ensures
        out@ == blank(n as int, empty),
{
    let mut out = Vec::new();
    let mut i: usize = 0;
    while i < n
        invariant
            i <= n,
            out@ == blank(i as int, empty),
        decreases n - i,
    {
        out.push(empty);
        proof {
            assert(blank(i + 1, empty) =~= blank(i as int, empty).push(empty));
        }
        i = i + 1;
    }
    out
}

/// `dest` with the first `at_hop` hops of `src`, `insert_hops` hops left as
/// they are, then the rest of `src`'s `src_hops` hops.
fn open_gap<T: Copy>(dest: &mut Vec<T>, src: &[T], at_hop: usize, insert_hops: usize, src_hops: usize, stride: usize)
    requires
        at_hop <= src_hops,
    ensures
        final(dest)@ == open_gap_spec(old(dest)@, src@, at_hop as int, insert_hops as int, src_hops as int, stride as int),
{
    let ghost d0 = dest@;
    copy_hops_into(dest, 0, src, 0, at_hop, stride);
    let ghost d1 = dest@;
    let d1_len = dest.len();
    proof {
        assert(d1.len() == d1_len);
    }
    let gap_end = at_hop.saturating_add(insert_hops);
    copy_hops_into(dest, gap_end, src, at_hop, src_hops - at_hop, stride);
    proof {
        if at_hop + insert_hops > usize::MAX && stride > 0 {
            assert(gap_end * stride >= d1.len()) by (nonlinear_arith)
                requires gap_end == usize::MAX, stride >= 1, d1.len() <= usize::MAX;
            assert((at_hop + insert_hops) * stride >= d1.len()) by (nonlinear_arith)
                requires at_hop + insert_hops > usize::MAX, stride >= 1, d1.len() <= usize::MAX;
            lemma_copy_past_end(d1, gap_end as int, src@, at_hop as int, (src_hops - at_hop) as int, stride as int);
            lemma_copy_past_end(d1, at_hop + insert_hops, src@, at_hop as int, (src_hops - at_hop) as int, stride as int);
        }
        if stride == 0 {
            let n = (src_hops - at_hop) as int;
            let g = gap_end as int;
            let h = at_hop + insert_hops;
            let a = at_hop as int;
            assert(g * 0 == 0 && h * 0 == 0 && a * 0 == 0 && n * 0 == 0) by (nonlinear_arith);
            assert(copy_hops_spec(d1, gap_end as int, src@, at_hop as int, n, 0) =~= d1);
            assert(copy_hops_spec(d1, at_hop + insert_hops, src@, at_hop as int, n, 0) =~= d1);
        }
    }
}

/// Splice a packed buffer of `stride` values per hop through an edit: the
/// result covers `post_frames` frames, keeps the hops of untouched material
/// where that material now lies, and leaves the hops of new material `empty`.
#[verifier::spinoff_prover]
#[verifier::rlimit(40)]
pub fn splice_packed_channel<T: Copy>(
    data: &[T],
    hop: usize,
    stride: usize,
    op: &EditOp,
    post_frames: u64,
    empty: T,
) -> (out: Vec<T>)
    requires
        hop == 0 || post_frames == 0 || (post_frames as usize) + hop - 1 <= usize::MAX,
        op_hops_fit(*op, hop),
        hop_count_spec(post_frames, hop) * stride <= usize::MAX,
    ensures
        out@ == splice_spec(data@, hop, stride, *op, post_frames, empty),
{
    let old_hops = if stride == 0 { 0 } else { data.len() / stride };
    let new_hops = hops_for_frames(post_frames, hop);
    let mut out = blank_buffer(new_hops * stride, empty);
    match op {
        EditOp::Cut { start, len } | EditOp::Remove { start, len } => {
            let left = min_usize(hop_bin(*start, hop), old_hops);
            let right = min_usize(hop_bin(start.saturating_add(*len), hop), old_hops);
            copy_hops_into(&mut out, 0, data, 0, left, stride);
            copy_hops_into(&mut out, left, data, right, old_hops - right, stride);
        },
        EditOp::Paste { at, len } => {
            let at_hop = min_usize(hop_bin(*at, hop), old_hops);
            let insert_hops = hops_for_frames(*len, hop);
            open_gap(&mut out, data, at_hop, insert_hops, old_hops, stride);
        },
        EditOp::Duplicate { start, len } => {
            let at_hop = min_usize(hop_bin(start.saturating_add(*len), hop), old_hops);
            let insert_hops = hops_for_frames(*len, hop);
            open_gap(&mut out, data, at_hop, insert_hops, old_hops, stride);
        },
        EditOp::Trim { start, len } => {
            let left = min_usize(hop_bin(*start, hop), old_hops);
            let right = min_usize(hop_bin(start.saturating_add(*len), hop), old_hops);
            let keep = min_usize(right.saturating_sub(left), new_hops);
            copy_hops_into(&mut out, 0, data, left, keep, stride);
            proof {
                if right < left {
                    let m = min_int(right - left, new_hops as int);
                    assert(m * stride <= 0) by (nonlinear_arith)
                        requires m < 0, stride >= 0;
                    assert(keep * stride == 0) by (nonlinear_arith)
                        requires keep == 0;
                    assert(copy_hops_spec(blank(new_hops * stride, empty), 0, data@, left as int, keep as int, stride as int)
                        =~= copy_hops_spec(blank(new_hops * stride, empty), 0, data@, left as int, min_int(right - left, new_hops as int), stride as int));
                }
            }
        },
        EditOp::Move { from, len, dest } => {
            let from_h = min_usize(hop_bin(*from, hop), old_hops);
            let from_end = min_usize(hop_bin(from.saturating_add(*len), hop), old_hops);
            let mut temp: Vec<T> = Vec::new();
            append_hops(&mut temp, data, 0, from_h, stride);
            append_hops(&mut temp, data, from_end, old_hops - from_end, stride);
            let temp_hops = if stride == 0 { 0 } else { temp.len() / stride };
            let insert_at = if *dest > *from { dest.saturating_sub(*len) } else { *dest };
            let at_hop = min_usize(hop_bin(insert_at, hop), temp_hops);
            let insert_hops = hops_for_frames(*len, hop);
            open_gap(&mut out, temp.as_slice(), at_hop, insert_hops, temp_hops, stride);
        },
        _ => {
            copy_hops_into(&mut out, 0, data, 0, min_usize(old_hops, new_hops), stride);
        },
    }
    out
}

/// First hop of range `r`, clamped to `hop_count`.
pub open spec fn hop_lo(r: FrameRange, hop: usize, hop_count: int) -> int {
    min_int(((r.0 / (hop as u64)) as usize) as int, hop_count)
}

/// One past the last hop touched by range `r`, clamped to `hop_count`.
pub open spec fn hop_hi(r: FrameRange, hop: usize, hop_count: int) -> int {
    min_int((((r.1 + hop - 1) / (hop as int)) as usize) as int, hop_count)
}

/// Hop `h` is touched by one of `ranges`.
pub open spec fn hop_touched(ranges: Seq<FrameRange>, hop: usize, hop_count: int, h: int) -> bool {
    exists|j: int| 0 <= j < ranges.len() && hop_lo(#[trigger] ranges[j], hop, hop_count) <= h < hop_hi(ranges[j], hop, hop_count)
}

/// `data` with every value of a hop touched by `ranges` set to `empty`.
pub open spec fn fill_spec<T>(data: Seq<T>, hop: usize, stride: usize, ranges: Seq<FrameRange>, empty: T) -> Seq<T> {
    if hop == 0 || stride == 0 {
        data
    } else {
        let hop_count = (data.len() as int) / (stride as int);
        Seq::new(data.len(), |i: int| if hop_touched(ranges, hop, hop_count, i / (stride as int)) { empty } else { data[i] })
    }
}

/// Range ends can be rounded up to a hop boundary without overflow.
pub open spec fn ends_fit(ranges: Seq<FrameRange>, hop: usize) -> bool {
    forall|j: int| 0 <= j < ranges.len() ==> (#[trigger] ranges[j]).1 + hop <= u64::MAX + 1
}

proof fn lemma_hop_of(i: int, a: int, b: int, s: int)
    requires
        s > 0,
        i >= 0,
        a >= 0,
        b >= 0,
    ensures
        (a * s <= i && i < b * s) <==> (a <= i / s && i / s < b),
{
    vstd::arithmetic::div_mod::lemma_fundamental_div_mod(i, s);
    let q = i / s;
    let r = i % s;
    assert(0 <= r < s);
    assert(i == q * s + r) by (nonlinear_arith) requires i == s * q + r;
    if a <= q {
        assert(a * s <= q * s) by (nonlinear_arith) requires a <= q, s > 0;
    } else {
        assert(q * s + s <= a * s) by (nonlinear_arith) requires q + 1 <= a, s > 0;
    }
    if q < b {
        assert(q * s + s <= b * s) by (nonlinear_arith) requires q + 1 <= b, s > 0;
    } else {
        assert(b * s <= q * s) by (nonlinear_arith) requires b <= q, s > 0;
    }
}

/// Set every value of the hops touched by `ranges` to `empty`, in a buffer of
/// `stride` values per hop.
pub fn fill_packed_hops<T: Copy>(data: &mut Vec<T>, hop: usize, stride: usize, ranges: &[FrameRange], empty: T)
    requires
        ends_fit(ranges@, hop),
    ensures
        final(data)@ == fill_spec(old(data)@, hop, stride, ranges@, empty),
{
    let ghost d0 = data@;
    if hop == 0 || stride == 0 {
        return;
    }
    let hop_count = data.len() / stride;
    let ghost hc = hop_count as int;
    proof {
        assert(hop_count * stride <= data.len()) by (nonlinear_arith)
            requires hop_count == data.len() / stride, stride > 0;
    }
    let mut r: usize = 0;
    while r < ranges.len()
        invariant
            hop > 0,
            stride > 0,
            hop_count == (d0.len() as int) / (stride as int),
            hc == hop_count,
            hop_count * stride <= d0.len(),
            d0.len() <= usize::MAX,
            ends_fit(ranges@, hop),
            r <= ranges@.len(),
            data@ == Seq::new(d0.len(), |i: int|
                if hop_touched(ranges@.take(r as int), hop, hc, i / (stride as int)) { empty } else { d0[i] }),
        decreases ranges.len() - r,
    {
        let (start, end) = ranges[r];
        assert(end + hop <= u64::MAX + 1);
        let lo_raw = (start / (hop as u64)) as usize;
        let hi_raw = ((end + (hop as u64 - 1)) / (hop as u64)) as usize;
        let lo = min_usize(lo_raw, hop_count);
        let hi = min_usize(hi_raw, hop_count);
        proof {
            assert(start == ranges@[r as int].0 && end == ranges@[r as int].1);
            assert(lo == hop_lo(ranges@[r as int], hop, hc));
            assert(hi == hop_hi(ranges@[r as int], hop, hc));
        }
        let ghost before = data@;
        if lo < hi {
            proof {
                assert(lo * stride <= hi * stride) by (nonlinear_arith) requires lo < hi, stride > 0;
                assert(hi * stride <= hop_count * stride) by (nonlinear_arith) requires hi <= hop_count, stride > 0;
            }
            let first = lo * stride;
            let last = hi * stride;
            let mut i: usize = first;
            while i < last
                invariant
                    first <= i <= last,
                    last <= d0.len(),
                    data@.len() == d0.len(),
                    forall|x: int| 0 <= x < d0.len() ==> #[trigger] data@[x] == (if first <= x < i { empty } else { before[x] }),
                decreases last - i,
            {
                data.set(i, empty);
                i = i + 1;
            }
        }
        proof {
            let take0 = ranges@.take(r as int);
            let take1 = ranges@.take(r + 1);
            assert forall|x: int| 0 <= x < d0.len() implies #[trigger] data@[x] == (if hop_touched(take1, hop, hc, x / (stride as int)) { empty } else { d0[x] }) by {
                let h = x / (stride as int);
                lemma_hop_of(x, lo as int, hi as int, stride as int);
                if hop_touched(take0, hop, hc, h) {
                    let j = choose|j: int| 0 <= j < take0.len() && hop_lo(#[trigger] take0[j], hop, hc) <= h < hop_hi(take0[j], hop, hc);
                    assert(take1[j] == take0[j]);
                }
                if lo <= h < hi {
                    assert(take1[r as int] == ranges@[r as int]);
                }
                if hop_touched(take1, hop, hc, h) {
                    let j = choose|j: int| 0 <= j < take1.len() && hop_lo(#[trigger] take1[j], hop, hc) <= h < hop_hi(take1[j], hop, hc);
                    if j < r {
                        assert(take0[j] == take1[j]);
                    }
                }
            }
            assert(data@ =~= Seq::new(d0.len(), |i: int|
                if hop_touched(take1, hop, hc, i / (stride as int)) { empty } else { d0[i] }));
        }
        r = r + 1;
    }
    proof {
        assert(ranges@.take(ranges@.len() as int) =~= ranges@);
        assert(data@ =~= fill_spec(d0, hop, stride, ranges@, empty));
    }
}

/// [`fill_packed_hops`] for a buffer of one value per hop.
pub fn fill_float_hops<T: Copy>(data: &mut Vec<T>, hop: usize, ranges: &[FrameRange], empty: T)
    requires
        ends_fit(ranges@, hop),
    ensures
        final(data)@ == fill_spec(old(data)@, hop, 1, ranges@, empty),
{
    fill_packed_hops(data, hop, 1, ranges, empty);
}

/// `out` is the dirty list after marking `seeds`: the seeds padded by
/// `radius`, snapped outward to hop boundaries, and merged with the ranges
/// that were already dirty, all within `[0, frames)`.
pub open spec fn marked_dirty(old_dirty: Seq<FrameRange>, seeds: Seq<FrameRange>, radius: u64, hop: usize, frames: u64, out: Seq<FrameRange>) -> bool {
    exists|e: Seq<FrameRange>, a: Seq<FrameRange>| {
        &&& #[trigger] is_merge_of(e, expand_all(seeds, radius, frames), frames)
        &&& (hop == 0 ==> is_merge_of(a, e, frames))
        &&& (hop > 0 ==> is_merge_of(a, align_all(e, hop as u64), frames))
        &&& #[trigger] is_merge_of(out, old_dirty + a, frames)
    }
}

/// The dirty list after marking `seeds` (see [`marked_dirty`]); every range
/// of it ends at or before `frames`.
fn mark_ranges(dirty: &[FrameRange], seeds: &[FrameRange], radius: u64, hop: usize, frames: u64) -> (out: Vec<FrameRange>)
    requires
        hop == 0 || frames + hop <= u64::MAX + 1,
    ensures
        marked_dirty(dirty@, seeds@, radius, hop, frames, out@),
        forall|k: int| 0 <= k < out@.len() ==> (#[trigger] out@[k]).1 <= frames,
{
    let expanded = expand_frame_ranges(seeds, radius, frames);
    let aligned = hop_align_frame_ranges(expanded.as_slice(), hop, frames);
    let mut all: Vec<FrameRange> = Vec::new();
    let mut i: usize = 0;
    while i < dirty.len()
        invariant
            i <= dirty@.len(),
            all@ == dirty@.take(i as int),
        decreases dirty.len() - i,
    {
        all.push(dirty[i]);
        proof {
            assert(dirty@.take(i + 1) =~= dirty@.take(i as int).push(dirty@[i as int]));
        }
        i = i + 1;
    }
    let mut j: usize = 0;
    while j < aligned.len()
        invariant
            j <= aligned@.len(),
            all@ == dirty@ + aligned@.take(j as int),
        decreases aligned.len() - j,
    {
        all.push(aligned[j]);
        proof {
            assert(aligned@.take(j + 1) =~= aligned@.take(j as int).push(aligned@[j as int]));
            assert(dirty@ + aligned@.take(j + 1) =~= (dirty@ + aligned@.take(j as int)).push(aligned@[j as int]));
        }
        j = j + 1;
    }
    proof {
        assert(dirty@.take(dirty@.len() as int) =~= dirty@);
        assert(aligned@.take(aligned@.len() as int) =~= aligned@);
    }
    let merged = merge_frame_ranges(all, frames);
    proof {
        assert(is_merge_of(expanded@, expand_all(seeds@, radius, frames), frames));
        assert(is_merge_of(merged@, dirty@ + aligned@, frames));
        assert(marked_dirty(dirty@, seeds@, radius, hop, frames, merged@));
    }
    merged
}

/// `dest` with `src` written from index `base` on, as far as `dest` reaches.
pub open spec fn stored_spec<T>(dest: Seq<T>, base: int, src: Seq<T>) -> Seq<T> {
    Seq::new(dest.len(), |j: int| if base <= j < base + src.len() { src[j - base] } else { dest[j] })
}

/// Write `src` into `dest` from index `base` on; values past the end of
/// `dest` are dropped.
fn store_into<T: Copy>(dest: &mut Vec<T>, base: usize, src: &[T])
    requires
        base + src@.len() <= usize::MAX,
    ensures
        final(dest)@ == stored_spec(old(dest)@, base as int, src@),
{
    let ghost d0 = dest@;
    let mut i: usize = 0;
    while i < src.len()
        invariant
            i <= src@.len(),
            base + src@.len() <= usize::MAX,
            dest@.len() == d0.len(),
            forall|j: int| 0 <= j < d0.len() ==> #[trigger] dest@[j] == (if base <= j < base + i { src@[j - base] } else { d0[j] }),
        decreases src.len() - i,
    {
        let idx = base + i;
        if idx < dest.len() {
            dest.set(idx, src[i]);
        }
        i = i + 1;
    }
    proof {
        assert(dest@ =~= stored_spec(d0, base as int, src@));
    }
}

/// `dest` with the whole hops of `src` (`band` values each) written from hop
/// `base` on; a hop that does not fit entirely in `dest` is dropped.
pub open spec fn packed_stored_spec<T>(dest: Seq<T>, base: int, src: Seq<T>, band: int) -> Seq<T> {
    Seq::new(dest.len(), |j: int| {
        let h = j / band;
        if base <= h < base + (src.len() as int) / band && (h + 1) * band <= dest.len() {
            src[j - base * band]
        } else {
            dest[j]
        }
    })
}

/// Write the whole hops of `src` into `dest` from hop `base` on.
fn store_packed_into<T: Copy>(dest: &mut Vec<T>, base: usize, src: &[T], band: usize)
    requires
        band > 0,
        (base + (src@.len() as int) / (band as int)) * band <= usize::MAX,
    ensures
        final(dest)@ == packed_stored_spec(old(dest)@, base as int, src@, band as int),
{
    let ghost d0 = dest@;
    let dlen = dest.len();
    let emitted = src.len() / band;
    let ghost bi = band as int;
    proof {
        assert(d0.len() == dlen);
        assert(base + emitted <= (base + emitted) * band) by (nonlinear_arith)
            requires band > 0, base + emitted >= 0;
        assert(emitted * band <= src@.len()) by (nonlinear_arith)
            requires emitted == (src@.len() as int) / (band as int), band > 0;
    }
    let mut i: usize = 0;
    while i < emitted
        invariant
            band > 0,
            bi == band as int,
            i <= emitted,
            emitted == (src@.len() as int) / bi,
            emitted * band <= src@.len(),
            (base + emitted) * band <= usize::MAX,
            base + emitted <= usize::MAX,
            dest@.len() == d0.len(),
            d0.len() <= usize::MAX,
            src@.len() <= usize::MAX,
            forall|j: int| 0 <= j < d0.len() ==> #[trigger] dest@[j] == (if base <= j / bi < base + i && (j / bi + 1) * bi <= d0.len() {
                src@[j - base * bi]
            } else {
                d0[j]
            }),
        decreases emitted - i,
    {
        proof {
            assert((base + i) * band + band <= (base + emitted) * band) by (nonlinear_arith)
                requires i < emitted, band > 0;
            assert((i + 1) * band <= emitted * band) by (nonlinear_arith)
                requires i < emitted, band > 0;
            assert((base + i) * band == base * band + i * band) by (nonlinear_arith);
            assert((i + 1) * band == i * band + band) by (nonlinear_arith);
        }
        let dest_base = (base + i) * band;
        let src_base = i * band;
        if dest_base + band <= dest.len() {
            let ghost before = dest@;
            let mut b: usize = 0;
            while b < band
                invariant
                    b <= band,
                    dest_base + band <= dest@.len(),
                    src_base + band <= src@.len(),
                    dest@.len() == d0.len(),
                    d0.len() <= usize::MAX,
                    src@.len() <= usize::MAX,
                    forall|j: int| 0 <= j < d0.len() ==> #[trigger] dest@[j] == (if dest_base <= j < dest_base + b {
                        src@[src_base + (j - dest_base)]
                    } else {
                        before[j]
                    }),
                decreases band - b,
            {
                dest.set(dest_base + b, src[src_base + b]);
                b = b + 1;
            }
        }
        proof {
            assert forall|j: int| 0 <= j < d0.len() implies #[trigger] dest@[j] == (if base <= j / bi < base + i + 1 && (j / bi + 1) * bi <= d0.len() {
                src@[j - base * bi]
            } else {
                d0[j]
            }) by {
                lemma_hop_of(j, (base + i) as int, (base + i + 1) as int, bi);
                assert((base + i + 1) * band == (base + i) * band + band) by (nonlinear_arith);
                if j / bi == base + i {
                    assert(j - base * bi == src_base + (j - dest_base));
                }
            }
        }
        i = i + 1;
    }
    proof {
        assert(dest@ =~= packed_stored_spec(d0, base as int, src@, band as int));
    }
}

/// Hop of the first bin a block read at `read_pos` produces.
pub open spec fn base_hop(read_pos: u64, hop: usize) -> int {
    ((read_pos as usize) as int) / (hop as int)
}

/// Per-channel hop-binned analysis stream (envelope peaks and the like).
/// `T` is the bin value; dirty hops hold `blank` until rebuilt.
#[derive(Clone, Debug)]
pub struct FloatStreamSeries<T> {
    /// Hop size in frames used when the bins were produced.
    pub hop: usize,
    /// Frames covered (may exceed `bins * hop` by a partial last hop).
    pub covered_frames: u64,
    /// Per-channel bins.
    pub channels: Vec<Vec<T>>,
    /// Half-open frame ranges that still need a rebuild (hop-aligned).
    pub dirty_ranges: Vec<FrameRange>,
    /// Value of a bin that holds no data.
    pub blank: T,
}

impl<T: Copy> FloatStreamSeries<T> {
    /// Empty series for `channel_count` channels at `hop`.
    pub fn empty(channel_count: usize, hop: usize, blank: T) -> (out: Self)
        ensures
            out.hop == hop,
            out.covered_frames == 0,
            out.channels@.len() == channel_count,
            forall|c: int| 0 <= c < channel_count ==> (#[trigger] out.channels@[c])@.len() == 0,
            out.dirty_ranges@.len() == 0,
            out.blank == blank,
    {
        let mut channels: Vec<Vec<T>> = Vec::new();
        let mut i: usize = 0;
        while i < channel_count
            invariant
                i <= channel_count,
                channels@.len() == i,
                forall|c: int| 0 <= c < i ==> (#[trigger] channels@[c])@.len() == 0,
            decreases channel_count - i,
        {
            channels.push(Vec::new());
            i = i + 1;
        }
        FloatStreamSeries { hop, covered_frames: 0, channels, dirty_ranges: Vec::new(), blank }
    }

    /// The stream covers `frames` frames with no dirty holes.
    pub open spec fn covers_spec(&self, frames: u64) -> bool {
        &&& self.covered_frames >= frames
        &&& self.channels@.len() > 0
        &&& self.dirty_ranges@.len() == 0
        &&& forall|c: int| 0 <= c < self.channels@.len() ==> (#[trigger] self.channels@[c])@.len() > 0
    }

    /// Some channel holds bins to paint (holes allowed).
    pub open spec fn has_data_spec(&self) -> bool {
        exists|c: int| 0 <= c < self.channels@.len() && (#[trigger] self.channels@[c])@.len() > 0
    }

    /// Whether the stream covers `frames` with no dirty holes.
    pub fn covers(&self, frames: u64) -> (out: bool)
        ensures
            out == self.covers_spec(frames),
    {
        if self.covered_frames < frames || self.channels.len() == 0 || self.dirty_ranges.len() > 0 {
            return false;
        }
        let mut c: usize = 0;
        while c < self.channels.len()
            invariant
                c <= self.channels@.len(),
                forall|k: int| 0 <= k < c ==> (#[trigger] self.channels@[k])@.len() > 0,
            decreases self.channels.len() - c,
        {
            if self.channels[c].len() == 0 {
                return false;
            }
            c = c + 1;
        }
        true
    }

    /// Whether any hop bins are available to paint (holes allowed).
    pub fn has_data(&self) -> (out: bool)
        ensures
            out == self.has_data_spec(),
    {
        let mut c: usize = 0;
        while c < self.channels.len()
            invariant
                c <= self.channels@.len(),
                forall|k: int| 0 <= k < c ==> (#[trigger] self.channels@[k])@.len() == 0,
            decreases self.channels.len() - c,
        {
            if self.channels[c].len() > 0 {
                return true;
            }
            c = c + 1;
        }
        false
    }

    /// Hops that may be read for paint: those the covered frames reach.
    pub fn covered_hops(&self) -> (out: usize)
        requires
            self.hop == 0 || (self.covered_frames as usize) + self.hop - 1 <= usize::MAX,
        ensures
            self.hop == 0 ==> out == 0,
            self.hop > 0 ==> out == ((self.covered_frames as usize) + self.hop - 1) / (self.hop as int),
    {
        if self.hop == 0 {
            return 0;
        }
        #[verifier::truncate]
        let covered = self.covered_frames as usize;
        (covered + (self.hop - 1)) / self.hop
    }

    /// Whether `frame` lies in a dirty range.
    pub fn is_dirty_frame(&self, frame: u64) -> (out: bool)
        ensures
            out == covers(self.dirty_ranges@, frame as int),
    {
        let mut i: usize = 0;
        while i < self.dirty_ranges.len()
            invariant
                i <= self.dirty_ranges@.len(),
                forall|k: int| 0 <= k < i ==> !crate::frame_ranges::in_range(#[trigger] self.dirty_ranges@[k], frame as int),
            decreases self.dirty_ranges.len() - i,
        {
            let (start, end) = self.dirty_ranges[i];
            if frame >= start && frame < end {
                assert(crate::frame_ranges::in_range(self.dirty_ranges@[i as int], frame as int));
                return true;
            }
            i = i + 1;
        }
        false
    }

    /// Mark `seeds` dirty: pad by `radius`, snap to hops, merge with the
    /// current dirty ranges, and blank the bins of every dirty hop.
    pub fn mark_dirty(&mut self, seeds: &[FrameRange], radius: u64, frames: u64)
        requires
            old(self).hop == 0 || frames + old(self).hop <= u64::MAX + 1,
        ensures
            marked_dirty(old(self).dirty_ranges@, seeds@, radius, old(self).hop, frames, final(self).dirty_ranges@),
            final(self).hop == old(self).hop,
            final(self).blank == old(self).blank,
            final(self).channels@.len() == old(self).channels@.len(),
            forall|c: int| 0 <= c < old(self).channels@.len() ==> (#[trigger] final(self).channels@[c])@
                == fill_spec(old(self).channels@[c]@, old(self).hop, 1, final(self).dirty_ranges@, old(self).blank),
            final(self).covered_frames == (if old(self).covered_frames == 0 && old(self).channels@.len() > 0
                && old(self).channels@[0]@.len() > 0 { frames } else { old(self).covered_frames }),
    {
        self.dirty_ranges = mark_ranges(self.dirty_ranges.as_slice(), seeds, radius, self.hop, frames);
        let ghost old_channels = self.channels@;
        let ghost hop0 = self.hop;
        let ghost blank0 = self.blank;
        let ghost covered0 = self.covered_frames;
        let ghost dirty1 = self.dirty_ranges@;
        let mut c: usize = 0;
        while c < self.channels.len()
            invariant
                self.hop == hop0,
                self.blank == blank0,
                self.covered_frames == covered0,
                self.dirty_ranges@ == dirty1,
                c <= self.channels@.len(),
                self.channels@.len() == old_channels.len(),
                forall|k: int| 0 <= k < self.dirty_ranges@.len() ==> (#[trigger] self.dirty_ranges@[k]).1 <= frames,
                self.hop == 0 || frames + self.hop <= u64::MAX + 1,
                forall|k: int| 0 <= k < c ==> (#[trigger] self.channels@[k])@
                    == fill_spec(old_channels[k]@, self.hop, 1, self.dirty_ranges@, self.blank),
                forall|k: int| c <= k < old_channels.len() ==> #[trigger] self.channels@[k] == old_channels[k],
            decreases self.channels.len() - c,
        {
            let hop = self.hop;
            let blank = self.blank;
            fill_float_hops(&mut self.channels[c], hop, self.dirty_ranges.as_slice(), blank);
            c = c + 1;
        }
        if self.covered_frames == 0 && self.channels.len() > 0 && self.channels[0].len() > 0 {
            self.covered_frames = frames;
        }
    }

    /// Remove a completed write span `[start, end)` from the dirty ranges.
    pub fn clear_dirty_completed(&mut self, start: u64, end: u64)
        ensures
            start >= end ==> final(self).dirty_ranges@ == old(self).dirty_ranges@,
            start < end ==> final(self).dirty_ranges@ == subtract_all(old(self).dirty_ranges@, start, end),
            final(self).hop == old(self).hop,
            final(self).covered_frames == old(self).covered_frames,
            final(self).channels == old(self).channels,
            final(self).blank == old(self).blank,
    {
        self.dirty_ranges = subtract_frame_range(self.dirty_ranges.as_slice(), start, end);
    }

    /// Store the bins a block read at `read_pos` produced (`bins[c]` for
    /// channel `c`, starting at the block's hop) and count the block's frames
    /// as rebuilt, up to the end of its target range.
    pub fn store_block(&mut self, read_pos: u64, hop: usize, bins: &[Vec<T>], take: u64, range_end: u64, frames: u64)
        requires
            hop > 0,
            bins@.len() <= old(self).channels@.len(),
            read_pos + take <= u64::MAX,
            forall|c: int| 0 <= c < bins@.len() ==> base_hop(read_pos, hop) + (#[trigger] bins@[c])@.len() <= usize::MAX,
        ensures
            final(self).channels@.len() == old(self).channels@.len(),
            forall|c: int| 0 <= c < old(self).channels@.len() ==> (#[trigger] final(self).channels@[c])@ == (if c < bins@.len() {
                stored_spec(old(self).channels@[c]@, base_hop(read_pos, hop), bins@[c]@)
            } else {
                old(self).channels@[c]@
            }),
            ({
                let end: u64 = if read_pos + take < range_end { (read_pos + take) as u64 } else { range_end };
                &&& read_pos >= end ==> final(self).dirty_ranges@ == old(self).dirty_ranges@
                &&& read_pos < end ==> final(self).dirty_ranges@ == subtract_all(old(self).dirty_ranges@, read_pos, end)
            }),
            final(self).covered_frames == frames,
            final(self).hop == old(self).hop,
            final(self).blank == old(self).blank,
    {
        #[verifier::truncate]
        let pos = read_pos as usize;
        let base = pos / hop;
        let ghost old_channels = self.channels@;
        let ghost keep = (self.hop, self.blank);
        let ghost dirty0 = self.dirty_ranges@;
        let mut c: usize = 0;
        while c < bins.len()
            invariant
                c <= bins@.len(),
                self.dirty_ranges@ == dirty0,
                bins@.len() <= old_channels.len(),
                base == base_hop(read_pos, hop),
                forall|k: int| 0 <= k < bins@.len() ==> base_hop(read_pos, hop) + (#[trigger] bins@[k])@.len() <= usize::MAX,
                (self.hop, self.blank) == keep,
                self.channels@.len() == old_channels.len(),
                forall|k: int| 0 <= k < c ==> (#[trigger] self.channels@[k])@ == stored_spec(old_channels[k]@, base as int, bins@[k]@),
                forall|k: int| c <= k < old_channels.len() ==> #[trigger] self.channels@[k] == old_channels[k],
            decreases bins.len() - c,
        {
            store_into(&mut self.channels[c], base, bins[c].as_slice());
            c = c + 1;
        }
        let written_end = read_pos + take;
        let end = if written_end < range_end { written_end } else { range_end };
        self.dirty_ranges = subtract_frame_range(self.dirty_ranges.as_slice(), read_pos, end);
        self.covered_frames = frames;
    }
}

/// Per-channel spectrogram stream: `band_count` values per hop, hop after
/// hop. `T` is the value type; dirty hops hold `floor` until rebuilt.
#[derive(Clone, Debug)]
pub struct SpectralStreamSeries<T> {
    /// Hop size in frames.
    pub hop: usize,
    /// FFT size used when the series was produced.
    pub fft_size: usize,
    /// Bands per hop.
    pub band_count: usize,
    /// Frames covered by the series.
    pub covered_frames: u64,
    /// Per channel: `hop_count * band_count` packed values.
    pub channels: Vec<Vec<T>>,
    /// Half-open frame ranges that still need a rebuild (hop-aligned).
    pub dirty_ranges: Vec<FrameRange>,
    /// Value of a band that holds no data.
    pub floor: T,
}

impl<T: Copy> SpectralStreamSeries<T> {
    /// Empty series for `channel_count` channels with the analyser's shape.
    pub fn empty(channel_count: usize, hop: usize, fft_size: usize, band_count: usize, floor: T) -> (out: Self)
        ensures
            out.hop == hop,
            out.fft_size == fft_size,
            out.band_count == band_count,
            out.covered_frames == 0,
            out.channels@.len() == channel_count,
            forall|c: int| 0 <= c < channel_count ==> (#[trigger] out.channels@[c])@.len() == 0,
            out.dirty_ranges@.len() == 0,
            out.floor == floor,
    {
        let mut channels: Vec<Vec<T>> = Vec::new();
        let mut i: usize = 0;
        while i < channel_count
            invariant
                i <= channel_count,
                channels@.len() == i,
                forall|c: int| 0 <= c < i ==> (#[trigger] channels@[c])@.len() == 0,
            decreases channel_count - i,
        {
            channels.push(Vec::new());
            i = i + 1;
        }
        SpectralStreamSeries { hop, fft_size, band_count, covered_frames: 0, channels, dirty_ranges: Vec::new(), floor }
    }

    /// The stream covers `frames` frames of `channel_count` channels with the
    /// expected `band_count` and no holes.
    pub open spec fn covers_spec(&self, frames: u64, channel_count: usize, band_count: usize) -> bool {
        &&& self.covered_frames >= frames
        &&& self.channels@.len() == channel_count
        &&& self.band_count == band_count
        &&& self.hop > 0
        &&& self.channels@.len() > 0
        &&& self.dirty_ranges@.len() == 0
        &&& forall|c: int| 0 <= c < self.channels@.len() ==> (#[trigger] self.channels@[c])@.len() > 0
    }

    /// Some channel holds hops to paint (holes allowed).
    pub open spec fn has_data_spec(&self) -> bool {
        exists|c: int| 0 <= c < self.channels@.len() && (#[trigger] self.channels@[c])@.len() > 0
    }

    /// Whether the stream covers `frames` with the expected shape and no holes
    /// (`band_count` is the analyser's band count).
    pub fn covers(&self, frames: u64, channel_count: usize, band_count: usize) -> (out: bool)
        ensures
            out == self.covers_spec(frames, channel_count, band_count),
    {
        if self.covered_frames < frames || self.channels.len() != channel_count || self.band_count != band_count
            || self.hop == 0 || self.channels.len() == 0 || self.dirty_ranges.len() > 0 {
            return false;
        }
        let mut c: usize = 0;
        while c < self.channels.len()
            invariant
                c <= self.channels@.len(),
                forall|k: int| 0 <= k < c ==> (#[trigger] self.channels@[k])@.len() > 0,
            decreases self.channels.len() - c,
        {
            if self.channels[c].len() == 0 {
                return false;
            }
            c = c + 1;
        }
        true
    }

    /// Whether any spectral hops are available to paint (holes allowed).
    pub fn has_data(&self) -> (out: bool)
        ensures
            out == self.has_data_spec(),
    {
        let mut c: usize = 0;
        while c < self.channels.len()
            invariant
                c <= self.channels@.len(),
                forall|k: int| 0 <= k < c ==> (#[trigger] self.channels@[k])@.len() == 0,
            decreases self.channels.len() - c,
        {
            if self.channels[c].len() > 0 {
                return true;
            }
            c = c + 1;
        }
        false
    }

    /// Hops that may be read for paint: those the covered frames reach.
    pub fn covered_hops(&self) -> (out: usize)
        requires
            self.hop == 0 || (self.covered_frames as usize) + self.hop - 1 <= usize::MAX,
        ensures
            self.hop == 0 ==> out == 0,
            self.hop > 0 ==> out == ((self.covered_frames as usize) + self.hop - 1) / (self.hop as int),
    {
        if self.hop == 0 {
            return 0;
        }
        #[verifier::truncate]
        let covered = self.covered_frames as usize;
        (covered + (self.hop - 1)) / self.hop
    }

    /// Number of hops stored for `channel` (0 for a missing channel or no bands).
    pub fn hop_count(&self, channel: usize) -> (out: usize)
        ensures
            channel >= self.channels@.len() || self.band_count == 0 ==> out == 0,
            channel < self.channels@.len() && self.band_count > 0
                ==> out == (self.channels@[channel as int]@.len() as int) / (self.band_count as int),
    {
        if channel >= self.channels.len() || self.band_count == 0 {
            return 0;
        }
        self.channels[channel].len() / self.band_count
    }

    /// Whether `frame` lies in a dirty range.
    pub fn is_dirty_frame(&self, frame: u64) -> (out: bool)
        ensures
            out == covers(self.dirty_ranges@, frame as int),
    {
        let mut i: usize = 0;
        while i < self.dirty_ranges.len()
            invariant
                i <= self.dirty_ranges@.len(),
                forall|k: int| 0 <= k < i ==> !crate::frame_ranges::in_range(#[trigger] self.dirty_ranges@[k], frame as int),
            decreases self.dirty_ranges.len() - i,
        {
            let (start, end) = self.dirty_ranges[i];
            if frame >= start && frame < end {
                assert(crate::frame_ranges::in_range(self.dirty_ranges@[i as int], frame as int));
                return true;
            }
            i = i + 1;
        }
        false
    }

    /// Mark `seeds` dirty: pad by `radius`, snap to hops, merge with the
    /// current dirty ranges, and set every band of every dirty hop to `floor`.
    pub fn mark_dirty(&mut self, seeds: &[FrameRange], radius: u64, frames: u64)
        requires
            old(self).hop == 0 || frames + old(self).hop <= u64::MAX + 1,
        ensures
            marked_dirty(old(self).dirty_ranges@, seeds@, radius, old(self).hop, frames, final(self).dirty_ranges@),
            final(self).hop == old(self).hop,
            final(self).band_count == old(self).band_count,
            final(self).fft_size == old(self).fft_size,
            final(self).floor == old(self).floor,
            final(self).channels@.len() == old(self).channels@.len(),
            forall|c: int| 0 <= c < old(self).channels@.len() ==> (#[trigger] final(self).channels@[c])@
                == fill_spec(old(self).channels@[c]@, old(self).hop, old(self).band_count, final(self).dirty_ranges@, old(self).floor),
            final(self).covered_frames == (if old(self).covered_frames == 0 && old(self).has_data_spec() { frames } else { old(self).covered_frames }),
    {
        let ghost had_data = self.has_data_spec();
        self.dirty_ranges = mark_ranges(self.dirty_ranges.as_slice(), seeds, radius, self.hop, frames);
        let ghost old_channels = self.channels@;
        let ghost shape = (self.hop, self.band_count, self.fft_size, self.floor, self.covered_frames);
        let ghost dirty1 = self.dirty_ranges@;
        let mut c: usize = 0;
        while c < self.channels.len()
            invariant
                (self.hop, self.band_count, self.fft_size, self.floor, self.covered_frames) == shape,
                self.dirty_ranges@ == dirty1,
                c <= self.channels@.len(),
                self.channels@.len() == old_channels.len(),
                forall|k: int| 0 <= k < self.dirty_ranges@.len() ==> (#[trigger] self.dirty_ranges@[k]).1 <= frames,
                self.hop == 0 || frames + self.hop <= u64::MAX + 1,
                forall|k: int| 0 <= k < c ==> (#[trigger] self.channels@[k])@
                    == fill_spec(old_channels[k]@, self.hop, self.band_count, self.dirty_ranges@, self.floor),
                forall|k: int| c <= k < old_channels.len() ==> #[trigger] self.channels@[k] == old_channels[k],
            decreases self.channels.len() - c,
        {
            let hop = self.hop;
            let stride = self.band_count;
            let floor = self.floor;
            fill_packed_hops(&mut self.channels[c], hop, stride, self.dirty_ranges.as_slice(), floor);
            c = c + 1;
        }
        proof {
            assert forall|k: int| 0 <= k < old_channels.len() implies (#[trigger] self.channels@[k])@.len() == old_channels[k]@.len() by {}
            if had_data {
                let k = choose|k: int| 0 <= k < old_channels.len() && (#[trigger] old_channels[k])@.len() > 0;
                assert(self.channels@[k]@.len() > 0);
            }
            if self.has_data_spec() {
                let k = choose|k: int| 0 <= k < self.channels@.len() && (#[trigger] self.channels@[k])@.len() > 0;
                assert(old_channels[k]@.len() > 0);
            }
        }
        if self.covered_frames == 0 && self.has_data() {
            self.covered_frames = frames;
        }
    }

    /// Store the hops a block read at `read_pos` produced (`packed[c]` holds
    /// `band_count` values per hop for channel `c`, starting at the block's
    /// hop) and count the block's frames as rebuilt, up to the end of its
    /// target range.
    pub fn store_block(
        &mut self,
        read_pos: u64,
        hop: usize,
        band_count: usize,
        packed: &[Vec<T>],
        take: u64,
        range_end: u64,
        frames: u64,
    )
        requires
            hop > 0,
            band_count > 0,
            packed@.len() <= old(self).channels@.len(),
            read_pos + take <= u64::MAX,
            forall|c: int| 0 <= c < packed@.len() ==>
                (base_hop(read_pos, hop) + ((#[trigger] packed@[c])@.len() as int) / (band_count as int)) * band_count <= usize::MAX,
        ensures
            final(self).channels@.len() == old(self).channels@.len(),
            forall|c: int| 0 <= c < old(self).channels@.len() ==> (#[trigger] final(self).channels@[c])@ == (if c < packed@.len() {
                packed_stored_spec(old(self).channels@[c]@, base_hop(read_pos, hop), packed@[c]@, band_count as int)
            } else {
                old(self).channels@[c]@
            }),
            ({
                let end: u64 = if read_pos + take < range_end { (read_pos + take) as u64 } else { range_end };
                &&& read_pos >= end ==> final(self).dirty_ranges@ == old(self).dirty_ranges@
                &&& read_pos < end ==> final(self).dirty_ranges@ == subtract_all(old(self).dirty_ranges@, read_pos, end)
            }),
            final(self).covered_frames == frames,
            final(self).hop == old(self).hop,
            final(self).band_count == old(self).band_count,
            final(self).fft_size == old(self).fft_size,
            final(self).floor == old(self).floor,
    {
        #[verifier::truncate]
        let pos = read_pos as usize;
        let base = pos / hop;
        let ghost old_channels = self.channels@;
        let ghost keep = (self.hop, self.band_count, self.fft_size, self.floor);
        let ghost dirty0 = self.dirty_ranges@;
        let mut c: usize = 0;
        while c < packed.len()
            invariant
                c <= packed@.len(),
                band_count > 0,
                self.dirty_ranges@ == dirty0,
                packed@.len() <= old_channels.len(),
                base == base_hop(read_pos, hop),
                forall|k: int| 0 <= k < packed@.len() ==>
                    (base_hop(read_pos, hop) + ((#[trigger] packed@[k])@.len() as int) / (band_count as int)) * band_count <= usize::MAX,
                (self.hop, self.band_count, self.fft_size, self.floor) == keep,
                self.channels@.len() == old_channels.len(),
                forall|k: int| 0 <= k < c ==> (#[trigger] self.channels@[k])@
                    == packed_stored_spec(old_channels[k]@, base as int, packed@[k]@, band_count as int),
                forall|k: int| c <= k < old_channels.len() ==> #[trigger] self.channels@[k] == old_channels[k],
            decreases packed.len() - c,
        {
            store_packed_into(&mut self.channels[c], base, packed[c].as_slice(), band_count);
            c = c + 1;
        }
        let written_end = read_pos + take;
        let end = if written_end < range_end { written_end } else { range_end };
        self.dirty_ranges = subtract_frame_range(self.dirty_ranges.as_slice(), read_pos, end);
        self.covered_frames = frames;
    }

    /// Remove a completed write span `[start, end)` from the dirty ranges.
    pub fn clear_dirty_completed(&mut self, start: u64, end: u64)
        ensures
            start >= end ==> final(self).dirty_ranges@ == old(self).dirty_ranges@,
            start < end ==> final(self).dirty_ranges@ == subtract_all(old(self).dirty_ranges@, start, end),
            final(self).hop == old(self).hop,
            final(self).band_count == old(self).band_count,
            final(self).fft_size == old(self).fft_size,
            final(self).covered_frames == old(self).covered_frames,
            final(self).channels == old(self).channels,
            final(self).floor == old(self).floor,
    {
        self.dirty_ranges = subtract_frame_range(self.dirty_ranges.as_slice(), start, end);
    }
}

} // verus!
