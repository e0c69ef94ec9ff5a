use field_assist::edl::EditOp;
use field_assist::frame_ranges::{
    advance_read_pos, analysis_dirty_seeds, expand_frame_ranges, hop_align_frame_ranges, hop_bin, hops_for_frames,
    merge_frame_ranges, next_chunk_in_ranges, normalize_half_open_ranges, subtract_frame_range,
};

#[test]
fn merge_clamps_sorts_and_joins_adjacent() {
    let out = merge_frame_ranges(vec![(50, 60), (0, 10), (10, 20), (15, 18), (30, 30), (95, 200)], 100);
    assert_eq!(out, vec![(0, 20), (50, 60), (95, 100)]);
    assert_eq!(merge_frame_ranges(vec![(120, 130)], 100), vec![]);
    assert_eq!(merge_frame_ranges(vec![], 100), vec![]);
}

#[test]
fn merge_is_idempotent() {
    let once = merge_frame_ranges(vec![(5, 9), (1, 3), (3, 4), (8, 12)], 50);
    let twice = merge_frame_ranges(once.clone(), 50);
    assert_eq!(once, twice);
    assert_eq!(once, vec![(1, 4), (5, 12)]);
}

#[test]
fn expand_pads_and_keeps_joins() {
    // A zero-length join at 40 becomes [40-5, 41+5).
    assert_eq!(expand_frame_ranges(&[(40, 40)], 5, 100), vec![(35, 46)]);
    assert_eq!(expand_frame_ranges(&[(2, 4), (10, 12)], 3, 100), vec![(0, 15)]);
    assert_eq!(expand_frame_ranges(&[(98, 98)], 5, 100), vec![(93, 100)]);
}

#[test]
fn hop_align_snaps_outward() {
    assert_eq!(hop_align_frame_ranges(&[(130, 250)], 128, 1000), vec![(128, 256)]);
    assert_eq!(hop_align_frame_ranges(&[(130, 250)], 0, 1000), vec![(130, 250)]);
    assert_eq!(hop_align_frame_ranges(&[(900, 990)], 128, 1000), vec![(896, 1000)]);
}

#[test]
fn subtract_removes_done_span() {
    assert_eq!(subtract_frame_range(&[(0, 100)], 20, 40), vec![(0, 20), (40, 100)]);
    assert_eq!(subtract_frame_range(&[(0, 10), (50, 60)], 0, 55), vec![(55, 60)]);
    assert_eq!(subtract_frame_range(&[(5, 5)], 20, 40), vec![]);
    assert_eq!(subtract_frame_range(&[(5, 5)], 40, 20), vec![(5, 5)]);
}

#[test]
fn dirty_seeds_per_op() {
    assert_eq!(analysis_dirty_seeds(&EditOp::Delete { start: 4000, len: 500 }, &[], 10000), vec![(4000, 4500)]);
    assert_eq!(analysis_dirty_seeds(&EditOp::Cut { start: 2000, len: 1000 }, &[], 7000), vec![(2000, 2000)]);
    assert_eq!(analysis_dirty_seeds(&EditOp::Copy { start: 0, len: 5 }, &[], 10), vec![]);
    assert_eq!(analysis_dirty_seeds(&EditOp::Trim { start: 3, len: 5 }, &[], 5), vec![(0, 0), (5, 5)]);
    assert_eq!(
        analysis_dirty_seeds(&EditOp::Move { from: 10, len: 5, dest: 30 }, &[], 100),
        vec![(10, 10), (25, 30)]
    );
    assert_eq!(analysis_dirty_seeds(&EditOp::Duplicate { start: 10, len: 5 }, &[], 100), vec![(15, 20)]);
    assert_eq!(analysis_dirty_seeds(&EditOp::Paste { at: 90, len: 20 }, &[], 100), vec![(90, 100)]);
    assert_eq!(analysis_dirty_seeds(&EditOp::Roll { at: 5, delta: -2 }, &[(3, 7)], 100), vec![(3, 7)]);
}

#[test]
fn chunks_and_read_positions() {
    let ranges = [(100, 200), (300, 350)];
    assert_eq!(next_chunk_in_ranges(&ranges, 0, 64), Some((100, 164, 100)));
    assert_eq!(next_chunk_in_ranges(&ranges, 180, 64), Some((100, 200, 180)));
    assert_eq!(next_chunk_in_ranges(&ranges, 200, 64), Some((300, 350, 300)));
    assert_eq!(next_chunk_in_ranges(&ranges, 400, 64), None);
    assert_eq!(next_chunk_in_ranges(&ranges, 0, 0), None);
    assert_eq!(advance_read_pos(&ranges, 50), 100);
    assert_eq!(advance_read_pos(&ranges, 150), 150);
    assert_eq!(advance_read_pos(&ranges, 250), 300);
    assert_eq!(advance_read_pos(&ranges, 500), 500);
}

#[test]
fn hop_arithmetic() {
    assert_eq!(hop_bin(1000, 256), 3);
    assert_eq!(hop_bin(1000, 0), 0);
    assert_eq!(hops_for_frames(1000, 256), 4);
    assert_eq!(hops_for_frames(1024, 256), 4);
    assert_eq!(hops_for_frames(0, 256), 0);
}

#[test]
fn half_open_targets_normalize_like_merge() {
    let raw = vec![(8u64, 12u64), (0, 4), (4, 6), (20, 30)];
    assert_eq!(normalize_half_open_ranges(raw.clone(), 25), vec![(0, 6), (8, 12), (20, 25)]);
    assert_eq!(normalize_half_open_ranges(raw.clone(), 25), merge_frame_ranges(raw, 25));
}
