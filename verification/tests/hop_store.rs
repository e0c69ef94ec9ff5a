use field_assist::edl::EditOp;
use field_assist::hop_store::{
    fill_float_hops, fill_packed_hops, splice_packed_channel, FloatStreamSeries, SpectralStreamSeries,
};

const E: f32 = -1.0;

fn five() -> Vec<f32> {
    vec![1.0, 2.0, 3.0, 4.0, 5.0]
}

#[test]
fn splice_keeps_untouched_hops() {
    let d = five();
    assert_eq!(splice_packed_channel(&d, 4, 1, &EditOp::Init, 20, E), d);
    assert_eq!(splice_packed_channel(&d, 4, 1, &EditOp::Copy { start: 0, len: 4 }, 20, E), d);
    assert_eq!(splice_packed_channel(&d, 4, 1, &EditOp::Delete { start: 0, len: 4 }, 20, E), d);
    assert_eq!(splice_packed_channel(&d, 4, 1, &EditOp::Roll { at: 8, delta: 2 }, 20, E), d);
    // Shorter timeline: the tail hops fall away.
    assert_eq!(splice_packed_channel(&d, 4, 1, &EditOp::Init, 12, E), vec![1.0, 2.0, 3.0]);
    // Longer timeline: new hops stay empty.
    assert_eq!(splice_packed_channel(&d, 4, 1, &EditOp::Init, 28, E), vec![1.0, 2.0, 3.0, 4.0, 5.0, E, E]);
}

#[test]
fn splice_cut_and_remove_close_the_gap() {
    let d = five();
    let want = vec![1.0, 4.0, 5.0];
    assert_eq!(splice_packed_channel(&d, 4, 1, &EditOp::Cut { start: 4, len: 8 }, 12, E), want);
    assert_eq!(splice_packed_channel(&d, 4, 1, &EditOp::Remove { start: 4, len: 8 }, 12, E), want);
}

#[test]
fn splice_paste_and_duplicate_open_a_gap() {
    let d = five();
    assert_eq!(
        splice_packed_channel(&d, 4, 1, &EditOp::Paste { at: 8, len: 8 }, 28, E),
        vec![1.0, 2.0, E, E, 3.0, 4.0, 5.0]
    );
    assert_eq!(
        splice_packed_channel(&d, 4, 1, &EditOp::Duplicate { start: 4, len: 4 }, 24, E),
        vec![1.0, 2.0, E, 3.0, 4.0, 5.0]
    );
}

#[test]
fn splice_trim_and_move() {
    let d = five();
    assert_eq!(splice_packed_channel(&d, 4, 1, &EditOp::Trim { start: 4, len: 8 }, 8, E), vec![2.0, 3.0]);
    assert_eq!(
        splice_packed_channel(&d, 4, 1, &EditOp::Move { from: 0, len: 4, dest: 12 }, 20, E),
        vec![2.0, 3.0, E, 4.0, 5.0]
    );
    assert_eq!(
        splice_packed_channel(&d, 4, 1, &EditOp::Move { from: 12, len: 4, dest: 0 }, 20, E),
        vec![E, 1.0, 2.0, 3.0, 5.0]
    );
}

#[test]
fn splice_packed_rows_move_together() {
    let d = vec![1.0, 1.5, 2.0, 2.5, 3.0, 3.5];
    assert_eq!(
        splice_packed_channel(&d, 4, 2, &EditOp::Cut { start: 4, len: 4 }, 8, E),
        vec![1.0, 1.5, 3.0, 3.5]
    );
    assert!(splice_packed_channel(&d, 0, 2, &EditOp::Init, 8, E).is_empty());
    assert!(splice_packed_channel(&d, 4, 0, &EditOp::Init, 8, E).is_empty());
}

#[test]
fn fill_blanks_touched_hops() {
    let mut d = vec![1.0f32; 6];
    fill_float_hops(&mut d, 4, &[(4, 9)], 0.0);
    assert_eq!(d, vec![1.0, 0.0, 0.0, 1.0, 1.0, 1.0]);
    let mut d = vec![1.0f32; 6];
    fill_float_hops(&mut d, 4, &[(0, 0), (20, 40)], 0.0);
    assert_eq!(d, vec![1.0, 1.0, 1.0, 1.0, 1.0, 0.0]);
    let mut d = vec![1.0f32; 6];
    fill_packed_hops(&mut d, 4, 2, &[(4, 8)], 0.0);
    assert_eq!(d, vec![1.0, 1.0, 0.0, 0.0, 1.0, 1.0]);
    let mut d = vec![1.0f32; 6];
    fill_packed_hops(&mut d, 0, 2, &[(0, 100)], 0.0);
    assert_eq!(d, vec![1.0f32; 6]);
}

#[test]
fn float_series_dirty_cycle() {
    let mut s = FloatStreamSeries::empty(2, 4, 0.0f32);
    assert!(!s.has_data());
    assert!(!s.covers(20));
    s.channels = vec![five(), five()];
    s.mark_dirty(&[(5, 6)], 0, 20);
    assert_eq!(s.covered_frames, 20);
    assert_eq!(s.dirty_ranges, vec![(4, 8)]);
    assert_eq!(s.channels[0], vec![1.0, 0.0, 3.0, 4.0, 5.0]);
    assert!(s.is_dirty_frame(4));
    assert!(s.is_dirty_frame(7));
    assert!(!s.is_dirty_frame(8));
    assert!(!s.covers(20));
    assert!(s.has_data());
    assert_eq!(s.covered_hops(), 5);
    s.clear_dirty_completed(4, 8);
    assert!(s.dirty_ranges.is_empty());
    assert!(s.covers(20));
    assert!(!s.covers(21));
}

#[test]
fn float_series_marks_padded_seeds() {
    let mut s = FloatStreamSeries::empty(1, 4, 0.0f32);
    s.channels = vec![vec![9.0; 5]];
    s.covered_frames = 20;
    s.dirty_ranges = vec![(16, 20)];
    // A zero-length seed at 9 with radius 2 becomes [7, 12), snapped to [4, 12).
    s.mark_dirty(&[(9, 9)], 2, 20);
    assert_eq!(s.dirty_ranges, vec![(4, 12), (16, 20)]);
    assert_eq!(s.channels[0], vec![9.0, 0.0, 0.0, 9.0, 0.0]);
    s.clear_dirty_completed(4, 8);
    assert_eq!(s.dirty_ranges, vec![(8, 12), (16, 20)]);
    s.clear_dirty_completed(8, 8);
    assert_eq!(s.dirty_ranges, vec![(8, 12), (16, 20)]);
}

#[test]
fn spectral_series_dirty_cycle() {
    let floor = -120.0f32;
    let mut s = SpectralStreamSeries::empty(1, 4, 16, 2, floor);
    assert_eq!((s.hop, s.fft_size, s.band_count), (4, 16, 2));
    assert!(!s.has_data());
    assert_eq!(s.hop_count(0), 0);
    assert_eq!(s.hop_count(3), 0);
    s.channels = vec![vec![1.0, 1.5, 2.0, 2.5, 3.0, 3.5]];
    assert_eq!(s.hop_count(0), 3);
    s.mark_dirty(&[(4, 5)], 0, 12);
    assert_eq!(s.covered_frames, 12);
    assert_eq!(s.dirty_ranges, vec![(4, 8)]);
    assert_eq!(s.channels[0], vec![1.0, 1.5, floor, floor, 3.0, 3.5]);
    assert!(s.is_dirty_frame(5));
    assert!(!s.covers(12, 1, 2));
    s.clear_dirty_completed(4, 8);
    assert!(s.covers(12, 1, 2));
    assert!(!s.covers(12, 2, 2));
    assert!(!s.covers(12, 1, 3));
    assert_eq!(s.covered_hops(), 3);
}

#[test]
fn envelope_block_write_back() {
    let mut s = FloatStreamSeries::empty(2, 4, 0.0f32);
    s.channels = vec![vec![0.0; 5], vec![0.0; 5]];
    s.dirty_ranges = vec![(0, 20)];
    // A block read at frame 8 produced two bins per channel; range ends at 20.
    s.store_block(8, 4, &[vec![7.0, 8.0], vec![9.0]], 8, 20, 20);
    assert_eq!(s.channels[0], vec![0.0, 0.0, 7.0, 8.0, 0.0]);
    assert_eq!(s.channels[1], vec![0.0, 0.0, 9.0, 0.0, 0.0]);
    assert_eq!(s.dirty_ranges, vec![(0, 8), (16, 20)]);
    assert_eq!(s.covered_frames, 20);
    // Bins past the end of the channel are dropped; the range end bounds the cleared span.
    s.store_block(16, 4, &[vec![1.0, 2.0, 3.0]], 8, 18, 20);
    assert_eq!(s.channels[0], vec![0.0, 0.0, 7.0, 8.0, 1.0]);
    assert_eq!(s.dirty_ranges, vec![(0, 8), (18, 20)]);
}

#[test]
fn spectral_block_write_back() {
    let floor = -120.0f32;
    let mut s = SpectralStreamSeries::empty(1, 4, 16, 2, floor);
    s.channels = vec![vec![floor; 6]];
    s.dirty_ranges = vec![(0, 12)];
    // Two whole hops and a stray value from frame 4: the stray value is ignored.
    s.store_block(4, 4, 2, &[vec![1.0, 1.5, 2.0, 2.5, 9.0]], 8, 12, 12);
    assert_eq!(s.channels[0], vec![floor, floor, 1.0, 1.5, 2.0, 2.5]);
    assert_eq!(s.dirty_ranges, vec![(0, 4)]);
    // A hop that would not fit is dropped.
    s.store_block(8, 4, 2, &[vec![5.0, 5.5, 6.0, 6.5]], 4, 12, 12);
    assert_eq!(s.channels[0], vec![floor, floor, 1.0, 1.5, 5.0, 5.5]);
}
