use field_assist::analysis_steps::{
    begin_analysis_target, commit_block, envelope_seed_ranges, minmax_seed_ranges, plan_block, plan_pass_ranges,
    prepare_envelope, prepare_spectral, spectral_seed_ranges, transient_seed_ranges, BlockPlan, PassCursor, SpanPeaks,
    WarmUp, markers_to_replace, MarkerEntry,
};
use field_assist::hop_store::{FloatStreamSeries, SpectralStreamSeries};

#[test]
fn pass_walks_ranges_in_blocks() {
    let ranges = vec![(0u64, 10u64), (20, 25)];
    let mut cursor = PassCursor { read_pos: 0, done: 0, total: 15 };
    let mut reads = Vec::new();
    loop {
        match plan_block(&ranges, cursor, 4, 0) {
            BlockPlan::Finish => break,
            BlockPlan::Read { read_pos, take, range_end, prime, .. } => {
                assert!(prime.is_none());
                reads.push((read_pos, take, range_end));
                if commit_block(&ranges, &mut cursor, read_pos, take) {
                    break;
                }
            }
        }
    }
    assert_eq!(reads, vec![(0, 4, 10), (4, 4, 10), (8, 2, 10), (20, 4, 25), (24, 1, 25)]);
    assert_eq!(cursor.done, 15);
    assert_eq!(cursor.read_pos, 25);
    assert_eq!(plan_block(&ranges, cursor, 4, 0), BlockPlan::Finish);
}

#[test]
fn range_openings_get_warm_up() {
    let ranges = vec![(100u64, 200u64)];
    let cursor = PassCursor { read_pos: 0, done: 0, total: 100 };
    assert_eq!(
        plan_block(&ranges, cursor, 64, 30),
        BlockPlan::Read { read_pos: 100, take: 64, range_start: 100, range_end: 200, prime: Some(WarmUp { start: 70, len: 30 }) }
    );
    // Lookback is cut at frame 0.
    assert_eq!(
        plan_block(&ranges, cursor, 64, 500),
        BlockPlan::Read { read_pos: 100, take: 64, range_start: 100, range_end: 200, prime: Some(WarmUp { start: 0, len: 100 }) }
    );
    // Mid-range blocks and ranges at frame 0 get none.
    let mid = PassCursor { read_pos: 164, done: 64, total: 100 };
    assert_eq!(
        plan_block(&ranges, mid, 64, 30),
        BlockPlan::Read { read_pos: 164, take: 36, range_start: 100, range_end: 200, prime: None }
    );
    let at_zero = vec![(0u64, 8u64)];
    let c0 = PassCursor { read_pos: 0, done: 0, total: 8 };
    assert_eq!(
        plan_block(&at_zero, c0, 64, 30),
        BlockPlan::Read { read_pos: 0, take: 8, range_start: 0, range_end: 8, prime: None }
    );
}

#[test]
fn finished_counts_stop_the_pass() {
    let ranges = vec![(0u64, 10u64)];
    let done = PassCursor { read_pos: 0, done: 10, total: 10 };
    assert_eq!(plan_block(&ranges, done, 4, 0), BlockPlan::Finish);
    let empty: Vec<(u64, u64)> = Vec::new();
    let c = PassCursor { read_pos: 0, done: 0, total: 10 };
    assert_eq!(plan_block(&empty, c, 4, 0), BlockPlan::Finish);
}

#[test]
fn targets_are_normalized() {
    let (r, c) = begin_analysis_target(None, 100);
    assert_eq!(r, vec![(0, 100)]);
    assert_eq!(c, PassCursor { read_pos: 0, done: 0, total: 100 });
    let (r, c) = begin_analysis_target(Some(vec![]), 100);
    assert!(r.is_empty());
    assert_eq!(c, PassCursor { read_pos: 0, done: 0, total: 0 });
    let (r, c) = begin_analysis_target(Some(vec![(50, 70), (10, 20), (15, 30), (90, 200), (5, 5)]), 100);
    assert_eq!(r, vec![(10, 30), (50, 70), (90, 100)]);
    assert_eq!(c, PassCursor { read_pos: 10, done: 0, total: 50 });
    // Ranges entirely past the end normalize to nothing.
    let (r, c) = begin_analysis_target(Some(vec![(150, 200)]), 100);
    assert!(r.is_empty());
    assert_eq!(c.total, 0);
}

#[test]
fn overview_seeds_are_uncovered_clip_tails() {
    let spans = vec![
        SpanPeaks { start: 0, len: 100, covered: 40, needs_extend: true },
        SpanPeaks { start: 100, len: 50, covered: 0, needs_extend: false },
        SpanPeaks { start: 150, len: 50, covered: 80, needs_extend: true },
        SpanPeaks { start: 200, len: 30, covered: 0, needs_extend: true },
    ];
    assert_eq!(minmax_seed_ranges(&spans, 230), vec![(40, 100), (200, 230)]);
    assert!(minmax_seed_ranges(&[], 230).is_empty());
}

#[test]
fn stream_seeds_prefer_regional_rebuilds() {
    let mut env = FloatStreamSeries::empty(2, 4, 0.0f32);
    env.channels = vec![vec![1.0; 3], vec![1.0; 3]];
    env.dirty_ranges = vec![(4, 8)];
    assert_eq!(envelope_seed_ranges(Some(&env), false, &[(0, 2)], 12, 4), vec![(4, 8)]);
    assert_eq!(envelope_seed_ranges(Some(&env), true, &[(0, 2)], 12, 4), vec![(0, 2)]);
    // A timeline of another length needs a full rebuild.
    assert_eq!(envelope_seed_ranges(Some(&env), false, &[], 20, 4), vec![(0, 20)]);
    assert_eq!(envelope_seed_ranges::<f32>(None, false, &[], 0, 4), vec![]);

    let mut spec = SpectralStreamSeries::empty(1, 4, 16, 2, -120.0f32);
    spec.channels = vec![vec![0.0; 6]];
    spec.dirty_ranges = vec![(0, 4)];
    assert_eq!(spectral_seed_ranges(Some(&spec), 12, 4, 2), vec![(0, 4)]);
    assert_eq!(spectral_seed_ranges(Some(&spec), 12, 4, 3), vec![(0, 12)]);
    assert_eq!(spectral_seed_ranges::<f32>(None, 12, 4, 2), vec![(0, 12)]);

    assert_eq!(transient_seed_ranges(true, &[(3, 5)], 12), vec![(3, 5)]);
    assert_eq!(transient_seed_ranges(false, &[(3, 5)], 12), vec![(0, 12)]);
}

#[test]
fn pass_ranges_pad_by_radius() {
    // [5, 25) and [25, 36) touch, so they merge.
    assert_eq!(plan_pass_ranges(vec![(10, 20), (30, 31)], 5, 100), vec![(5, 36)]);
    assert_eq!(plan_pass_ranges(vec![(30, 40), (10, 20)], 0, 100), vec![(10, 20), (30, 40)]);
}

#[test]
fn streams_are_reset_unless_regional() {
    let mut env = FloatStreamSeries::empty(2, 4, 0.0f32);
    env.channels = vec![vec![1.0; 2], vec![1.0; 2]];
    prepare_envelope(&mut env, &[(0, 12)], 12, 4);
    assert_eq!(env.channels, vec![vec![0.0; 3], vec![0.0; 3]]);
    assert_eq!(env.covered_frames, 12);
    assert_eq!(env.dirty_ranges, vec![(0, 12)]);
    // Regional: left as it is.
    env.channels = vec![vec![5.0; 3], vec![5.0; 3]];
    env.dirty_ranges = vec![(4, 8)];
    prepare_envelope(&mut env, &[(0, 12)], 12, 4);
    assert_eq!(env.dirty_ranges, vec![(4, 8)]);
    assert_eq!(env.channels[0], vec![5.0; 3]);

    let mut spec = SpectralStreamSeries::empty(1, 8, 16, 3, -120.0f32);
    prepare_spectral(&mut spec, &[(0, 12)], 12, 4, 2, 32);
    assert_eq!((spec.hop, spec.band_count, spec.fft_size, spec.covered_frames), (4, 2, 32, 12));
    assert_eq!(spec.channels, vec![vec![-120.0; 6]]);
    assert_eq!(spec.dirty_ranges, vec![(0, 12)]);
}

#[test]
fn transient_pass_replaces_only_its_markers_in_target() {
    let m = |id: u64, frame: u64, ty: &str| MarkerEntry { id, frame, marker_type: ty.to_string() };
    let markers = vec![
        m(1, 5, "transient"),
        m(2, 10, "transient"),
        m(3, 12, "note"),
        m(4, 19, "transient"),
        m(5, 20, "transient"),
        m(6, 40, "transient"),
    ];
    let target = vec![(10, 20), (40, 41), (30, 30)];
    assert_eq!(markers_to_replace(&markers, &target, "transient"), vec![2, 4, 6]);
    assert_eq!(markers_to_replace(&markers, &target, "note"), vec![3]);
    assert_eq!(markers_to_replace(&markers, &[], "transient"), Vec::<u64>::new());
}
