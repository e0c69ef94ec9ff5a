use field_assist::analysis_streams::{AnalysisKind, AnalysisStreams};

#[test]
fn streams_start_empty_and_are_created_on_demand() {
    let mut streams: AnalysisStreams<f32> = AnalysisStreams::default();
    assert!(streams.float(AnalysisKind::EnvelopePeak).is_none());
    assert!(streams.spectral().is_none());
    assert!(!streams.envelope_peak_ready(0, 2));
    assert!(!streams.spectral_has_data(2));

    let s = streams.ensure_float(AnalysisKind::EnvelopePeak, 2, 512, 0.0);
    assert_eq!(s.hop, 512);
    assert_eq!(s.channels.len(), 2);
    s.covered_frames = 1024;
    s.channels[0].push(0.5);
    s.channels[1].push(0.25);
    assert_eq!(streams.float(AnalysisKind::EnvelopePeak).unwrap().covered_frames, 1024);
    assert!(streams.float(AnalysisKind::MinMax).is_none());
    assert!(streams.envelope_peak_ready(1000, 2));
    assert!(!streams.envelope_peak_ready(2000, 2));
    assert!(!streams.envelope_peak_ready(1000, 1));
    assert!(streams.envelope_peak_has_data(2));

    // An existing stream is handed back as it is.
    let again = streams.ensure_float(AnalysisKind::EnvelopePeak, 7, 64, 1.0);
    assert_eq!(again.hop, 512);
    assert_eq!(again.channels.len(), 2);

    streams.float_mut(AnalysisKind::EnvelopePeak).unwrap().covered_frames = 10;
    assert_eq!(streams.float(AnalysisKind::EnvelopePeak).unwrap().covered_frames, 10);
    assert!(streams.float_mut(AnalysisKind::Transients).is_none());
}

#[test]
fn spectral_is_replaced_when_channel_count_changes() {
    let mut streams: AnalysisStreams<f32> = AnalysisStreams::default();
    let s = streams.ensure_spectral(2, 256, 1024, 64, -120.0);
    assert_eq!((s.hop, s.fft_size, s.band_count, s.channels.len()), (256, 1024, 64, 2));
    s.covered_frames = 99;
    assert_eq!(streams.ensure_spectral(2, 1, 1, 1, 0.0).covered_frames, 99);
    let fresh = streams.ensure_spectral(3, 128, 512, 32, -90.0);
    assert_eq!((fresh.covered_frames, fresh.channels.len(), fresh.hop), (0, 3, 128));
    assert!(!streams.spectral_ready(1, 3, 32));
    {
        let sp = streams.spectral_mut().unwrap();
        sp.covered_frames = 128;
        for ch in sp.channels.iter_mut() {
            ch.extend(std::iter::repeat(0.0).take(32));
        }
    }
    assert!(streams.spectral_ready(128, 3, 32));
    assert!(!streams.spectral_ready(128, 3, 64));
    assert!(streams.spectral_has_data(3));
    streams.spectral_mut().unwrap().covered_frames = 5;
    assert_eq!(streams.spectral().unwrap().covered_frames, 5);

    streams.ensure_float(AnalysisKind::EnvelopePeak, 1, 4, 0.0);
    streams.clear();
    assert!(streams.spectral().is_none());
    assert!(streams.float(AnalysisKind::EnvelopePeak).is_none());
    assert!(streams.spectral_mut().is_none());
}
