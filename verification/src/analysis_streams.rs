//! The analysis streams a composition keeps: float series by analysis kind
//! and one spectral series, created on demand and wiped together.
use vstd::prelude::*;

use crate::hop_store::{FloatStreamSeries, SpectralStreamSeries};

verus! {

/// The analyses a composition runs.
#[derive(Clone, Copy, Debug, PartialEq, Eq, Hash, Structural)]
pub enum AnalysisKind {
    /// Per-column minimum and maximum for the overview.
    MinMax,
    /// Envelope peak bins.
    EnvelopePeak,
    /// Spectrogram bands.
    Spectral,
    /// Transient markers.
    Transients,
}

/// Position of the entry for `kind` in `s` (the last one, -1 for none).
pub open spec fn kind_index<T>(s: Seq<(AnalysisKind, FloatStreamSeries<T>)>, kind: AnalysisKind) -> int
    decreases s.len(),
{
    if s.len() == 0 {
        -1
    } else if s.last().0 == kind {
        s.len() - 1
    } else {
        kind_index(s.drop_last(), kind)
    }
}

proof fn lemma_kind_index_bounds<T>(s: Seq<(AnalysisKind, FloatStreamSeries<T>)>, kind: AnalysisKind)
    ensures
        -1 <= kind_index(s, kind) < s.len(),
        kind_index(s, kind) >= 0 ==> s[kind_index(s, kind)].0 == kind,
    decreases s.len(),
{
    if s.len() > 0 && s.last().0 != kind {
        lemma_kind_index_bounds(s.drop_last(), kind);
    }
}

/// Replacing the series of one entry, key kept, keeps every kind's position.
proof fn lemma_kind_index_update<T>(
    s: Seq<(AnalysisKind, FloatStreamSeries<T>)>,
    i: int,
    v: FloatStreamSeries<T>,
    kind: AnalysisKind,
)
    requires
        0 <= i < s.len(),
    ensures
        kind_index(s.update(i, (s[i].0, v)), kind) == kind_index(s, kind),
    decreases s.len(),
{
    let t = s.update(i, (s[i].0, v));
    if i < s.len() - 1 {
        assert(t.last() == s.last());
        assert(t.drop_last() =~= s.drop_last().update(i, (s[i].0, v)));
        lemma_kind_index_update(s.drop_last(), i, v, kind);
    } else {
        assert(t.last().0 == s.last().0);
        assert(t.drop_last() =~= s.drop_last());
    }
}

/// Replacing the series kept for `kind` changes what `kind` finds and nothing else.
proof fn lemma_series_of_update<T>(s: Seq<(AnalysisKind, FloatStreamSeries<T>)>, kind: AnalysisKind, v: FloatStreamSeries<T>)
    requires
        kind_index(s, kind) >= 0,
    ensures
        forall|k: AnalysisKind| #[trigger] series_of(s.update(kind_index(s, kind), (kind, v)), k)
            == if k == kind { Some(v) } else { series_of(s, k) },
{
    let i = kind_index(s, kind);
    lemma_kind_index_bounds(s, kind);
    assert forall|k: AnalysisKind| #[trigger] series_of(s.update(i, (kind, v)), k)
        == if k == kind { Some(v) } else { series_of(s, k) } by {
        lemma_kind_index_update(s, i, v, k);
        lemma_kind_index_bounds(s, k);
    }
}

/// `s` is a fresh float series: `channel_count` empty channels at `hop`,
/// nothing covered or dirty.
pub open spec fn is_fresh_float<T>(s: FloatStreamSeries<T>, channel_count: usize, hop: usize, blank: T) -> bool {
    &&& s.hop == hop
    &&& s.covered_frames == 0
    &&& s.channels@.len() == channel_count
    &&& forall|c: int| 0 <= c < channel_count ==> (#[trigger] s.channels@[c])@.len() == 0
    &&& s.dirty_ranges@.len() == 0
    &&& s.blank == blank
}

/// `s` is a fresh spectral series for `channel_count` channels with the
/// analyser's shape.
pub open spec fn is_fresh_spectral<T>(
    s: SpectralStreamSeries<T>,
    channel_count: usize,
    hop: usize,
    fft_size: usize,
    band_count: usize,
    floor: T,
) -> bool {
    &&& s.hop == hop
    &&& s.fft_size == fft_size
    &&& s.band_count == band_count
    &&& s.covered_frames == 0
    &&& s.channels@.len() == channel_count
    &&& forall|c: int| 0 <= c < channel_count ==> (#[trigger] s.channels@[c])@.len() == 0
    &&& s.dirty_ranges@.len() == 0
    &&& s.floor == floor
}

/// Appending an entry for a kind not yet present makes it found and keeps
/// what every other kind finds.
proof fn lemma_series_of_push<T>(s: Seq<(AnalysisKind, FloatStreamSeries<T>)>, kind: AnalysisKind, v: FloatStreamSeries<T>)
    requires
        kind_index(s, kind) == -1,
    ensures
        kind_index(s.push((kind, v)), kind) == s.len(),
        forall|k: AnalysisKind| #[trigger] series_of(s.push((kind, v)), k)
            == if k == kind { Some(v) } else { series_of(s, k) },
{
    let t = s.push((kind, v));
    assert(t.drop_last() =~= s);
    assert forall|k: AnalysisKind| #[trigger] series_of(t, k)
        == if k == kind { Some(v) } else { series_of(s, k) } by {
        lemma_kind_index_bounds(s, k);
    }
}

/// The series `s` holds for `kind`.
pub open spec fn series_of<T>(s: Seq<(AnalysisKind, FloatStreamSeries<T>)>, kind: AnalysisKind) -> Option<FloatStreamSeries<T>> {
    let i = kind_index(s, kind);
    if i >= 0 { Some(s[i].1) } else { None }
}

/// Float streams by kind, and the spectral stream.
pub struct AnalysisStreams<T> {
    float_streams: Vec<(AnalysisKind, FloatStreamSeries<T>)>,
    spectral: Option<SpectralStreamSeries<T>>,
}

impl<T: Copy> AnalysisStreams<T> {
    /// The float series kept for `kind`, if any.
    pub closed spec fn float_spec(&self, kind: AnalysisKind) -> Option<FloatStreamSeries<T>> {
        series_of(self.float_streams@, kind)
    }

    /// The spectral series, if any.
    pub closed spec fn spectral_spec(&self) -> Option<SpectralStreamSeries<T>> {
        self.spectral
    }

    /// Clear all derived streams (full wipe).
    pub fn clear(&mut self)
        ensures
            forall|k: AnalysisKind| (#[trigger] final(self).float_spec(k)) is None,
            final(self).spectral_spec() is None,
    {
        self.float_streams = Vec::new();
        self.spectral = None;
    }

    fn find(&self, kind: AnalysisKind) -> (out: Option<usize>)
        ensures
            match out {
                Some(i) => i == kind_index(self.float_streams@, kind) && i < self.float_streams@.len(),
                None => kind_index(self.float_streams@, kind) == -1,
            },
    {
        let ghost s = self.float_streams@;
        let mut i: usize = self.float_streams.len();
        proof {
            assert(s.subrange(0, i as int) =~= s);
        }
        while i > 0
            invariant
                i <= s.len(),
                s == self.float_streams@,
                kind_index(s, kind) == kind_index(s.subrange(0, i as int), kind),
            decreases i,
        {
            proof {
                assert(s.subrange(0, i as int).drop_last() =~= s.subrange(0, i as int - 1));
            }
            if self.float_streams[i - 1].0 == kind {
                return Some(i - 1);
            }
            i = i - 1;
        }
        proof {
            assert(s.subrange(0, 0) =~= Seq::<(AnalysisKind, FloatStreamSeries<T>)>::empty());
        }
        None
    }

    /// Look up a float stream by kind.
    pub fn float(&self, kind: AnalysisKind) -> (out: Option<&FloatStreamSeries<T>>)
        ensures
            match out {
                Some(s) => self.float_spec(kind) == Some(*s),
                None => self.float_spec(kind) is None,
            },
    {
        match self.find(kind) {
            Some(i) => Some(&self.float_streams[i].1),
            None => None,
        }
    }
    /// Mutable look up of a float stream by kind; changes made through it
    /// become the series kept for `kind`, and nothing else changes.
    pub fn float_mut(&mut self, kind: AnalysisKind) -> (out: Option<&mut FloatStreamSeries<T>>)
        ensures
            out matches Some(r) ==> old(self).float_spec(kind) == Some(*r),
            out matches Some(r) ==> forall|k: AnalysisKind| #[trigger] final(self).float_spec(k)
                == if k == kind { Some(*final(r)) } else { old(self).float_spec(k) },
            out matches Some(r) ==> final(self).spectral_spec() == old(self).spectral_spec(),
            out is None ==> old(self).float_spec(kind) is None,
            out is None ==> forall|k: AnalysisKind| #[trigger] final(self).float_spec(k) == old(self).float_spec(k),
            out is None ==> final(self).spectral_spec() == old(self).spectral_spec(),
    {
        match self.find(kind) {
            Some(i) => {
                let ghost before = self.float_streams@;
                proof {
                    lemma_kind_index_bounds(before, kind);
                }
                let r = &mut self.float_streams[i].1;
                proof {
                    lemma_series_of_update(before, kind, *final(r));
                }
                Some(r)
            },
            None => None,
        }
    }
    /// The float stream for `kind`, created empty (`channel_count` channels
    /// at `hop`) when there is none yet.
    pub fn ensure_float(&mut self, kind: AnalysisKind, channel_count: usize, hop: usize, blank: T) -> (out: &mut FloatStreamSeries<T>)
        ensures
            old(self).float_spec(kind) matches Some(s) ==> *out == s,
            old(self).float_spec(kind) is None ==> is_fresh_float(*out, channel_count, hop, blank),
            forall|k: AnalysisKind| #[trigger] final(self).float_spec(k)
                == if k == kind { Some(*final(out)) } else { old(self).float_spec(k) },
            final(self).spectral_spec() == old(self).spectral_spec(),
    {
        let i = match self.find(kind) {
            Some(i) => i,
            None => {
                let ghost before = self.float_streams@;
                let fresh = FloatStreamSeries::empty(channel_count, hop, blank);
                self.float_streams.push((kind, fresh));
                proof {
                    lemma_series_of_push(before, kind, fresh);
                }
                self.float_streams.len() - 1
            },
        };
        let ghost before = self.float_streams@;
        proof {
            lemma_kind_index_bounds(before, kind);
        }
        let r = &mut self.float_streams[i].1;
        proof {
            lemma_series_of_update(before, kind, *final(r));
        }
        r
    }

    /// The spectral stream, if any.
    pub fn spectral(&self) -> (out: Option<&SpectralStreamSeries<T>>)
        ensures
            match out {
                Some(s) => self.spectral_spec() == Some(*s),
                None => self.spectral_spec() is None,
            },
    {
        match &self.spectral {
            Some(s) => Some(s),
            None => None,
        }
    }

    /// Mutable look up of the spectral stream; changes made through it become
    /// the spectral stream, and the float streams stay as they are.
    pub fn spectral_mut(&mut self) -> (out: Option<&mut SpectralStreamSeries<T>>)
        ensures
            out matches Some(r) ==> old(self).spectral_spec() == Some(*r) && final(self).spectral_spec() == Some(*final(r)),
            out is None ==> old(self).spectral_spec() is None && final(self).spectral_spec() is None,
            forall|k: AnalysisKind| #[trigger] final(self).float_spec(k) == old(self).float_spec(k),
    {
        match &mut self.spectral {
            Some(s) => Some(s),
            None => None,
        }
    }

    /// The spectral stream, replaced by a fresh one (with the analyser's
    /// shape) when there is none or its channel count differs.
    pub fn ensure_spectral(
        &mut self,
        channel_count: usize,
        hop: usize,
        fft_size: usize,
        band_count: usize,
        floor: T,
    ) -> (out: &mut SpectralStreamSeries<T>)
        ensures
            old(self).spectral_spec() matches Some(s) ==> (s.channels@.len() == channel_count ==> *out == s),
            !(old(self).spectral_spec() matches Some(s) && s.channels@.len() == channel_count)
                ==> is_fresh_spectral(*out, channel_count, hop, fft_size, band_count, floor),
            final(self).spectral_spec() == Some(*final(out)),
            forall|k: AnalysisKind| #[trigger] final(self).float_spec(k) == old(self).float_spec(k),
    {
        let value = match self.spectral.take() {
            Some(s) => {
                if s.channels.len() == channel_count {
                    s
                } else {
                    SpectralStreamSeries::empty(channel_count, hop, fft_size, band_count, floor)
                }
            },
            None => SpectralStreamSeries::empty(channel_count, hop, fft_size, band_count, floor),
        };
        self.spectral.insert(value)
    }
    /// Whether envelope-peak data covers the composition length with
    /// `channel_count` channels.
    pub fn envelope_peak_ready(&self, frames: u64, channel_count: usize) -> (out: bool)
        ensures
            out == (self.float_spec(AnalysisKind::EnvelopePeak) matches Some(s)
                && s.channels@.len() == channel_count && s.covers_spec(frames)),
    {
        match self.float(AnalysisKind::EnvelopePeak) {
            Some(s) => s.channels.len() == channel_count && s.covers(frames),
            None => false,
        }
    }

    /// Whether any envelope-peak bins of `channel_count` channels are
    /// available to paint.
    pub fn envelope_peak_has_data(&self, channel_count: usize) -> (out: bool)
        ensures
            out == (self.float_spec(AnalysisKind::EnvelopePeak) matches Some(s)
                && s.channels@.len() == channel_count && s.has_data_spec()),
    {
        match self.float(AnalysisKind::EnvelopePeak) {
            Some(s) => s.channels.len() == channel_count && s.has_data(),
            None => false,
        }
    }

    /// Whether spectral data covers the composition length (with the
    /// analyser's `band_count`).
    pub fn spectral_ready(&self, frames: u64, channel_count: usize, band_count: usize) -> (out: bool)
        ensures
            out == (self.spectral_spec() matches Some(s) && s.covers_spec(frames, channel_count, band_count)),
    {
        match &self.spectral {
            Some(s) => s.covers(frames, channel_count, band_count),
            None => false,
        }
    }

    /// Whether any spectral hops of `channel_count` channels are available to paint.
    pub fn spectral_has_data(&self, channel_count: usize) -> (out: bool)
        ensures
            out == (self.spectral_spec() matches Some(s) && s.channels@.len() == channel_count && s.has_data_spec()),
    {
        match &self.spectral {
            Some(s) => s.channels.len() == channel_count && s.has_data(),
            None => false,
        }
    }
}

impl<T: Copy> Default for AnalysisStreams<T> {
    /// No streams yet.
    fn default() -> (out: Self)
        ensures
            forall|k: AnalysisKind| (#[trigger] out.float_spec(k)) is None,
            out.spectral_spec() is None,
    {
        AnalysisStreams { float_streams: Vec::new(), spectral: None }
    }
}

} // verus!
