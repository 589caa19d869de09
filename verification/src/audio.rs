use vstd::prelude::*;
use vstd::slice::{slice_subrange, slice_to_vec};
use crate::error::AnalysisError;

verus! {

/// One instant's in-phase/quadrature pair, in fixed-point units: a
/// reference-tone value, or one sample's correlation contribution.
#[derive(Debug, Copy, Clone, PartialEq, Eq, Structural)]
pub struct Sample {
    pub sin: i64,
    pub cos: i64,
}

/// Transmission mode, fixing the symbol (baud) rate.
#[derive(Debug, Copy, Clone, PartialEq, Eq, Structural)]
pub enum Mode {
    OneK,
    TwoK,
}

impl Mode {
    /// Symbols per second for this mode.
    pub open spec fn spec_baud_rate(self) -> usize {
        match self {
            Mode::OneK => 10,
            Mode::TwoK => 20,
        }
    }

    pub fn baud_rate(&self) -> (r: usize)
        ensures
            r == self.spec_baud_rate(),
    {
        match self {
            Mode::OneK => 10,
            Mode::TwoK => 20,
        }
    }

    /// Duration of one transmitted symbol, in milliseconds.
    pub fn symbol_interval(&self) -> (r: usize)
        ensures
            r * self.spec_baud_rate() == 1000,
    {
        1000 / self.baud_rate()
    }

    /// Number of samples that span one symbol at the given sample rate.
    pub fn window_size(&self, sample_rate: usize) -> (r: usize)
        ensures
            r == sample_rate / self.spec_baud_rate(),
    {
        sample_rate / self.baud_rate()
    }
}

impl Default for Mode {
    /// The mode assumed when none is chosen.
    fn default() -> (r: Mode)
        ensures
            r == Mode::TwoK,
    {
        Mode::TwoK
    }
}

/// A non-owning view over a contiguous span of a sample buffer, tagged with
/// the buffer's sample rate.  Amplitudes are fixed-point integers.
#[derive(Debug, Copy, Clone)]
pub struct AudioWindow<'audio> {
    pub data: &'audio [i64],
    pub sample_rate: usize,
}

impl<'audio> View for AudioWindow<'audio> {
    type V = Seq<i64>;

    open spec fn view(&self) -> Seq<i64> {
        self.data@
    }
}

impl<'audio> AudioWindow<'audio> {
    pub fn len(&self) -> (r: usize)
        ensures
            r == self@.len(),
    {
        self.data.len()
    }

    pub fn is_empty(&self) -> (r: bool)
        ensures
            r == (self@.len() == 0),
    {
        self.data.len() == 0
    }

    /// Copies the viewed span into a window that owns its data, so the
    /// result can outlive the parent buffer.
    pub fn to_owned(&self) -> (r: OwnedAudioWindow)
        ensures
            r@ == self@,
            r.sample_rate == self.sample_rate,
    {
        OwnedAudioWindow { data: slice_to_vec(self.data), sample_rate: self.sample_rate }
    }

    /// Elementwise difference of two equal-length windows, as a new owned
    /// window carrying the sample rate of `self`; fails with `ShapeMismatch`
    /// exactly when the lengths differ.
    pub fn difference(&self, other: &AudioWindow) -> (r: Result<OwnedAudioWindow, AnalysisError>)
        requires
            self@.len() == other@.len() ==> forall|k: int|
                #![trigger self@[k]]
                0 <= k < self@.len() ==> i64::MIN <= self@[k] - other@[k] <= i64::MAX,
        ensures
            match r {
                Ok(w) => self@.len() == other@.len() && w.sample_rate == self.sample_rate
                    && w@.len() == self@.len() && forall|k: int|
                    0 <= k < self@.len() ==> w@[k] == self@[k] - other@[k],
                Err(e) => e == AnalysisError::ShapeMismatch && self@.len() != other@.len(),
            },
    {
        if self.data.len() != other.data.len() {
            return Err(AnalysisError::ShapeMismatch);
        }
        let n = self.data.len();
        let mut data: Vec<i64> = Vec::new();
        let mut k: usize = 0;
        while k < n
            invariant
                k <= n,
                n == self@.len(),
                n == other@.len(),
                data@.len() == k as int,
                forall|m: int| 0 <= m < k ==> data@[m] == self@[m] - other@[m],
                forall|m: int|
                    #![trigger self@[m]]
                    0 <= m < n ==> i64::MIN <= self@[m] - other@[m] <= i64::MAX,
            decreases n - k,
        {
            data.push(self.data[k] - other.data[k]);
            k = k + 1;
        }
        Ok(OwnedAudioWindow { data, sample_rate: self.sample_rate })
    }
}

/// Any span that satisfies the difference contract against itself is all
/// zero, for every window.
pub proof fn lemma_self_difference_zero(a: Seq<i64>, d: Seq<i64>)
    requires
        d.len() == a.len(),
        forall|k: int| 0 <= k < a.len() ==> d[k] == a[k] - a[k],
    ensures
        forall|k: int| 0 <= k < d.len() ==> d[k] == 0,
{
}

/// A window over a contiguous span of samples that owns its data.
#[derive(Debug, Clone)]
pub struct OwnedAudioWindow {
    pub data: Vec<i64>,
    pub sample_rate: usize,
}

impl View for OwnedAudioWindow {
    type V = Seq<i64>;

    open spec fn view(&self) -> Seq<i64> {
        self.data@
    }
}

impl OwnedAudioWindow {
    /// Borrows this window's data as a non-owning window.
    pub fn as_audio_window(&self) -> (r: AudioWindow<'_>)
        ensures
            r@ == self@,
            r.sample_rate == self.sample_rate,
    {
        AudioWindow { data: self.data.as_slice(), sample_rate: self.sample_rate }
    }
}

/// A whole decoded sample buffer with its sample rate and the mode under
/// which it is analysed.
#[derive(Debug)]
pub struct Audio {
    pub data: Vec<i64>,
    pub sample_rate: usize,
    pub mode: Mode,
}

impl Audio {
    /// Samples per symbol window for this buffer's rate and mode.
    pub open spec fn spec_window_size(self) -> int {
        self.sample_rate as int / self.mode.spec_baud_rate() as int
    }

    pub fn new(data: Vec<i64>, sample_rate: usize) -> (r: Audio)
        ensures
            r.data@ == data@,
            r.sample_rate == sample_rate,
            r.mode == Mode::TwoK,
    {
        Audio { data, sample_rate, mode: Mode::default() }
    }

    fn window_size(&self) -> (r: usize)
        ensures
            r == self.spec_window_size(),
    {
        self.mode.window_size(self.sample_rate)
    }

    /// A borrowed view of exactly one symbol window of samples starting at
    /// `sample_offset`; fails with `OutOfRange` exactly when the buffer ends
    /// before the window would.
    pub fn window_at(&self, sample_offset: usize) -> (r: Result<
        AudioWindow<'_>,
        AnalysisError,
    >)
        ensures
            match r {
                Ok(w) => sample_offset + self.spec_window_size() <= self.data@.len()
                    && w.sample_rate == self.sample_rate && w@ == self.data@.subrange(
                    sample_offset as int,
                    sample_offset + self.spec_window_size(),
                ),
                Err(e) => e == AnalysisError::OutOfRange && sample_offset
                    + self.spec_window_size() > self.data@.len(),
            },
    {
        let w = self.window_size();
        if sample_offset <= self.data.len() && self.data.len() - sample_offset >= w {
            let data = slice_subrange(self.data.as_slice(), sample_offset, sample_offset + w);
            Ok(AudioWindow { data, sample_rate: self.sample_rate })
        } else {
            Err(AnalysisError::OutOfRange)
        }
    }

    pub fn len(&self) -> (r: usize)
        ensures
            r == self.data@.len(),
    {
        self.data.len()
    }

    pub fn is_empty(&self) -> (r: bool)
        ensures
            r == (self.data@.len() == 0),
    {
        self.data.len() == 0
    }
}

} // verus!
