use vstd::prelude::*;
use crate::audio::{Audio, Mode, Sample};
use crate::error::AnalysisError;

verus! {

/// Fixed-point value standing for an amplitude or reference value of one.
/// Reference-tone samples handed to the correlator lie in
/// `[-REFERENCE_UNIT, REFERENCE_UNIT]`, and so do amplitudes.
pub const REFERENCE_UNIT: i64 = 0x10_0000;

/// Largest magnitude a per-sample correlation value can reach: the product
/// of a full-scale amplitude and a full-scale reference value.
pub const PRODUCT_LIMIT: i64 = 0x100_0000_0000;

/// Largest symbol window the integrator accepts; keeps every window sum of
/// per-sample values within `i64`.
pub const WINDOW_LIMIT: usize = 0x40_0000;

/// Fixed lead-in skipped before analysis begins, in samples, letting
/// transient and settling samples pass.
pub const GUARD_OFFSET: usize = 500;

/// Per-sample correlation result.  `signal_power` is the rounded-down
/// magnitude of the `(sin, cos)` pair; `symbol_count` is the elapsed time in
/// thousandths of a symbol.
#[derive(Debug, Copy, Clone, PartialEq, Eq, Structural)]
pub struct SampleCalculation {
    pub signal_power: u64,
    pub symbol_count: u64,
    pub sin: i64,
    pub cos: i64,
}

/// Sum of the per-sample values over one symbol window, with the magnitude
/// of the summed pair.
#[derive(Debug, Copy, Clone, PartialEq, Eq, Structural)]
pub struct WindowCalculation {
    pub signal_power: u64,
    pub sin: i64,
    pub cos: i64,
}

/// One per-sample result paired with the window integration that starts at
/// the same index.
#[derive(Debug, Copy, Clone, PartialEq, Eq, Structural)]
pub struct Calculation {
    pub sample: SampleCalculation,
    pub window: WindowCalculation,
}

impl Calculation {
    fn new(sample: SampleCalculation, window: WindowCalculation) -> (r: Calculation)
        ensures
            r.sample == sample,
            r.window == window,
    {
        Calculation { sample, window }
    }
}

/// `r` is the square root of `n`, rounded down.
pub open spec fn is_floor_sqrt(n: int, r: int) -> bool {
    r >= 0 && r * r <= n && n < (r + 1) * (r + 1)
}

/// Square root of `n`, rounded down, by bisection.
pub fn isqrt_u128(n: u128) -> (r: u64)
    ensures
        is_floor_sqrt(n as int, r as int),
{
    let mut lo: u128 = 0;
    let mut hi: u128 = 0x1_0000_0000_0000_0000;
    proof {
        assert((n as int) < 0x1_0000_0000_0000_0000int * 0x1_0000_0000_0000_0000int);
    }
    while lo + 1 < hi
        invariant
            lo < hi <= 0x1_0000_0000_0000_0000,
            (lo as int) * (lo as int) <= n as int,
            (n as int) < (hi as int) * (hi as int),
        decreases hi - lo,
    {
        let mid = lo + (hi - lo) / 2;
        proof {
            assert((mid as int) * (mid as int) <= 0xffff_ffff_ffff_ffffint
                * 0xffff_ffff_ffff_ffffint) by (nonlinear_arith)
                requires
                    0 <= mid as int <= 0xffff_ffff_ffff_ffffint,
            ;
        }
        if mid * mid <= n {
            lo = mid;
        } else {
            hi = mid;
        }
    }
    lo as u64
}

/// Sum of the entries of `s` with indices in `[from, to)`.
pub open spec fn span_sum(s: Seq<int>, from: int, to: int) -> int
    decreases to - from,
{
    if from >= to {
        0
    } else {
        s[from] + span_sum(s, from + 1, to)
    }
}

/// A span's sum grows by the entering entry at its right edge.
pub proof fn lemma_span_sum_extend(s: Seq<int>, from: int, to: int)
    requires
        from <= to,
    ensures
        span_sum(s, from, to + 1) == span_sum(s, from, to) + s[to],
    decreases to - from,
{
    if from < to {
        lemma_span_sum_extend(s, from + 1, to);
        assert(span_sum(s, from, to + 1) == s[from] + span_sum(s, from + 1, to + 1));
        assert(span_sum(s, from, to) == s[from] + span_sum(s, from + 1, to));
    } else {
        assert(span_sum(s, to + 1, to + 1) == 0);
        assert(span_sum(s, from, to + 1) == s[to] + span_sum(s, to + 1, to + 1));
    }
}

/// A span's sum stays within the span length times a bound on its entries.
pub proof fn lemma_span_sum_bound(s: Seq<int>, from: int, to: int, m: int)
    requires
        from <= to,
        m >= 0,
        forall|k: int| from <= k < to ==> -m <= #[trigger] s[k] <= m,
    ensures
        -(to - from) * m <= span_sum(s, from, to) <= (to - from) * m,
    decreases to - from,
{
    if from < to {
        lemma_span_sum_bound(s, from + 1, to, m);
        assert((to - from) * m == m + (to - from - 1) * m) by (nonlinear_arith);
        assert(-(to - from) * m == -m + -(to - from - 1) * m) by (nonlinear_arith);
    }
}

/// What one per-sample correlation record must hold: the reference pair
/// scaled by the amplitude, the rounded-down magnitude of that pair, and the
/// elapsed time in thousandths of a symbol.
pub open spec fn sample_calc_ok(
    c: SampleCalculation,
    amp: i64,
    refv: Sample,
    k: int,
    baud: int,
    rate: int,
) -> bool {
    &&& c.sin == refv.sin * amp
    &&& c.cos == refv.cos * amp
    &&& is_floor_sqrt(c.sin * c.sin + c.cos * c.cos, c.signal_power as int)
    &&& c.symbol_count == k * baud * 1000 / rate
}

/// The in-phase parts of a per-sample correlation sequence.
pub open spec fn sins_of(s: Seq<SampleCalculation>) -> Seq<int> {
    Seq::new(s.len(), |k: int| s[k].sin as int)
}

/// The quadrature parts of a per-sample correlation sequence.
pub open spec fn coss_of(s: Seq<SampleCalculation>) -> Seq<int> {
    Seq::new(s.len(), |k: int| s[k].cos as int)
}

/// Correlates one amplitude against one reference pair, with the magnitude
/// of the correlated pair.
fn correlate_one(amp: i64, refv: Sample) -> (c: (i64, i64, u64))
    requires
        -REFERENCE_UNIT <= amp <= REFERENCE_UNIT,
        -REFERENCE_UNIT <= refv.sin <= REFERENCE_UNIT,
        -REFERENCE_UNIT <= refv.cos <= REFERENCE_UNIT,
    ensures
        c.0 == refv.sin * amp,
        c.1 == refv.cos * amp,
        -PRODUCT_LIMIT <= c.0 <= PRODUCT_LIMIT,
        -PRODUCT_LIMIT <= c.1 <= PRODUCT_LIMIT,
        is_floor_sqrt(c.0 * c.0 + c.1 * c.1, c.2 as int),
{
    proof {
        assert(-0x100_0000_0000int <= (refv.sin as int) * (amp as int) <= 0x100_0000_0000int
            && -0x100_0000_0000int <= (refv.cos as int) * (amp as int) <= 0x100_0000_0000int)
            by (nonlinear_arith)
            requires
                -0x10_0000 <= amp <= 0x10_0000,
                -0x10_0000 <= refv.sin <= 0x10_0000,
                -0x10_0000 <= refv.cos <= 0x10_0000,
        ;
    }
    let sin: i64 = refv.sin * amp;
    let cos: i64 = refv.cos * amp;
    proof {
        assert(0 <= (sin as i128) * (sin as i128) <= 0x100_0000_0000int * 0x100_0000_0000int && 0
            <= (cos as i128) * (cos as i128) <= 0x100_0000_0000int * 0x100_0000_0000int)
            by (nonlinear_arith)
            requires
                -0x100_0000_0000 <= sin as i128 <= 0x100_0000_0000,
                -0x100_0000_0000 <= cos as i128 <= 0x100_0000_0000,
        ;
    }
    let energy: i128 = (sin as i128) * (sin as i128) + (cos as i128) * (cos as i128);
    let power = isqrt_u128(energy as u128);
    (sin, cos, power)
}

/// Pass 1 of the detector, over a span whose entry `k` is `reference[k]`
/// scaled by `amplitudes[k]`: per-sample coherent correlation records in
/// index order.
pub fn sample_calculations(
    amplitudes: &[i64],
    reference: &[Sample],
    mode: Mode,
    sample_rate: usize,
) -> (r: Vec<SampleCalculation>)
    requires
        reference@.len() == amplitudes@.len(),
        amplitudes@.len() <= 0x100_0000_0000,
        sample_rate >= 1,
        forall|k: int|
            0 <= k < amplitudes@.len() ==> -REFERENCE_UNIT <= #[trigger] amplitudes@[k]
                <= REFERENCE_UNIT,
        forall|k: int|
            0 <= k < reference@.len() ==> -REFERENCE_UNIT <= (#[trigger] reference@[k]).sin
                <= REFERENCE_UNIT && -REFERENCE_UNIT <= reference@[k].cos <= REFERENCE_UNIT,
    ensures
        r@.len() == amplitudes@.len(),
        forall|k: int|
            0 <= k < r@.len() ==> sample_calc_ok(
                #[trigger] r@[k],
                amplitudes@[k],
                reference@[k],
                k,
                mode.spec_baud_rate() as int,
                sample_rate as int,
            ),
{
    let n = amplitudes.len();
    let baud = mode.baud_rate();
    let mut out: Vec<SampleCalculation> = Vec::new();
    let mut k: usize = 0;
    while k < n
        invariant
            k <= n,
            n == amplitudes@.len(),
            n == reference@.len(),
            n <= 0x100_0000_0000,
            sample_rate >= 1,
            baud == mode.spec_baud_rate(),
            baud <= 20,
            out@.len() == k as int,
            forall|m: int|
                0 <= m < n ==> -REFERENCE_UNIT <= #[trigger] amplitudes@[m] <= REFERENCE_UNIT,
            forall|m: int|
                0 <= m < n ==> -REFERENCE_UNIT <= (#[trigger] reference@[m]).sin <= REFERENCE_UNIT
                    && -REFERENCE_UNIT <= reference@[m].cos <= REFERENCE_UNIT,
            forall|m: int|
                0 <= m < k ==> sample_calc_ok(
                    #[trigger] out@[m],
                    amplitudes@[m],
                    reference@[m],
                    m,
                    mode.spec_baud_rate() as int,
                    sample_rate as int,
                ),
        decreases n - k,
    {
        let (sin, cos, power) = correlate_one(amplitudes[k], reference[k]);
        proof {
            assert(0 <= (k as int) * (baud as int) <= 0x100_0000_0000int * 20) by (nonlinear_arith)
                requires
                    0 <= k as int <= 0x100_0000_0000,
                    0 <= baud as int <= 20,
            ;
        }
        let symbol_count: u64 = (k as u64) * (baud as u64) * 1000 / (sample_rate as u64);
        out.push(SampleCalculation { signal_power: power, symbol_count, sin, cos });
        k = k + 1;
    }
    out
}

/// What one window-integration record must hold at window start `i`: the
/// sums of the per-sample pairs over `[i, i + wsize)`, and the rounded-down
/// magnitude of the summed pair.
pub open spec fn window_calc_ok(
    w: WindowCalculation,
    sins: Seq<int>,
    coss: Seq<int>,
    i: int,
    wsize: int,
) -> bool {
    &&& w.sin == span_sum(sins, i, i + wsize)
    &&& w.cos == span_sum(coss, i, i + wsize)
    &&& is_floor_sqrt(w.sin * w.sin + w.cos * w.cos, w.signal_power as int)
}

/// Magnitude of a summed window pair, rounded down.
fn window_power(sin_sum: i64, cos_sum: i64) -> (p: u64)
    requires
        -0x4000_0000_0000_0000 <= sin_sum <= 0x4000_0000_0000_0000,
        -0x4000_0000_0000_0000 <= cos_sum <= 0x4000_0000_0000_0000,
    ensures
        is_floor_sqrt(sin_sum * sin_sum + cos_sum * cos_sum, p as int),
{
    proof {
        assert(0 <= (sin_sum as i128) * (sin_sum as i128) <= 0x4000_0000_0000_0000int
            * 0x4000_0000_0000_0000int && 0 <= (cos_sum as i128) * (cos_sum as i128)
            <= 0x4000_0000_0000_0000int * 0x4000_0000_0000_0000int) by (nonlinear_arith)
            requires
                -0x4000_0000_0000_0000 <= sin_sum as i128 <= 0x4000_0000_0000_0000,
                -0x4000_0000_0000_0000 <= cos_sum as i128 <= 0x4000_0000_0000_0000,
        ;
    }
    let energy: i128 = (sin_sum as i128) * (sin_sum as i128) + (cos_sum as i128) * (cos_sum
        as i128);
    isqrt_u128(energy as u128)
}

/// Pass 2 of the detector: for every contiguous run of `window_size`
/// per-sample records, sliding by one sample each step, the sums of the
/// in-phase and quadrature parts with the summed pair's magnitude.  The
/// running sums are kept incrementally: each step adds the entering sample
/// and removes the leaving one.
pub fn window_calculations(samples: &Vec<SampleCalculation>, window_size: usize) -> (r: Result<
    Vec<WindowCalculation>,
    AnalysisError,
>)
    requires
        window_size <= WINDOW_LIMIT,
        forall|k: int|
            0 <= k < samples@.len() ==> -PRODUCT_LIMIT <= (#[trigger] samples@[k]).sin
                <= PRODUCT_LIMIT && -PRODUCT_LIMIT <= samples@[k].cos <= PRODUCT_LIMIT,
    ensures
        match r {
            Ok(v) => window_size >= 1 && samples@.len() >= window_size && v@.len() == samples@.len()
                - window_size + 1 && forall|i: int|
                0 <= i < v@.len() ==> window_calc_ok(
                    #[trigger] v@[i],
                    sins_of(samples@),
                    coss_of(samples@),
                    i,
                    window_size as int,
                ),
            Err(e) => (e == AnalysisError::EmptyWindow && window_size == 0) || (e
                == AnalysisError::InsufficientSamples && window_size >= 1 && samples@.len()
                < window_size),
        },
{
    if window_size == 0 {
        return Err(AnalysisError::EmptyWindow);
    }
    let n = samples.len();
    if n < window_size {
        return Err(AnalysisError::InsufficientSamples);
    }
    let ghost sins = sins_of(samples@);
    let ghost coss = coss_of(samples@);
    proof {
        assert(forall|m: int|
            0 <= m < n ==> -PRODUCT_LIMIT <= #[trigger] sins[m] <= PRODUCT_LIMIT);
        assert(forall|m: int|
            0 <= m < n ==> -PRODUCT_LIMIT <= #[trigger] coss[m] <= PRODUCT_LIMIT);
    }
    let mut sin_sum: i64 = 0;
    let mut cos_sum: i64 = 0;
    let mut k: usize = 0;
    while k < window_size
        invariant
            k <= window_size <= n,
            window_size <= 0x40_0000,
            n == samples@.len(),
            sins == sins_of(samples@),
            coss == coss_of(samples@),
            forall|m: int| 0 <= m < n ==> -PRODUCT_LIMIT <= #[trigger] sins[m] <= PRODUCT_LIMIT,
            forall|m: int| 0 <= m < n ==> -PRODUCT_LIMIT <= #[trigger] coss[m] <= PRODUCT_LIMIT,
            sin_sum == span_sum(sins, 0, k as int),
            cos_sum == span_sum(coss, 0, k as int),
        decreases window_size - k,
    {
        proof {
            lemma_span_sum_extend(sins, 0, k as int);
            lemma_span_sum_extend(coss, 0, k as int);
            lemma_span_sum_bound(sins, 0, k + 1, PRODUCT_LIMIT as int);
            lemma_span_sum_bound(coss, 0, k + 1, PRODUCT_LIMIT as int);
            assert((k + 1) * (PRODUCT_LIMIT as int) <= 0x40_0000int * 0x100_0000_0000int)
                by (nonlinear_arith)
                requires
                    0 <= k + 1 <= 0x40_0000int,
            ;
        }
        sin_sum = sin_sum + samples[k].sin;
        cos_sum = cos_sum + samples[k].cos;
        k = k + 1;
    }
    let count = n - window_size + 1;
    let mut out: Vec<WindowCalculation> = Vec::new();
    let mut i: usize = 0;
    while i < count
        invariant
            count == n - window_size + 1,
            1 <= window_size <= n,
            window_size <= 0x40_0000,
            n == samples@.len(),
            sins == sins_of(samples@),
            coss == coss_of(samples@),
            forall|m: int| 0 <= m < n ==> -PRODUCT_LIMIT <= #[trigger] sins[m] <= PRODUCT_LIMIT,
            forall|m: int| 0 <= m < n ==> -PRODUCT_LIMIT <= #[trigger] coss[m] <= PRODUCT_LIMIT,
            i <= count,
            out@.len() == i as int,
            i < count ==> sin_sum == span_sum(sins, i as int, i + window_size),
            i < count ==> cos_sum == span_sum(coss, i as int, i + window_size),
            forall|m: int|
                0 <= m < i ==> window_calc_ok(
                    #[trigger] out@[m],
                    sins,
                    coss,
                    m,
                    window_size as int,
                ),
        decreases count - i,
    {
        proof {
            lemma_span_sum_bound(sins, i as int, i + window_size, PRODUCT_LIMIT as int);
            lemma_span_sum_bound(coss, i as int, i + window_size, PRODUCT_LIMIT as int);
            assert((window_size as int) * (PRODUCT_LIMIT as int) <= 0x4000_0000_0000_0000int)
                by (nonlinear_arith)
                requires
                    0 <= window_size as int <= 0x40_0000int,
            ;
        }
        let power = window_power(sin_sum, cos_sum);
        out.push(WindowCalculation { signal_power: power, sin: sin_sum, cos: cos_sum });
        if i + 1 < count {
            proof {
                lemma_span_sum_extend(sins, i + 1, i + window_size);
                lemma_span_sum_extend(coss, i + 1, i + window_size);
                lemma_span_sum_bound(sins, i + 1, i + window_size, PRODUCT_LIMIT as int);
                lemma_span_sum_bound(coss, i + 1, i + window_size, PRODUCT_LIMIT as int);
                assert((window_size as int - 1) * (PRODUCT_LIMIT as int) + (PRODUCT_LIMIT as int)
                    == (window_size as int) * (PRODUCT_LIMIT as int) && (window_size as int) * (
                PRODUCT_LIMIT as int) <= 0x4000_0000_0000_0000int) by (nonlinear_arith)
                    requires
                        1 <= window_size as int <= 0x40_0000int,
                ;
            }
            sin_sum = sin_sum - samples[i].sin + samples[i + window_size].sin;
            cos_sum = cos_sum - samples[i].cos + samples[i + window_size].cos;
        }
        i = i + 1;
    }
    Ok(out)
}

/// The in-phase correlation values formed from a reference span and an
/// amplitude span of the same length.
pub open spec fn sin_seq(refs: Seq<Sample>, amps: Seq<i64>) -> Seq<int> {
    Seq::new(refs.len(), |k: int| refs[k].sin * amps[k])
}

/// The quadrature correlation values formed from a reference span and an
/// amplitude span of the same length.
pub open spec fn cos_seq(refs: Seq<Sample>, amps: Seq<i64>) -> Seq<int> {
    Seq::new(refs.len(), |k: int| refs[k].cos * amps[k])
}

impl Audio {
    /// Per-index coherent correlation of this buffer against an already
    /// evaluated reference tone: entry `k` is the reference pair at `k`
    /// scaled by amplitude `k`.
    pub fn sin_cos_at_freq(&self, reference: &[Sample]) -> (r: Vec<Sample>)
        requires
            reference@.len() == self.data@.len(),
            forall|k: int|
                0 <= k < self.data@.len() ==> -REFERENCE_UNIT <= #[trigger] self.data@[k]
                    <= REFERENCE_UNIT,
            forall|k: int|
                0 <= k < reference@.len() ==> -REFERENCE_UNIT <= (#[trigger] reference@[k]).sin
                    <= REFERENCE_UNIT && -REFERENCE_UNIT <= reference@[k].cos <= REFERENCE_UNIT,
        ensures
            r@.len() == self.data@.len(),
            forall|k: int|
                0 <= k < r@.len() ==> (#[trigger] r@[k]).sin == reference@[k].sin * self.data@[k]
                    && r@[k].cos == reference@[k].cos * self.data@[k],
    {
        let n = self.data.len();
        let mut out: Vec<Sample> = Vec::new();
        let mut k: usize = 0;
        while k < n
            invariant
                k <= n,
                n == self.data@.len(),
                n == reference@.len(),
                out@.len() == k as int,
                forall|m: int|
                    0 <= m < n ==> -REFERENCE_UNIT <= #[trigger] self.data@[m] <= REFERENCE_UNIT,
                forall|m: int|
                    0 <= m < n ==> -REFERENCE_UNIT <= (#[trigger] reference@[m]).sin
                        <= REFERENCE_UNIT && -REFERENCE_UNIT <= reference@[m].cos <= REFERENCE_UNIT,
                forall|m: int|
                    0 <= m < k ==> (#[trigger] out@[m]).sin == reference@[m].sin * self.data@[m]
                        && out@[m].cos == reference@[m].cos * self.data@[m],
            decreases n - k,
        {
            let amp = self.data[k];
            let refv = reference[k];
            proof {
                assert(-0x100_0000_0000int <= (refv.sin as int) * (amp as int)
                    <= 0x100_0000_0000int && -0x100_0000_0000int <= (refv.cos as int) * (amp
                    as int) <= 0x100_0000_0000int) by (nonlinear_arith)
                    requires
                        -0x10_0000 <= amp <= 0x10_0000,
                        -0x10_0000 <= refv.sin <= 0x10_0000,
                        -0x10_0000 <= refv.cos <= 0x10_0000,
                ;
            }
            out.push(Sample { sin: refv.sin * amp, cos: refv.cos * amp });
            k = k + 1;
        }
        out
    }
}

/// Full detector run: skips the fixed lead-in past `start`, correlates each
/// remaining sample against the reference tone, integrates every
/// window-length run of those records, and pairs the two sequences in index
/// order, truncated to the shorter one.
pub fn signal_calculations(audio: &Audio, reference: &[Sample], start: usize) -> (r: Result<
    Vec<Calculation>,
    AnalysisError,
>)
    requires
        audio.data@.len() <= 0x100_0000_0000,
        start + GUARD_OFFSET <= usize::MAX,
        audio.spec_window_size() <= WINDOW_LIMIT,
        audio.spec_window_size() >= 1 && audio.data@.len() >= start + GUARD_OFFSET
            ==> reference@.len() == audio.data@.len() - start - GUARD_OFFSET,
        forall|k: int|
            0 <= k < audio.data@.len() ==> -REFERENCE_UNIT <= #[trigger] audio.data@[k]
                <= REFERENCE_UNIT,
        forall|k: int|
            0 <= k < reference@.len() ==> -REFERENCE_UNIT <= (#[trigger] reference@[k]).sin
                <= REFERENCE_UNIT && -REFERENCE_UNIT <= reference@[k].cos <= REFERENCE_UNIT,
    ensures
        match r {
            Ok(v) => {
                &&& audio.spec_window_size() >= 1
                &&& audio.data@.len() >= start + GUARD_OFFSET + audio.spec_window_size()
                &&& v@.len() == audio.data@.len() - start - GUARD_OFFSET
                    - audio.spec_window_size() + 1
                &&& forall|i: int|
                    0 <= i < v@.len() ==> sample_calc_ok(
                        (#[trigger] v@[i]).sample,
                        audio.data@[start + GUARD_OFFSET + i],
                        reference@[i],
                        i,
                        audio.mode.spec_baud_rate() as int,
                        audio.sample_rate as int,
                    )
                &&& forall|i: int|
                    0 <= i < v@.len() ==> window_calc_ok(
                        (#[trigger] v@[i]).window,
                        sin_seq(
                            reference@,
                            audio.data@.subrange(
                                start + GUARD_OFFSET,
                                audio.data@.len() as int,
                            ),
                        ),
                        cos_seq(
                            reference@,
                            audio.data@.subrange(
                                start + GUARD_OFFSET,
                                audio.data@.len() as int,
                            ),
                        ),
                        i,
                        audio.spec_window_size(),
                    )
            },
            Err(e) => (e == AnalysisError::EmptyWindow && audio.spec_window_size() == 0) || (e
                == AnalysisError::InsufficientSamples && audio.spec_window_size() >= 1
                && audio.data@.len() < start + GUARD_OFFSET + audio.spec_window_size()),
        },
{
    let w = audio.mode.window_size(audio.sample_rate);
    if w == 0 {
        return Err(AnalysisError::EmptyWindow);
    }
    let len = audio.data.len();
    if len < start || len - start < GUARD_OFFSET || len - start - GUARD_OFFSET < w {
        return Err(AnalysisError::InsufficientSamples);
    }
    let absolute = start + GUARD_OFFSET;
    let amps = vstd::slice::slice_subrange(audio.data.as_slice(), absolute, len);
    proof {
        assert(audio.sample_rate >= 1);
        assert(forall|k: int|
            0 <= k < amps@.len() ==> -REFERENCE_UNIT <= #[trigger] amps@[k] <= REFERENCE_UNIT);
    }
    let samples = sample_calculations(amps, reference, audio.mode, audio.sample_rate);
    proof {
        assert forall|k: int|
            0 <= k < samples@.len() implies -PRODUCT_LIMIT <= (#[trigger] samples@[k]).sin
            <= PRODUCT_LIMIT && -PRODUCT_LIMIT <= samples@[k].cos <= PRODUCT_LIMIT by {
            assert(-0x100_0000_0000int <= (reference@[k].sin as int) * (amps@[k] as int)
                <= 0x100_0000_0000int && -0x100_0000_0000int <= (reference@[k].cos as int) * (
            amps@[k] as int) <= 0x100_0000_0000int) by (nonlinear_arith)
                requires
                    -0x10_0000 <= amps@[k] <= 0x10_0000,
                    -0x10_0000 <= reference@[k].sin <= 0x10_0000,
                    -0x10_0000 <= reference@[k].cos <= 0x10_0000,
            ;
        }
    }
    let windows = match window_calculations(&samples, w) {
        Ok(ws) => ws,
        Err(_) => {
            proof {
                assert(false);
            }
            return Err(AnalysisError::InsufficientSamples);
        },
    };
    let count = windows.len();
    let mut out: Vec<Calculation> = Vec::new();
    let mut i: usize = 0;
    while i < count
        invariant
            count == windows@.len(),
            count <= samples@.len(),
            i <= count,
            out@.len() == i as int,
            forall|m: int|
                0 <= m < i ==> (#[trigger] out@[m]).sample == samples@[m] && out@[m].window
                    == windows@[m],
        decreases count - i,
    {
        out.push(Calculation::new(samples[i], windows[i]));
        i = i + 1;
    }
    proof {
        assert(sins_of(samples@) =~= sin_seq(reference@, amps@));
        assert(coss_of(samples@) =~= cos_seq(reference@, amps@));
        assert(amps@ =~= audio.data@.subrange(start + GUARD_OFFSET, audio.data@.len() as int));
    }
    Ok(out)
}

/// Per-sample correlation keeps the signal's energy: against a reference
/// pair of magnitude `unit`, the correlated pair's summed squares reproduce
/// the amplitude's square, scaled by the square of `unit`.
pub proof fn lemma_correlation_energy(amp: int, ref_sin: int, ref_cos: int, unit: int)
    by (nonlinear_arith)
    requires
        ref_sin * ref_sin + ref_cos * ref_cos == unit * unit,
    ensures
        (ref_sin * amp) * (ref_sin * amp) + (ref_cos * amp) * (ref_cos * amp) == (amp * unit) * (
        amp * unit),
{
}

} // verus!
