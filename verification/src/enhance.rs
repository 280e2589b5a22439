//! Signal enhancement over a captured sample buffer.
//!
//! Samples are mono audio in signed fixed-point form: [`SAMPLE_ONE`] stands
//! for full scale (amplitude 1.0). The enhancement runs three stages over a
//! finite buffer: DC-offset removal (subtract the arithmetic mean),
//! a single-pole high-pass filter given by the recurrence
//! `y[n] = a * (y[n-1] + x[n] - x[n-1])`, and peak normalization toward
//! [`TARGET_PEAK`] (about -3 dBFS) with the gain capped at 4x, applied only
//! when it exceeds 1.05, and every output clamped to full scale.
//!
//! The filter coefficient `a` is handed in, also in fixed point
//! ([`COEFF_ONE`] stands for 1.0): for an 80 Hz cutoff it is
//! `exp(-2*pi*80 / sample_rate)`, which stays below [`COEFF_MAX`] for every
//! capture rate below about 500 kHz.

use vstd::arithmetic::div_mod::{
    lemma_div_is_ordered, lemma_div_pos_is_pos, lemma_multiply_divide_le,
};
use vstd::arithmetic::mul::{lemma_mul_inequality, lemma_mul_nonnegative, lemma_mul_upper_bound};
use vstd::prelude::*;

verus! {

/// Fixed-point representation of amplitude 1.0 for samples.
pub const SAMPLE_ONE: i64 = 32768;

/// Largest accepted buffer length (several hours of audio at common rates).
pub const MAX_SAMPLES: usize = 0x4000_0000;

/// Fixed-point representation of 1.0 for the filter coefficient.
pub const COEFF_ONE: i64 = 0x4000_0000;

/// Largest accepted filter coefficient, `COEFF_ONE * (1 - 1/1024)`. The
/// margin keeps the filter's output bounded by [`FILTER_BOUND`].
pub const COEFF_MAX: i64 = 0x4000_0000 - 0x10_0000;

/// Bound on the magnitude of every filtered sample: 4096 times full scale.
pub const FILTER_BOUND: i64 = 0x800_0000;

/// Fixed-point representation of 1.0 for the normalization gain.
pub const GAIN_ONE: i64 = 0x10_0000;

/// Normalization target, about -3 dBFS: `0.707 * SAMPLE_ONE`, rounded down.
pub const TARGET_PEAK: i64 = 23167;

/// Gain cap of 4.0 (+12 dB), in [`GAIN_ONE`] scale.
pub const GAIN_MAX: i64 = 4 * 0x10_0000;

/// Gain is applied only above this threshold of 1.05, in [`GAIN_ONE`] scale.
pub const GAIN_APPLY_MIN: i64 = 1101004;

/// Sum of a sample buffer.
pub open spec fn sum_of(s: Seq<i64>) -> int
    decreases s.len(),
{
    if s.len() == 0 {
        0
    } else {
        sum_of(s.drop_last()) + s.last()
    }
}

/// Division truncating toward zero, as executable division computes it for a
/// positive divisor.
pub open spec fn tdiv(a: int, b: int) -> int {
    if a >= 0 {
        a / b
    } else {
        -((-a) / b)
    }
}

/// Arithmetic mean of a buffer (truncated toward zero), 0 when empty.
pub open spec fn mean_of(s: Seq<i64>) -> int {
    if s.len() == 0 {
        0
    } else {
        tdiv(sum_of(s), s.len() as int)
    }
}

/// The buffer with its mean subtracted from every sample.
pub open spec fn dc_removed(s: Seq<i64>) -> Seq<int> {
    Seq::new(s.len(), |i: int| s[i] - mean_of(s))
}

/// `coeff * t / COEFF_ONE`, truncating toward zero.
pub open spec fn hp_scaled(coeff: int, t: int) -> int {
    tdiv(coeff * t, COEFF_ONE as int)
}

/// The high-pass filter recurrence `y[n] = a*(y[n-1] + x[n] - x[n-1])` with
/// `y[-1] = x[-1] = 0`, in fixed point.
pub open spec fn filtered(xs: Seq<int>, coeff: int) -> Seq<int>
    decreases xs.len(),
{
    if xs.len() == 0 {
        Seq::empty()
    } else {
        let prev = filtered(xs.drop_last(), coeff);
        let y_prev: int = if prev.len() == 0 {
            0
        } else {
            prev.last()
        };
        let x_prev: int = if xs.len() == 1 {
            0
        } else {
            xs[xs.len() - 2]
        };
        prev.push(hp_scaled(coeff, y_prev + xs.last() - x_prev))
    }
}

pub open spec fn abs_of(v: int) -> int {
    if v >= 0 {
        v
    } else {
        -v
    }
}

/// Peak magnitude of the filtered signal, floored at full scale so that
/// near-silent input cannot ask for an unbounded gain.
pub open spec fn peak_of(ys: Seq<int>) -> int
    decreases ys.len(),
{
    if ys.len() == 0 {
        SAMPLE_ONE as int
    } else {
        let p = peak_of(ys.drop_last());
        if abs_of(ys.last()) > p {
            abs_of(ys.last())
        } else {
            p
        }
    }
}

/// Normalization gain for a given (floored) peak: `TARGET_PEAK / peak`,
/// capped at [`GAIN_MAX`].
pub open spec fn gain_of(peak: int) -> int {
    let raw = TARGET_PEAK * GAIN_ONE / peak;
    if raw > GAIN_MAX {
        GAIN_MAX as int
    } else {
        raw
    }
}

/// `v * g / GAIN_ONE`, truncating toward zero.
pub open spec fn gain_scaled(v: int, g: int) -> int {
    tdiv(v * g, GAIN_ONE as int)
}

/// Clamp to full scale.
pub open spec fn clamp_unit(v: int) -> i64 {
    if v > SAMPLE_ONE {
        SAMPLE_ONE
    } else if v < -SAMPLE_ONE {
        (-SAMPLE_ONE) as i64
    } else {
        v as i64
    }
}

/// The whole enhancement: DC removal, high-pass filter, conditional
/// normalization, and a final clamp to full scale. Empty input stays empty.
pub open spec fn spec_enhance(s: Seq<i64>, coeff: i64) -> Seq<i64> {
    if s.len() == 0 {
        Seq::empty()
    } else {
        let ys = filtered(dc_removed(s), coeff as int);
        let g = gain_of(peak_of(ys));
        if g > GAIN_APPLY_MIN {
            Seq::new(s.len(), |i: int| clamp_unit(gain_scaled(ys[i], g)))
        } else {
            Seq::new(s.len(), |i: int| clamp_unit(ys[i]))
        }
    }
}

/// A buffer whose samples all lie within full scale.
pub open spec fn samples_in_range(s: Seq<i64>) -> bool {
    forall|i: int| 0 <= i < s.len() ==> -SAMPLE_ONE <= #[trigger] s[i] <= SAMPLE_ONE
}

/// Truncating division shrinks magnitude proportionally: if `|a| <= n * b`
/// then `|tdiv(a, n)| <= b`.
proof fn lemma_tdiv_magnitude(a: int, n: int, b: int)
    requires
        0 < n,
        0 <= b,
        -(n * b) <= a <= n * b,
    ensures
        -b <= tdiv(a, n) <= b,
{
    if a >= 0 {
        lemma_div_pos_is_pos(a, n);
        lemma_multiply_divide_le(a, n, b);
    } else {
        lemma_div_pos_is_pos(-a, n);
        lemma_multiply_divide_le(-a, n, b);
    }
}

/// The sum of a buffer of full-scale samples is bounded by the length times
/// full scale.
proof fn lemma_sum_bound(s: Seq<i64>)
    requires
        samples_in_range(s),
    ensures
        -(s.len() * SAMPLE_ONE) <= sum_of(s) <= s.len() * SAMPLE_ONE,
    decreases s.len(),
{
    if s.len() > 0 {
        assert(samples_in_range(s.drop_last())) by {
            assert(forall|i: int|
                0 <= i < s.len() - 1 ==> s.drop_last()[i] == #[trigger] s[i]);
        }
        lemma_sum_bound(s.drop_last());
        assert(-SAMPLE_ONE <= s.last() <= SAMPLE_ONE);
        assert(s.len() * SAMPLE_ONE == (s.len() - 1) * SAMPLE_ONE + SAMPLE_ONE);
    }
}

/// The mean of a buffer of full-scale samples is itself within full scale.
proof fn lemma_mean_bound(s: Seq<i64>)
    requires
        samples_in_range(s),
    ensures
        -SAMPLE_ONE <= mean_of(s) <= SAMPLE_ONE,
{
    if s.len() > 0 {
        lemma_sum_bound(s);
        lemma_tdiv_magnitude(sum_of(s), s.len() as int, SAMPLE_ONE as int);
    }
}

/// Sum of a full-scale buffer, in one pass.
fn sum_samples(samples: &Vec<i64>) -> (total: i64)
    requires
        samples_in_range(samples@),
        samples@.len() <= MAX_SAMPLES,
    ensures
        total == sum_of(samples@),
{
    let n = samples.len();
    let mut total: i64 = 0;
    let mut k: usize = 0;
    while k < n
        invariant
            n == samples@.len() <= MAX_SAMPLES,
            samples_in_range(samples@),
            0 <= k <= n,
            total == sum_of(samples@.take(k as int)),
            -((k as int) * SAMPLE_ONE) <= total <= (k as int) * SAMPLE_ONE,
        decreases n - k,
    {
        let ghost pre = samples@.take(k as int);
        assert(samples@.take(k as int + 1).drop_last() =~= pre);
        assert(samples@.take(k as int + 1).last() == samples@[k as int]);
        total = total + samples[k];
        k = k + 1;
    }
    assert(samples@.take(n as int) =~= samples@);
    total
}

/// Truncated mean of a full-scale buffer; 0 for an empty one.
fn compute_mean(samples: &Vec<i64>) -> (m: i64)
    requires
        samples_in_range(samples@),
        samples@.len() <= MAX_SAMPLES,
    ensures
        m == mean_of(samples@),
        -SAMPLE_ONE <= m <= SAMPLE_ONE,
{
    let n = samples.len();
    if n == 0 {
        return 0;
    }
    let total = sum_samples(samples);
    proof {
        lemma_sum_bound(samples@);
        lemma_mean_bound(samples@);
    }
    let count = n as i64;
    let m = if total >= 0 {
        total / count
    } else {
        -((-total) / count)
    };
    proof {
        if total >= 0 {
            lemma_div_pos_is_pos(total as int, count as int);
        } else {
            lemma_div_pos_is_pos(-(total as int), count as int);
        }
    }
    m
}

/// Subtracts the mean from every sample.
fn remove_dc(samples: &Vec<i64>) -> (dc: Vec<i64>)
    requires
        samples_in_range(samples@),
        samples@.len() <= MAX_SAMPLES,
    ensures
        dc@.len() == samples@.len(),
        forall|j: int| 0 <= j < dc@.len() ==> dc@[j] == dc_removed(samples@)[j],
        forall|j: int|
            0 <= j < dc@.len() ==> -2 * SAMPLE_ONE <= #[trigger] dc@[j] <= 2 * SAMPLE_ONE,
{
    let n = samples.len();
    let m = compute_mean(samples);
    let mut dc: Vec<i64> = Vec::new();
    let mut k: usize = 0;
    while k < n
        invariant
            n == samples@.len() <= MAX_SAMPLES,
            samples_in_range(samples@),
            m == mean_of(samples@),
            -SAMPLE_ONE <= m <= SAMPLE_ONE,
            0 <= k <= n,
            dc@.len() == k,
            forall|j: int| 0 <= j < k ==> dc@[j] == dc_removed(samples@)[j],
            forall|j: int| 0 <= j < k ==> -2 * SAMPLE_ONE <= #[trigger] dc@[j] <= 2 * SAMPLE_ONE,
        decreases n - k,
    {
        dc.push(samples[k] - m);
        k = k + 1;
    }
    dc
}

/// A sample buffer viewed as unbounded integers.
pub open spec fn as_ints(s: Seq<i64>) -> Seq<int> {
    s.map_values(|v: i64| v as int)
}

/// The filtered signal has one output per input.
proof fn lemma_filtered_len(xs: Seq<int>, coeff: int)
    ensures
        filtered(xs, coeff).len() == xs.len(),
    decreases xs.len(),
{
    if xs.len() > 0 {
        lemma_filtered_len(xs.drop_last(), coeff);
    }
}

/// Nonnegative scaling by a bounded factor keeps a bounded value bounded:
/// if `0 <= c <= cmax`, `0 <= t <= tb` and `cmax * tb <= d * ob`, then
/// `c * t / d <= ob`.
proof fn lemma_scaled_le(c: int, t: int, cmax: int, tb: int, d: int, ob: int)
    requires
        0 <= c <= cmax,
        0 <= t <= tb,
        cmax * tb <= d * ob,
        0 < d,
        0 <= ob,
    ensures
        0 <= c * t <= cmax * tb,
        c * t / d <= ob,
{
    lemma_mul_upper_bound(c, cmax, t, tb);
    lemma_mul_nonnegative(c, t);
    lemma_multiply_divide_le(c * t, d, ob);
}

/// One filter step stays within [`FILTER_BOUND`]: scaling any value of
/// magnitude at most `FILTER_BOUND + 4 * SAMPLE_ONE` by a coefficient of at
/// most [`COEFF_MAX`] lands back within [`FILTER_BOUND`], and the product
/// involved stays far below the 64-bit range.
proof fn lemma_hp_step_bound(coeff: int, t: int)
    requires
        0 <= coeff <= COEFF_MAX,
        -(FILTER_BOUND + 4 * SAMPLE_ONE) <= t <= FILTER_BOUND + 4 * SAMPLE_ONE,
    ensures
        -FILTER_BOUND <= hp_scaled(coeff, t) <= FILTER_BOUND,
        -(COEFF_ONE * FILTER_BOUND) <= coeff * t <= COEFF_ONE * FILTER_BOUND,
        coeff * (-t) == -(coeff * t),
{
    let tmax: int = FILTER_BOUND + 4 * SAMPLE_ONE;
    assert(COEFF_MAX == 1072693248int);
    assert(COEFF_ONE == 1073741824int);
    assert(FILTER_BOUND == 134217728int);
    assert(tmax == 134348800int);
    assert(1072693248int * 134348800int <= 1073741824int * 134217728int) by (nonlinear_arith);
    assert(coeff * (-t) == -(coeff * t)) by (nonlinear_arith);
    if t >= 0 {
        lemma_scaled_le(coeff, t, COEFF_MAX as int, tmax, COEFF_ONE as int, FILTER_BOUND as int);
        lemma_div_pos_is_pos(coeff * t, COEFF_ONE as int);
    } else {
        lemma_scaled_le(coeff, -t, COEFF_MAX as int, tmax, COEFF_ONE as int, FILTER_BOUND as int);
        lemma_div_pos_is_pos(coeff * -t, COEFF_ONE as int);
    }
}

/// Runs the high-pass recurrence over a DC-removed buffer.
fn run_filter(dc: &Vec<i64>, coeff: i64) -> (ys: Vec<i64>)
    requires
        0 <= coeff <= COEFF_MAX,
        forall|j: int|
            0 <= j < dc@.len() ==> -2 * SAMPLE_ONE <= #[trigger] dc@[j] <= 2 * SAMPLE_ONE,
    ensures
        ys@.len() == dc@.len(),
        forall|j: int| 0 <= j < ys@.len() ==> ys@[j] == filtered(as_ints(dc@), coeff as int)[j],
        forall|j: int|
            0 <= j < ys@.len() ==> -FILTER_BOUND <= #[trigger] ys@[j] <= FILTER_BOUND,
{
    let n = dc.len();
    let mut ys: Vec<i64> = Vec::new();
    let mut prev_x: i64 = 0;
    let mut prev_y: i64 = 0;
    let ghost xs = as_ints(dc@);
    let mut k: usize = 0;
    proof {
        lemma_filtered_len(xs.take(0), coeff as int);
    }
    while k < n
        invariant
            n == dc@.len(),
            xs == as_ints(dc@),
            0 <= coeff <= COEFF_MAX,
            forall|j: int|
                0 <= j < dc@.len() ==> -2 * SAMPLE_ONE <= #[trigger] dc@[j] <= 2 * SAMPLE_ONE,
            0 <= k <= n,
            ys@.len() == k,
            ys@ =~= filtered(xs.take(k as int), coeff as int).map_values(|v: int| v as i64),
            forall|j: int| 0 <= j < k ==> ys@[j] == filtered(xs.take(k as int), coeff as int)[j],
            forall|j: int|
                0 <= j < k ==> -FILTER_BOUND <= #[trigger] ys@[j] <= FILTER_BOUND,
            prev_x == if k == 0 {
                0int
            } else {
                xs[k - 1]
            },
            prev_y == if k == 0 {
                0int
            } else {
                filtered(xs.take(k as int), coeff as int)[k - 1]
            },
            -2 * SAMPLE_ONE <= prev_x <= 2 * SAMPLE_ONE,
            -FILTER_BOUND <= prev_y <= FILTER_BOUND,
        decreases n - k,
    {
        let ghost pre = xs.take(k as int);
        let ghost cur = xs.take(k as int + 1);
        proof {
            lemma_filtered_len(pre, coeff as int);
            lemma_filtered_len(cur, coeff as int);
            assert(cur.drop_last() =~= pre);
            assert(cur.last() == xs[k as int]);
            if k > 0 {
                assert(cur[cur.len() - 2] == xs[k - 1]);
            }
        }
        let x = dc[k];
        let t = prev_y + x - prev_x;
        proof {
            lemma_hp_step_bound(coeff as int, t as int);
        }
        let y = if t >= 0 {
            (coeff * t) / COEFF_ONE
        } else {
            -((coeff * (-t)) / COEFF_ONE)
        };
        proof {
            assert(y == hp_scaled(coeff as int, t as int));
            assert(filtered(cur, coeff as int) == filtered(pre, coeff as int).push(
                hp_scaled(coeff as int, t as int)));
        }
        ys.push(y);
        prev_x = x;
        prev_y = y;
        k = k + 1;
        proof {
            assert(ys@ =~= filtered(xs.take(k as int), coeff as int).map_values(
                |v: int| v as i64));
        }
    }
    proof {
        assert(xs.take(n as int) =~= xs);
    }
    ys
}

/// Peak magnitude over the filtered signal, floored at full scale.
fn find_peak(ys: &Vec<i64>) -> (p: i64)
    requires
        forall|j: int|
            0 <= j < ys@.len() ==> -FILTER_BOUND <= #[trigger] ys@[j] <= FILTER_BOUND,
    ensures
        p == peak_of(as_ints(ys@)),
        SAMPLE_ONE <= p <= FILTER_BOUND,
{
    let n = ys.len();
    let ghost full = as_ints(ys@);
    let mut p: i64 = SAMPLE_ONE;
    let mut k: usize = 0;
    while k < n
        invariant
            n == ys@.len(),
            full == as_ints(ys@),
            forall|j: int|
                0 <= j < ys@.len() ==> -FILTER_BOUND <= #[trigger] ys@[j] <= FILTER_BOUND,
            0 <= k <= n,
            p == peak_of(full.take(k as int)),
            SAMPLE_ONE <= p <= FILTER_BOUND,
        decreases n - k,
    {
        proof {
            assert(full.take(k as int + 1).drop_last() =~= full.take(k as int));
            assert(full.take(k as int + 1).last() == full[k as int]);
        }
        let y = ys[k];
        let m = if y >= 0 {
            y
        } else {
            -y
        };
        if m > p {
            p = m;
        }
        k = k + 1;
    }
    proof {
        assert(full.take(n as int) =~= full);
    }
    p
}

/// Normalization gain for a floored peak: target over peak, capped at 4x.
fn compute_gain(p: i64) -> (g: i64)
    requires
        SAMPLE_ONE <= p <= FILTER_BOUND,
    ensures
        g == gain_of(p as int),
        0 <= g <= GAIN_MAX,
{
    let raw = (TARGET_PEAK * GAIN_ONE) / p;
    proof {
        lemma_div_pos_is_pos(TARGET_PEAK * GAIN_ONE, p as int);
    }
    if raw > GAIN_MAX {
        GAIN_MAX
    } else {
        raw
    }
}

/// Scales every sample by the gain and clamps to full scale.
fn apply_gain(ys: &Vec<i64>, g: i64) -> (out: Vec<i64>)
    requires
        forall|j: int|
            0 <= j < ys@.len() ==> -FILTER_BOUND <= #[trigger] ys@[j] <= FILTER_BOUND,
        0 <= g <= GAIN_MAX,
    ensures
        out@.len() == ys@.len(),
        forall|j: int|
            0 <= j < out@.len() ==> out@[j] == clamp_unit(gain_scaled(as_ints(ys@)[j], g as int)),
{
    let n = ys.len();
    let mut out: Vec<i64> = Vec::new();
    let mut k: usize = 0;
    while k < n
        invariant
            n == ys@.len(),
            forall|j: int|
                0 <= j < ys@.len() ==> -FILTER_BOUND <= #[trigger] ys@[j] <= FILTER_BOUND,
            0 <= g <= GAIN_MAX,
            0 <= k <= n,
            out@.len() == k,
            forall|j: int|
                0 <= j < k ==> out@[j] == clamp_unit(gain_scaled(as_ints(ys@)[j], g as int)),
        decreases n - k,
    {
        let y = ys[k];
        proof {
            assert(FILTER_BOUND * GAIN_MAX == 0x2_0000_0000_0000int) by (nonlinear_arith)
                requires
                    FILTER_BOUND == 0x800_0000int && GAIN_MAX == 0x40_0000int,
            ;
            if y >= 0 {
                lemma_mul_upper_bound(y as int, FILTER_BOUND as int, g as int, GAIN_MAX as int);
                lemma_mul_nonnegative(y as int, g as int);
            } else {
                lemma_mul_upper_bound(-(y as int), FILTER_BOUND as int, g as int, GAIN_MAX as int);
                lemma_mul_nonnegative(-(y as int), g as int);
                assert((-(y as int)) * (g as int) == -((y as int) * (g as int)))
                    by (nonlinear_arith);
            }
        }
        let v = if y >= 0 {
            (y * g) / GAIN_ONE
        } else {
            -(((-y) * g) / GAIN_ONE)
        };
        proof {
            if y >= 0 {
                lemma_div_pos_is_pos(y as int * g as int, GAIN_ONE as int);
                lemma_div_is_ordered(y as int * g as int, FILTER_BOUND as int * GAIN_MAX as int,
                    GAIN_ONE as int);
            } else {
                lemma_div_pos_is_pos(-(y as int) * g as int, GAIN_ONE as int);
                lemma_div_is_ordered(-(y as int) * g as int, FILTER_BOUND as int * GAIN_MAX as int,
                    GAIN_ONE as int);
            }
            assert(v == gain_scaled(y as int, g as int));
        }
        let c = if v > SAMPLE_ONE {
            SAMPLE_ONE
        } else if v < -SAMPLE_ONE {
            -SAMPLE_ONE
        } else {
            v
        };
        out.push(c);
        k = k + 1;
    }
    out
}

/// Clamps every sample to full scale.
fn clamp_all(ys: &Vec<i64>) -> (out: Vec<i64>)
    ensures
        out@.len() == ys@.len(),
        forall|j: int| 0 <= j < out@.len() ==> out@[j] == clamp_unit(as_ints(ys@)[j]),
{
    let n = ys.len();
    let mut out: Vec<i64> = Vec::new();
    let mut k: usize = 0;
    while k < n
        invariant
            n == ys@.len(),
            0 <= k <= n,
            out@.len() == k,
            forall|j: int| 0 <= j < k ==> out@[j] == clamp_unit(as_ints(ys@)[j]),
        decreases n - k,
    {
        let y = ys[k];
        let c = if y > SAMPLE_ONE {
            SAMPLE_ONE
        } else if y < -SAMPLE_ONE {
            -SAMPLE_ONE
        } else {
            y
        };
        out.push(c);
        k = k + 1;
    }
    out
}

/// Enhances a recorded buffer: removes the DC offset, applies the high-pass
/// filter with the given coefficient, normalizes toward [`TARGET_PEAK`] when
/// the computed gain warrants it, and clamps every sample to full scale.
/// Empty input returns empty output.
pub fn enhance(samples: &Vec<i64>, coeff: i64) -> (out: Vec<i64>)
    requires
        samples_in_range(samples@),
        samples@.len() <= MAX_SAMPLES,
        0 <= coeff <= COEFF_MAX,
    ensures
        out@ == spec_enhance(samples@, coeff),
{
    if samples.len() == 0 {
        let out: Vec<i64> = Vec::new();
        assert(out@ =~= spec_enhance(samples@, coeff));
        return out;
    }
    let dc = remove_dc(samples);
    proof {
        assert(as_ints(dc@) =~= dc_removed(samples@));
    }
    let ys = run_filter(&dc, coeff);
    let ghost fseq = filtered(dc_removed(samples@), coeff as int);
    proof {
        lemma_filtered_len(dc_removed(samples@), coeff as int);
        assert(as_ints(ys@) =~= fseq);
    }
    let p = find_peak(&ys);
    let g = compute_gain(p);
    if g > GAIN_APPLY_MIN {
        let out = apply_gain(&ys, g);
        assert(out@ =~= spec_enhance(samples@, coeff));
        out
    } else {
        let out = clamp_all(&ys);
        assert(out@ =~= spec_enhance(samples@, coeff));
        out
    }
}

/// The sum of an all-zero buffer is zero.
proof fn lemma_sum_zeros(s: Seq<i64>)
    requires
        forall|i: int| 0 <= i < s.len() ==> #[trigger] s[i] == 0,
    ensures
        sum_of(s) == 0,
    decreases s.len(),
{
    if s.len() > 0 {
        lemma_sum_zeros(s.drop_last());
    }
}

/// Filtering an all-zero signal yields an all-zero signal.
proof fn lemma_filtered_zeros(xs: Seq<int>, coeff: int)
    requires
        forall|i: int| 0 <= i < xs.len() ==> #[trigger] xs[i] == 0,
    ensures
        filtered(xs, coeff).len() == xs.len(),
        forall|i: int| 0 <= i < xs.len() ==> #[trigger] filtered(xs, coeff)[i] == 0,
    decreases xs.len(),
{
    if xs.len() > 0 {
        lemma_filtered_zeros(xs.drop_last(), coeff);
        assert(hp_scaled(coeff, 0) == 0) by {
            assert(coeff * 0 == 0);
        }
    }
}

/// The peak of an all-zero signal is exactly the full-scale floor.
proof fn lemma_peak_zeros(ys: Seq<int>)
    requires
        forall|i: int| 0 <= i < ys.len() ==> #[trigger] ys[i] == 0,
    ensures
        peak_of(ys) == SAMPLE_ONE,
    decreases ys.len(),
{
    if ys.len() > 0 {
        lemma_peak_zeros(ys.drop_last());
    }
}

/// The peak bounds every sample's magnitude and never falls below the floor.
proof fn lemma_peak_dominates(ys: Seq<int>)
    ensures
        peak_of(ys) >= SAMPLE_ONE,
        forall|i: int| 0 <= i < ys.len() ==> abs_of(#[trigger] ys[i]) <= peak_of(ys),
    decreases ys.len(),
{
    if ys.len() > 0 {
        lemma_peak_dominates(ys.drop_last());
        assert(forall|i: int| 0 <= i < ys.len() - 1 ==> ys.drop_last()[i] == #[trigger] ys[i]);
    }
}

/// Enhancement of silence is silence: an all-zero input of any length gives
/// an all-zero output of the same length.
pub proof fn lemma_silence_unchanged(s: Seq<i64>, coeff: i64)
    requires
        forall|i: int| 0 <= i < s.len() ==> #[trigger] s[i] == 0,
        0 <= coeff <= COEFF_MAX,
    ensures
        spec_enhance(s, coeff).len() == s.len(),
        forall|i: int| 0 <= i < s.len() ==> #[trigger] spec_enhance(s, coeff)[i] == 0,
{
    if s.len() > 0 {
        lemma_sum_zeros(s);
        assert(mean_of(s) == 0) by {
            assert(tdiv(0, s.len() as int) == 0) by {
                vstd::arithmetic::div_mod::lemma_div_of0(s.len() as int);
            }
        }
        let xs = dc_removed(s);
        assert(forall|i: int| 0 <= i < xs.len() ==> #[trigger] xs[i] == 0);
        lemma_filtered_zeros(xs, coeff as int);
        let ys = filtered(xs, coeff as int);
        lemma_peak_zeros(ys);
        let g = gain_of(SAMPLE_ONE as int);
        assert(TARGET_PEAK * GAIN_ONE == 741344int * 32768int) by (nonlinear_arith)
            requires
                TARGET_PEAK == 23167int && GAIN_ONE == 1048576int,
        ;
        assert(TARGET_PEAK * GAIN_ONE / (SAMPLE_ONE as int) == 741344int) by {
            vstd::arithmetic::div_mod::lemma_div_by_multiple(741344int, 32768int);
        }
        assert(g == 741344int);
        assert(!(g > GAIN_APPLY_MIN));
        assert(forall|i: int|
            0 <= i < s.len() ==> #[trigger] spec_enhance(s, coeff)[i] == clamp_unit(ys[i]));
    }
}

/// The normalization gain never exceeds the 4x cap, and reaches it exactly
/// when the uncapped ratio asks for at least 4x.
pub proof fn lemma_gain_capped(p: int)
    requires
        p >= 1,
    ensures
        gain_of(p) <= GAIN_MAX,
        TARGET_PEAK * GAIN_ONE / p >= GAIN_MAX ==> gain_of(p) == GAIN_MAX,
{
}

/// Under the full-scale peak floor the computed gain always stays below the
/// apply threshold, so the enhancer's normalization step only ever clamps.
pub proof fn lemma_gain_below_apply_threshold(p: int)
    requires
        p >= SAMPLE_ONE,
    ensures
        gain_of(p) <= GAIN_APPLY_MIN,
{
    assert(TARGET_PEAK * GAIN_ONE == 741344int * 32768int) by (nonlinear_arith)
        requires
            TARGET_PEAK == 23167int && GAIN_ONE == 1048576int,
    ;
    vstd::arithmetic::div_mod::lemma_div_is_ordered_by_denominator(TARGET_PEAK * GAIN_ONE,
        SAMPLE_ONE as int, p);
    assert(TARGET_PEAK * GAIN_ONE / (SAMPLE_ONE as int) == 741344int) by {
        vstd::arithmetic::div_mod::lemma_div_by_multiple(741344int, 32768int);
    }
}

/// When the gain path engages, the gain times the peak stays within the
/// target, so every output sample's magnitude is bounded by [`TARGET_PEAK`]:
/// normalization never pushes the signal past the -3 dBFS target.
pub proof fn lemma_normalized_output_bounded(s: Seq<i64>, coeff: i64)
    requires
        0 <= coeff <= COEFF_MAX,
        s.len() > 0,
        gain_of(peak_of(filtered(dc_removed(s), coeff as int))) > GAIN_APPLY_MIN,
    ensures
        forall|i: int|
            0 <= i < s.len() ==> -TARGET_PEAK <= #[trigger] spec_enhance(s, coeff)[i]
                <= TARGET_PEAK,
{
    let ys = filtered(dc_removed(s), coeff as int);
    let p = peak_of(ys);
    let g = gain_of(p);
    lemma_peak_dominates(ys);
    lemma_filtered_len(dc_removed(s), coeff as int);
    assert(g * p <= TARGET_PEAK * GAIN_ONE) by {
        let raw = TARGET_PEAK * GAIN_ONE / p;
        vstd::arithmetic::div_mod::lemma_fundamental_div_mod(TARGET_PEAK * GAIN_ONE, p);
        vstd::arithmetic::div_mod::lemma_mod_division_less_than_divisor(TARGET_PEAK * GAIN_ONE, p);
        assert(raw * p <= TARGET_PEAK * GAIN_ONE);
        if g < raw {
            lemma_mul_inequality(g, raw, p);
        }
    }
    assert forall|i: int| 0 <= i < s.len() implies -TARGET_PEAK
        <= #[trigger] spec_enhance(s, coeff)[i] <= TARGET_PEAK by {
        let v = ys[i];
        assert(abs_of(v) <= p);
        assert(spec_enhance(s, coeff)[i] == clamp_unit(gain_scaled(v, g)));
        if v >= 0 {
            lemma_mul_inequality(v, p, g);
            assert(v * g <= p * g);
            assert(p * g == g * p) by (nonlinear_arith);
            lemma_mul_nonnegative(v, g);
            lemma_multiply_divide_le(v * g, GAIN_ONE as int, TARGET_PEAK as int);
            lemma_div_pos_is_pos(v * g, GAIN_ONE as int);
            assert(GAIN_ONE * TARGET_PEAK == TARGET_PEAK * GAIN_ONE) by (nonlinear_arith);
        } else {
            lemma_mul_inequality(-v, p, g);
            assert((-v) * g <= p * g);
            assert(p * g == g * p) by (nonlinear_arith);
            lemma_mul_nonnegative(-v, g);
            lemma_multiply_divide_le((-v) * g, GAIN_ONE as int, TARGET_PEAK as int);
            lemma_div_pos_is_pos((-v) * g, GAIN_ONE as int);
            assert(GAIN_ONE * TARGET_PEAK == TARGET_PEAK * GAIN_ONE) by (nonlinear_arith);
            assert(v * g == -((-v) * g)) by (nonlinear_arith);
        }
    }
}

/// Every enhanced sample lies within full scale.
pub proof fn lemma_enhanced_in_range(s: Seq<i64>, coeff: i64)
    ensures
        samples_in_range(spec_enhance(s, coeff)),
{
    if s.len() > 0 {
        let ys = filtered(dc_removed(s), coeff as int);
        lemma_filtered_len(dc_removed(s), coeff as int);
    }
}

} // verus!
