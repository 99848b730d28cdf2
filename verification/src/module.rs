//! The DSP units: oscillator, envelope generator, resonant low-pass filter
//! and buffer, each a stateful per-sample transfer function over Q24
//! fixed-point signals, together with the signal-source expressions that wire
//! them into a rack.

use vstd::prelude::*;
use crate::fixed::{
    clamp_spec, fp_div_spec, fp_mul_spec, isqrt, sqrt_of, tdiv, tdiv_i128, FP_ONE, SIG_LIMIT,
};

verus! {

/// The fixed sample rate, shared by all units.
pub const SAMPLES_PER_SEC: u32 = 44_100;

/// The highest frequency a unit's exponential control range may reach, in
/// Q24 hertz: the sample rate itself.
pub const FREQ_LIMIT: i64 = 44_100 * FP_ONE;

/// One whole oscillator cycle: phase values live in `[0, PHASE_ONE)`, the
/// fixed-point image of `[0, 2*pi)`.
pub const PHASE_ONE: u64 = 0x1_0000_0000;

/// A quarter cycle, the image of `pi / 2`.
pub const PHASE_QUARTER: u64 = 0x4000_0000;

/// A half cycle, the image of `pi`.
pub const PHASE_HALF: u64 = 0x8000_0000;

/// Three quarters of a cycle, the image of `3 * pi / 2`.
pub const PHASE_THREE_QUARTER: u64 = 0xC000_0000;

/// One step of the geometric interpolation: `cur` is the ratio raised to the
/// weight of fraction bit `i`, and `acc` the product of the roots whose bits
/// of `x` are set so far (bit `23 - i` of the Q24 fraction `x` has weight
/// `2^-(i+1)`).
pub open spec fn geo_steps(cur: int, acc: int, x: u64, i: nat) -> int
    decreases 24 - i,
{
    if i >= 24 {
        acc
    } else {
        let root = sqrt_of(cur * FP_ONE);
        let acc2 = if (x >> (23 - i) as u64) & 1 == 1 {
            tdiv(acc * root, FP_ONE as int)
        } else {
            acc
        };
        geo_steps(root, acc2, x, (i + 1) as nat)
    }
}

/// The frequency a normalized control `x` selects on the exponential curve
/// from `min` to `max` hertz: `min * (max/min)^x`, computed by binary
/// fraction decomposition of `x` with iterated fixed-point square roots.
/// Controls at or below zero give `min`, at or above one give `max`.
pub open spec fn restore_freq_spec(min: int, max: int, x: int) -> int
    recommends
        1 <= min <= max,
{
    if x <= 0 {
        min
    } else if x >= FP_ONE {
        max
    } else {
        let ratio = max * FP_ONE / min;
        let acc = geo_steps(ratio, FP_ONE as int, x as u64, 0);
        min * acc / (FP_ONE as int)
    }
}

/// The frequency a normalized control selects on the exponential curve from
/// `freq_min` to `freq_max` hertz, per [`restore_freq_spec`]: the endpoints
/// are exact, and the result always lies within `[freq_min, freq_max]`.
pub fn restore_freq(freq_min: i64, freq_max: i64, input: i64) -> (r: i64)
    requires
        1 <= freq_min <= freq_max <= FREQ_LIMIT,
    ensures
        r == restore_freq_spec(freq_min as int, freq_max as int, input as int),
        freq_min <= r <= freq_max,
        input <= 0 ==> r == freq_min,
        input >= FP_ONE ==> r == freq_max,
{
    if input <= 0 {
        return freq_min;
    }
    if input >= FP_ONE {
        return freq_max;
    }
    let xu: u64 = input as u64;
    proof {
        assert((freq_max as int) * (FP_ONE as int) <= 0x1_0000_0000_0000_0000_0000)
            by (nonlinear_arith)
            requires
                freq_max <= FREQ_LIMIT,
                FREQ_LIMIT == 44_100 * FP_ONE,
                FP_ONE == 0x100_0000,
        ;
    }
    let ratio: u128 = ((freq_max as u128) * (FP_ONE as u128)) / (freq_min as u128);
    proof {
        assert((freq_max as int) * (FP_ONE as int) >= (freq_min as int) * (FP_ONE as int))
            by (nonlinear_arith)
            requires
                1 <= freq_min <= freq_max,
        ;
        vstd::arithmetic::div_mod::lemma_div_is_ordered(
            (freq_min as int) * (FP_ONE as int),
            (freq_max as int) * (FP_ONE as int),
            freq_min as int,
        );
        vstd::arithmetic::div_mod::lemma_div_multiples_vanish(
            FP_ONE as int,
            freq_min as int,
        );
        assert(ratio >= FP_ONE);
        assert((freq_max as int) * (FP_ONE as int) <= 0x1_0000_0000_0000_0000_0000)
            by (nonlinear_arith)
            requires
                freq_max <= FREQ_LIMIT,
                FREQ_LIMIT == 44_100 * FP_ONE,
                FP_ONE == 0x100_0000,
        ;
        vstd::arithmetic::div_mod::lemma_div_is_ordered_by_denominator(
            (freq_max as int) * (FP_ONE as int),
            1,
            freq_min as int,
        );
    }
    let mut cur: u128 = ratio;
    let mut acc: u128 = FP_ONE as u128;
    let mut i: usize = 0;
    while i < 24
        invariant
            0 <= i <= 24,
            0 < xu < FP_ONE,
            FP_ONE as u128 <= cur,
            FP_ONE as u128 <= acc,
            (acc as int) * (cur as int) <= (ratio as int) * (FP_ONE as int),
            ratio <= 0x1_0000_0000_0000_0000_0000,
            geo_steps(ratio as int, FP_ONE as int, xu, 0) == geo_steps(
                cur as int,
                acc as int,
                xu,
                i as nat,
            ),
        decreases 24 - i,
    {
        proof {
            assert(cur <= ratio) by (nonlinear_arith)
                requires
                    (acc as int) * (cur as int) <= (ratio as int) * (FP_ONE as int),
                    FP_ONE as u128 <= acc,
                    FP_ONE as u128 <= cur,
                    0 < FP_ONE,
            ;
            assert((cur as int) * (FP_ONE as int) <= 0x1_0000_0000_0000_0000_0000 * 0x100_0000)
                by (nonlinear_arith)
                requires
                    cur <= 0x1_0000_0000_0000_0000_0000u128,
                    FP_ONE == 0x100_0000,
            ;
        }
        let root: u128 = isqrt(cur * (FP_ONE as u128));
        proof {
            let c = cur as int;
            let t = root as int;
            assert(t * t <= c * FP_ONE < (t + 1) * (t + 1));
            assert(t >= FP_ONE) by (nonlinear_arith)
                requires
                    c * FP_ONE < (t + 1) * (t + 1),
                    c >= FP_ONE,
                    FP_ONE == 0x100_0000,
                    t >= 0,
            ;
            assert(t <= c) by (nonlinear_arith)
                requires
                    t * t <= c * FP_ONE,
                    c >= FP_ONE,
                    FP_ONE == 0x100_0000,
                    t >= 0,
            ;
        }
        let bit: u64 = (xu >> ((23 - i) as u64)) & 1;
        if bit == 1 {
            proof {
                assert((acc as int) * (root as int) <= (ratio as int) * (FP_ONE as int))
                    by (nonlinear_arith)
                    requires
                        (acc as int) * (cur as int) <= (ratio as int) * (FP_ONE as int),
                        root <= cur,
                        acc >= 0,
                ;
            }
            let prod: u128 = acc * root;
            let acc2: u128 = prod / (FP_ONE as u128);
            proof {
                let a = acc as int;
                let t = root as int;
                let a2 = acc2 as int;
                let c = cur as int;
                assert(a2 == (a * t) / (FP_ONE as int));
                vstd::arithmetic::div_mod::lemma_div_multiples_vanish(a, FP_ONE as int);
                assert(a * FP_ONE <= a * t) by (nonlinear_arith)
                    requires
                        t >= FP_ONE,
                        a >= 0,
                ;
                vstd::arithmetic::div_mod::lemma_div_is_ordered(
                    a * FP_ONE,
                    a * t,
                    FP_ONE as int,
                );
                assert(a2 >= a);
                // acc2 * root <= acc * cur, preserving the product bound
                vstd::arithmetic::div_mod::lemma_fundamental_div_mod(a * t, FP_ONE as int);
                vstd::arithmetic::div_mod::lemma_mod_bound(a * t, FP_ONE as int);
                assert(a2 * FP_ONE <= a * t);
                assert(a2 * t * FP_ONE <= a * t * t)
                    by (nonlinear_arith)
                    requires
                        a2 * FP_ONE <= a * t,
                        t >= 0,
                        a >= 0,
                        c == cur as int,
                        FP_ONE == 0x100_0000,
                        t * t <= c * FP_ONE,
                        a2 >= 0,
                ;
                assert(a2 * t * FP_ONE <= a * c * FP_ONE) by (nonlinear_arith)
                    requires
                        a2 * t * FP_ONE <= a * t * t,
                        t * t <= c * FP_ONE,
                        a >= 0,
                        c == cur as int,
                        t >= 0,
                        FP_ONE == 0x100_0000,
                        a2 >= 0,
                ;
                assert(a2 * t <= a * c) by (nonlinear_arith)
                    requires
                        a2 * t * FP_ONE <= a * c * FP_ONE,
                        FP_ONE == 0x100_0000,
                ;
                assert(a2 * t <= (ratio as int) * (FP_ONE as int)) by (nonlinear_arith)
                    requires
                        a2 * t <= a * c,
                        a * c <= (ratio as int) * (FP_ONE as int),
                ;
            }
            acc = acc2;
        } else {
            proof {
                assert((acc as int) * (root as int) <= (ratio as int) * (FP_ONE as int))
                    by (nonlinear_arith)
                    requires
                        (acc as int) * (cur as int) <= (ratio as int) * (FP_ONE as int),
                        root <= cur,
                        acc >= 0,
                ;
            }
        }
        cur = root;
        i = i + 1;
    }
    proof {
        assert(acc <= ratio) by (nonlinear_arith)
            requires
                (acc as int) * (cur as int) <= (ratio as int) * (FP_ONE as int),
                FP_ONE as u128 <= cur,
                acc >= 0,
        ;
        // min * acc <= min * ratio <= max * FP_ONE
        vstd::arithmetic::div_mod::lemma_fundamental_div_mod(
            (freq_max as int) * (FP_ONE as int),
            freq_min as int,
        );
        vstd::arithmetic::div_mod::lemma_mod_bound(
            (freq_max as int) * (FP_ONE as int),
            freq_min as int,
        );
        assert((freq_min as int) * (ratio as int) <= (freq_max as int) * (FP_ONE as int));
        assert((freq_min as int) * (acc as int) <= (freq_max as int) * (FP_ONE as int))
            by (nonlinear_arith)
            requires
                acc <= ratio,
                (freq_min as int) * (ratio as int) <= (freq_max as int) * (FP_ONE as int),
                freq_min >= 1,
        ;
    }
    let res: u128 = ((freq_min as u128) * acc) / (FP_ONE as u128);
    proof {
        let m = freq_min as int;
        let a = acc as int;
        vstd::arithmetic::div_mod::lemma_div_is_ordered(
            m * a,
            (freq_max as int) * (FP_ONE as int),
            FP_ONE as int,
        );
        vstd::arithmetic::div_mod::lemma_div_multiples_vanish(freq_max as int, FP_ONE as int);
        assert(m * FP_ONE <= m * a) by (nonlinear_arith)
            requires
                a >= FP_ONE,
                m >= 1,
        ;
        vstd::arithmetic::div_mod::lemma_div_is_ordered(m * FP_ONE, m * a, FP_ONE as int);
        vstd::arithmetic::div_mod::lemma_div_multiples_vanish(m, FP_ONE as int);
    }
    res as i64
}

/// The quotient of a nonnegative dividend is below `b` when the dividend is
/// below `b * d`.
pub proof fn lemma_div_lt(n: int, d: int, b: int)
    requires
        d > 0,
        0 <= n,
        n < b * d,
    ensures
        n / d < b,
{
    vstd::arithmetic::div_mod::lemma_fundamental_div_mod(n, d);
    vstd::arithmetic::div_mod::lemma_mod_bound(n, d);
    vstd::arithmetic::div_mod::lemma_div_pos_is_pos(n, d);
    assert(n / d < b) by (nonlinear_arith)
        requires
            d > 0,
            n == d * (n / d) + n % d,
            0 <= n % d < d,
            n < b * d,
            n / d >= 0,
    ;
}

/// The quotient of a nonnegative dividend is at most `b` when the dividend is
/// at most `b * d`.
pub proof fn lemma_div_le(n: int, d: int, b: int)
    requires
        d > 0,
        0 <= n,
        n <= b * d,
    ensures
        n / d <= b,
{
    vstd::arithmetic::div_mod::lemma_fundamental_div_mod(n, d);
    vstd::arithmetic::div_mod::lemma_mod_bound(n, d);
    vstd::arithmetic::div_mod::lemma_div_pos_is_pos(n, d);
    assert(n / d <= b) by (nonlinear_arith)
        requires
            d > 0,
            n == d * (n / d) + n % d,
            0 <= n % d < d,
            n <= b * d,
            n / d >= 0,
    ;
}

/// A source for a continuous per-sample input of a unit: a constant, a
/// parameter field, another unit's output, or an arithmetic or conditional
/// combination. Every value a source yields is forced into
/// `[-SIG_LIMIT, SIG_LIMIT]`.
#[derive(Debug, PartialEq, Eq)]
pub enum Sig {
    /// A fixed Q24 value.
    Const(i64),
    /// The continuous parameter field at this registry index.
    Param(usize),
    /// The current output of the unit at this rack index.
    Out(usize),
    /// The clamped sum of two sources.
    Add(Box<Sig>, Box<Sig>),
    /// The clamped Q24 product of two sources.
    Mul(Box<Sig>, Box<Sig>),
    /// One of two sources, chosen by a boolean source.
    IfBool(BoolSig, Box<Sig>, Box<Sig>),
    /// One of two sources, chosen by whether the enumeration parameter field
    /// at this index currently holds the named variant.
    EnumIs(usize, String, Box<Sig>, Box<Sig>),
}

/// A source for a boolean per-sample input of a unit.
#[derive(Debug, PartialEq, Eq, Clone, Copy)]
pub enum BoolSig {
    Const(bool),
    /// The boolean parameter field at this registry index.
    Param(usize),
}

/// A source for a unit's waveform selector.
#[derive(Debug, PartialEq, Eq, Clone, Copy)]
pub enum WfSig {
    Const(crate::WaveForm),
    /// The enumeration parameter field at this registry index, read as a
    /// waveform name; an unknown name selects the sine default.
    Param(usize),
}

/// The unit outputs a source may read are all within the signal range.
pub open spec fn outs_ok(outs: Seq<i64>) -> bool {
    forall|i: int| 0 <= i < outs.len() ==> -SIG_LIMIT <= #[trigger] outs[i] <= SIG_LIMIT
}

/// A boolean source fits the parameter set.
pub open spec fn boolsig_ok(s: BoolSig, state: Seq<crate::input::FieldModel>) -> bool {
    match s {
        BoolSig::Const(_) => true,
        BoolSig::Param(i) => i < state.len() && state[i as int] is Bool,
    }
}

/// A waveform source fits the parameter set.
pub open spec fn wfsig_ok(s: WfSig, state: Seq<crate::input::FieldModel>) -> bool {
    match s {
        WfSig::Const(_) => true,
        WfSig::Param(i) => i < state.len() && state[i as int] is Enum,
    }
}

/// A continuous source fits the rack and the parameter set: every parameter
/// index it reads exists with the right kind (continuous fields within
/// `[0, 1]`), and every unit index is in range.
pub open spec fn sig_ok(s: Sig, n_units: nat, state: Seq<crate::input::FieldModel>) -> bool
    decreases s,
{
    match s {
        Sig::Const(_) => true,
        Sig::Param(i) => i < state.len() && state[i as int] is Float && 0 <= state[
            i as int
        ].float_value() <= FP_ONE,
        Sig::Out(u) => u < n_units,
        Sig::Add(a, b) => sig_ok(*a, n_units, state) && sig_ok(*b, n_units, state),
        Sig::Mul(a, b) => sig_ok(*a, n_units, state) && sig_ok(*b, n_units, state),
        Sig::IfBool(c, a, b) => boolsig_ok(c, state) && sig_ok(*a, n_units, state) && sig_ok(
            *b,
            n_units,
            state,
        ),
        Sig::EnumIs(i, _, a, b) => i < state.len() && state[i as int] is Enum && sig_ok(
            *a,
            n_units,
            state,
        ) && sig_ok(*b, n_units, state),
    }
}

/// What a boolean source yields.
pub open spec fn boolsig_value(s: BoolSig, state: Seq<crate::input::FieldModel>) -> bool {
    match s {
        BoolSig::Const(b) => b,
        BoolSig::Param(i) => state[i as int].bool_value(),
    }
}

/// What a waveform source yields; an enumeration value that names no waveform
/// selects the sine default.
pub open spec fn wfsig_value(s: WfSig, state: Seq<crate::input::FieldModel>) -> crate::WaveForm {
    match s {
        WfSig::Const(w) => w,
        WfSig::Param(i) => match crate::waveform_from_name(state[i as int].enum_value()) {
            Some(w) => w,
            None => crate::WaveForm::Sine,
        },
    }
}

/// What a continuous source yields against the given unit outputs and
/// parameter set; always within `[-SIG_LIMIT, SIG_LIMIT]` for sources and
/// outputs that fit.
pub open spec fn sig_value(s: Sig, outs: Seq<i64>, state: Seq<crate::input::FieldModel>) -> int
    decreases s,
{
    match s {
        Sig::Const(c) => clamp_spec(c as int, -SIG_LIMIT as int, SIG_LIMIT as int),
        Sig::Param(i) => state[i as int].float_value() as int,
        Sig::Out(u) => outs[u as int] as int,
        Sig::Add(a, b) => clamp_spec(
            sig_value(*a, outs, state) + sig_value(*b, outs, state),
            -SIG_LIMIT as int,
            SIG_LIMIT as int,
        ),
        Sig::Mul(a, b) => clamp_spec(
            fp_mul_spec(sig_value(*a, outs, state), sig_value(*b, outs, state)),
            -SIG_LIMIT as int,
            SIG_LIMIT as int,
        ),
        Sig::IfBool(c, a, b) => if boolsig_value(c, state) {
            sig_value(*a, outs, state)
        } else {
            sig_value(*b, outs, state)
        },
        Sig::EnumIs(i, name, a, b) => if state[i as int].enum_value() == name@ {
            sig_value(*a, outs, state)
        } else {
            sig_value(*b, outs, state)
        },
    }
}

/// Evaluate a boolean source against the parameter set.
pub fn eval_boolsig(s: &BoolSig, input: &crate::input::Input) -> (r: bool)
    requires
        boolsig_ok(*s, input@),
    ensures
        r == boolsig_value(*s, input@),
{
    match s {
        BoolSig::Const(b) => *b,
        BoolSig::Param(i) => input.read_bool(*i),
    }
}

/// Evaluate a waveform source against the parameter set.
pub fn eval_wfsig(s: &WfSig, input: &crate::input::Input) -> (r: crate::WaveForm)
    requires
        wfsig_ok(*s, input@),
    ensures
        r == wfsig_value(*s, input@),
{
    match s {
        WfSig::Const(w) => *w,
        WfSig::Param(i) => {
            let name = input.read_enum(*i);
            match crate::SimpleEnum::from_name(name.as_str()) {
                Some(w) => w,
                None => crate::WaveForm::Sine,
            }
        },
    }
}

/// Evaluate a continuous source against the unit outputs and the parameter
/// set.
pub fn eval_sig(s: &Sig, outs: &Vec<i64>, input: &crate::input::Input) -> (r: i64)
    requires
        sig_ok(*s, outs@.len() as nat, input@),
        outs_ok(outs@),
    ensures
        r == sig_value(*s, outs@, input@),
        -SIG_LIMIT <= r <= SIG_LIMIT,
    decreases *s,
{
    match s {
        Sig::Const(c) => {
            if *c < -SIG_LIMIT {
                -SIG_LIMIT
            } else if *c > SIG_LIMIT {
                SIG_LIMIT
            } else {
                *c
            }
        },
        Sig::Param(i) => input.read_float(*i),
        Sig::Out(u) => outs[*u],
        Sig::Add(a, b) => {
            let va = eval_sig(a, outs, input);
            let vb = eval_sig(b, outs, input);
            crate::fixed::clamp_i128((va as i128) + (vb as i128), -SIG_LIMIT, SIG_LIMIT)
        },
        Sig::Mul(a, b) => {
            let va = eval_sig(a, outs, input);
            let vb = eval_sig(b, outs, input);
            proof {
                assert((i128::MIN as int) < (va as int) * (vb as int) <= (i128::MAX as int))
                    by (nonlinear_arith)
                    requires
                        -SIG_LIMIT <= va <= SIG_LIMIT,
                        -SIG_LIMIT <= vb <= SIG_LIMIT,
                        SIG_LIMIT == 0x1000_0000_0000,
                ;
            }
            let p: i128 = (va as i128) * (vb as i128);
            let t: i128 = tdiv_i128(p, FP_ONE as i128);
            crate::fixed::clamp_i128(t, -SIG_LIMIT, SIG_LIMIT)
        },
        Sig::IfBool(c, a, b) => {
            if eval_boolsig(c, input) {
                eval_sig(a, outs, input)
            } else {
                eval_sig(b, outs, input)
            }
        },
        Sig::EnumIs(i, name, a, b) => {
            let cur = input.read_enum(*i);
            if crate::str_eq(cur.as_str(), name.as_str()) {
                eval_sig(a, outs, input)
            } else {
                eval_sig(b, outs, input)
            }
        },
    }
}

/// The rising quarter-wave of the parabolic sine approximation, scaled to
/// reach one at the quarter cycle: `4 q (HALF - q) / HALF^2` in Q24, for
/// `q` in `[0, PHASE_HALF)`.
pub open spec fn half_sine_spec(q: int) -> int
    recommends
        0 <= q < PHASE_HALF,
{
    (q * (PHASE_HALF - q) * 4 * FP_ONE) / ((PHASE_HALF * PHASE_HALF) as int)
}

/// The parabolic sine approximation over a whole cycle: the rising half-wave
/// mirrored and negated over the second half.
pub open spec fn sine_spec(phase: int) -> int
    recommends
        0 <= phase < PHASE_ONE,
{
    if phase < PHASE_HALF {
        half_sine_spec(phase)
    } else {
        -half_sine_spec(phase - PHASE_HALF)
    }
}

/// The parabola `4 q (HALF - q) / HALF^2` stays within `[0, 1]` on
/// `[0, HALF)`.
pub proof fn lemma_half_sine_bounds(q: int)
    requires
        0 <= q < PHASE_HALF,
    ensures
        0 <= half_sine_spec(q) <= FP_ONE,
{
    let h = PHASE_HALF as int;
    let n = q * (h - q) * 4 * FP_ONE;
    assert(0 <= n && n <= FP_ONE * (h * h)) by (nonlinear_arith)
        requires
            0 <= q < h,
            h == 0x8000_0000,
            FP_ONE == 0x100_0000,
            n == q * (h - q) * 4 * FP_ONE,
    ;
    vstd::arithmetic::div_mod::lemma_div_pos_is_pos(n, h * h);
    lemma_div_le(n, h * h, FP_ONE as int);
}

/// What a non-noise waveform outputs at a given phase: the sine parabola, the
/// two-segment sawtooth ramp, the four-segment triangle, or the square wave.
pub open spec fn waveform_value(w: crate::WaveForm, phase: int) -> int
    recommends
        0 <= phase < PHASE_ONE,
        w != crate::WaveForm::Noise,
{
    let one = FP_ONE as int;
    let quarter = PHASE_QUARTER as int;
    let half = PHASE_HALF as int;
    let threeq = PHASE_THREE_QUARTER as int;
    match w {
        crate::WaveForm::Sine => sine_spec(phase),
        crate::WaveForm::Sawtooth => if phase < half {
            phase * one / half
        } else {
            (phase - half) * one / half - one
        },
        crate::WaveForm::Triangle => if phase < quarter {
            phase * one / quarter
        } else if phase < threeq {
            one - (phase - quarter) * one / quarter
        } else {
            (phase - threeq) * one / quarter - one
        },
        crate::WaveForm::Square => if phase < half {
            one
        } else {
            -one
        },
        crate::WaveForm::Noise => 0,
    }
}

/// Evaluate a non-noise waveform at a phase; the result is within `[-1, 1]`.
pub fn waveform_out(w: crate::WaveForm, phase: u64) -> (r: i64)
    requires
        phase < PHASE_ONE,
        w != crate::WaveForm::Noise,
    ensures
        r == waveform_value(w, phase as int),
        -FP_ONE <= r <= FP_ONE,
{
    let one128 = FP_ONE as u128;
    match w {
        crate::WaveForm::Sine => {
            let q: u128 = if phase < PHASE_HALF {
                phase as u128
            } else {
                (phase - PHASE_HALF) as u128
            };
            proof {
                assert(q < PHASE_HALF as u128);
                assert((q as int) * ((PHASE_HALF as int) - (q as int)) * 4 * (FP_ONE as int)
                    <= 0x1_0000_0000_0000_0000_0000_0000) by (nonlinear_arith)
                    requires
                        0 <= (q as int) < (PHASE_HALF as int),
                        PHASE_HALF == 0x8000_0000u64,
                        FP_ONE == 0x100_0000,
                ;
            }
            let n: u128 = q * ((PHASE_HALF as u128) - q) * 4 * one128;
            let v: u128 = n / ((PHASE_HALF as u128) * (PHASE_HALF as u128));
            proof {
                lemma_half_sine_bounds(q as int);
            }
            if phase < PHASE_HALF {
                v as i64
            } else {
                -(v as i64)
            }
        },
        crate::WaveForm::Sawtooth => {
            if phase < PHASE_HALF {
                let v: u128 = (phase as u128) * one128 / (PHASE_HALF as u128);
                proof {
                    lemma_div_le(
                        (phase as int) * (FP_ONE as int),
                        PHASE_HALF as int,
                        FP_ONE as int,
                    );
                }
                v as i64
            } else {
                let v: u128 = ((phase - PHASE_HALF) as u128) * one128 / (PHASE_HALF as u128);
                proof {
                    lemma_div_lt(
                        ((phase - PHASE_HALF) as int) * (FP_ONE as int),
                        PHASE_HALF as int,
                        FP_ONE as int,
                    );
                }
                (v as i64) - FP_ONE
            }
        },
        crate::WaveForm::Triangle => {
            if phase < PHASE_QUARTER {
                let v: u128 = (phase as u128) * one128 / (PHASE_QUARTER as u128);
                proof {
                    lemma_div_lt(
                        (phase as int) * (FP_ONE as int),
                        PHASE_QUARTER as int,
                        FP_ONE as int,
                    );
                }
                v as i64
            } else if phase < PHASE_THREE_QUARTER {
                let v: u128 = ((phase - PHASE_QUARTER) as u128) * one128 / (PHASE_QUARTER as u128);
                proof {
                    lemma_div_le(
                        ((phase - PHASE_QUARTER) as int) * (FP_ONE as int),
                        PHASE_QUARTER as int,
                         2 * FP_ONE as int,
                    );
                    lemma_div_lt(
                        ((phase - PHASE_QUARTER) as int) * (FP_ONE as int),
                        PHASE_QUARTER as int,
                        2 * FP_ONE as int,
                    );
                }
                FP_ONE - (v as i64)
            } else {
                let v: u128 = ((phase - PHASE_THREE_QUARTER) as u128) * one128 / (PHASE_QUARTER
                    as u128);
                proof {
                    lemma_div_lt(
                        ((phase - PHASE_THREE_QUARTER) as int) * (FP_ONE as int),
                        PHASE_QUARTER as int,
                        FP_ONE as int,
                    );
                }
                (v as i64) - FP_ONE
            }
        },
        crate::WaveForm::Square => {
            if phase < PHASE_HALF {
                FP_ONE
            } else {
                -FP_ONE
            }
        },
        crate::WaveForm::Noise => 0,
    }
}

/// Relies on `rand::random`, which draws a value from the thread-local
/// generator; nothing is assumed of the result.
pub assume_specification<T>[ rand::random::<T> ]() -> (r: T)
    where
        rand::distributions::Standard: rand::distributions::Distribution<T>,
;

/// A fresh noise sample from the thread-local generator, always within
/// `[-1, 1]` in Q24. Two calls may differ.
pub fn noise_sample() -> (r: i64)
    ensures
        -FP_ONE <= r <= FP_ONE,
{
    let rv: u64 = rand::random::<u64>();
    let m: u64 = rv % 33_554_433;
    (m as i64) - FP_ONE
}

/// How far one sample advances the phase at `freq` Q24 hertz: the fraction
/// `freq / SAMPLES_PER_SEC` of a whole cycle.
pub open spec fn phase_step(freq: int) -> int {
    freq * 256 / (SAMPLES_PER_SEC as int)
}

/// The phase after one sample at `freq` Q24 hertz, wrapped into a cycle.
pub open spec fn vco_next_phase(phase: int, freq: int) -> int {
    (phase + phase_step(freq)) % (PHASE_ONE as int)
}

/// A voltage-controlled oscillator: a normalized frequency control mapped
/// exponentially onto `[freq_min, freq_max]` hertz drives a phase
/// accumulator, and the selected waveform shapes the output.
pub struct VCO {
    /// Normalized frequency control, `0` selecting `freq_min` and `1`
    /// selecting `freq_max`.
    pub in_freq: Sig,
    /// Waveform selector.
    pub in_waveform: WfSig,
    /// Phase accumulator, always within `[0, PHASE_ONE)`.
    pub phase: u64,
    /// Low end of the frequency range, Q24 hertz.
    pub freq_min: i64,
    /// High end of the frequency range, Q24 hertz.
    pub freq_max: i64,
    /// The last computed sample, within `[-1, 1]` in Q24.
    pub out: i64,
}

impl Default for VCO {
    fn default() -> (r: VCO)
        ensures
            r == (VCO {
                in_freq: Sig::Const(0),
                in_waveform: WfSig::Const(crate::WaveForm::Sine),
                phase: 0,
                freq_min: 0,
                freq_max: 0,
                out: 0,
            }),
    {
        VCO {
            in_freq: Sig::Const(0),
            in_waveform: WfSig::Const(crate::WaveForm::Sine),
            phase: 0,
            freq_min: 0,
            freq_max: 0,
            out: 0,
        }
    }
}

impl VCO {
    /// The oscillator's internal invariant: phase within a cycle, output
    /// within `[-1, 1]`, and a usable frequency range.
    pub open spec fn wf(self) -> bool {
        &&& self.phase < PHASE_ONE
        &&& -FP_ONE <= self.out <= FP_ONE
        &&& 1 <= self.freq_min <= self.freq_max <= FREQ_LIMIT
    }

    /// One sample: advance the phase by the selected frequency, wrap it into
    /// the cycle, and shape the output by the selected waveform. A noise
    /// oscillator draws a fresh uniform sample only when the phase has just
    /// wrapped, and holds its previous output otherwise.
    pub fn update(&mut self, outs: &Vec<i64>, input: &crate::input::Input)
        requires
            old(self).wf(),
            sig_ok(old(self).in_freq, outs@.len() as nat, input@),
            wfsig_ok(old(self).in_waveform, input@),
            outs_ok(outs@),
        ensures
            final(self).wf(),
            final(self).in_freq == old(self).in_freq,
            final(self).in_waveform == old(self).in_waveform,
            final(self).freq_min == old(self).freq_min,
            final(self).freq_max == old(self).freq_max,
            ({
                let x = sig_value(old(self).in_freq, outs@, input@);
                let freq = restore_freq_spec(
                    old(self).freq_min as int,
                    old(self).freq_max as int,
                    x,
                );
                let w = wfsig_value(old(self).in_waveform, input@);
                &&& final(self).phase == vco_next_phase(old(self).phase as int, freq)
                &&& (w != crate::WaveForm::Noise ==> final(self).out == waveform_value(
                    w,
                    final(self).phase as int,
                ))
                &&& (w == crate::WaveForm::Noise ==> ((final(self).phase as int) >= phase_step(
                    freq,
                ) ==> final(self).out == old(self).out))
                &&& -FP_ONE <= final(self).out <= FP_ONE
            }),
    {
        let x = eval_sig(&self.in_freq, outs, input);
        let freq = restore_freq(self.freq_min, self.freq_max, x);
        let step128: u128 = ((freq as u128) * 256) / (SAMPLES_PER_SEC as u128);
        proof {
            lemma_div_le(
                (freq as int) * 256,
                SAMPLES_PER_SEC as int,
                (freq as int) * 256,
            );
            assert((freq as int) * 256 <= 0x1_0000_0000_0000) by (nonlinear_arith)
                requires
                    freq <= FREQ_LIMIT,
                    FREQ_LIMIT == 44_100 * FP_ONE,
                    FP_ONE == 0x100_0000,
            ;
        }
        let step: u64 = step128 as u64;
        self.phase = (self.phase + step) % PHASE_ONE;
        let w = eval_wfsig(&self.in_waveform, input);
        match w {
            crate::WaveForm::Noise => {
                if self.phase < step {
                    self.out = noise_sample();
                }
            },
            _ => {
                self.out = waveform_out(w, self.phase);
            },
        }
    }
}

/// The envelope generator's five states.
#[derive(Debug, PartialEq, Eq, Structural, Clone, Copy)]
pub enum EGState {
    Idle,
    A,
    D,
    S,
    R,
}

/// Whether the per-state clock, counted in samples, has reached `t` Q24
/// seconds.
pub open spec fn time_reached(clock: int, t: int) -> bool {
    clock * FP_ONE >= t * (SAMPLES_PER_SEC as int)
}

/// An envelope generator: a five-state machine over gate and repeat inputs
/// with attack, decay and release times in Q24 seconds and a sustain level in
/// Q24 `[0, 1]`. A per-state clock counts samples since the last state entry;
/// `level` captures the output at each interruption so a resumed envelope
/// continues from where it was.
pub struct EG {
    pub in_gate: BoolSig,
    pub in_repeat: BoolSig,
    /// Attack time, Q24 seconds.
    pub in_a: Sig,
    /// Decay time, Q24 seconds.
    pub in_d: Sig,
    /// Sustain level, Q24 in `[0, 1]`.
    pub in_s: Sig,
    /// Release time, Q24 seconds.
    pub in_r: Sig,
    /// Samples since the last state entry.
    pub clock: u64,
    pub state: EGState,
    /// The output captured at the last interruption, Q24 in `[0, 1]`.
    pub level: i64,
    /// The current envelope value, Q24 in `[0, 1]`.
    pub out: i64,
}

impl Default for EG {
    fn default() -> (r: EG)
        ensures
            r == (EG {
                in_gate: BoolSig::Const(false),
                in_repeat: BoolSig::Const(false),
                in_a: Sig::Const(0),
                in_d: Sig::Const(0),
                in_s: Sig::Const(FP_ONE),
                in_r: Sig::Const(0),
                clock: 0,
                state: EGState::Idle,
                level: 0,
                out: 0,
            }),
    {
        EG {
            in_gate: BoolSig::Const(false),
            in_repeat: BoolSig::Const(false),
            in_a: Sig::Const(0),
            in_d: Sig::Const(0),
            in_s: Sig::Const(FP_ONE),
            in_r: Sig::Const(0),
            clock: 0,
            state: EGState::Idle,
            level: 0,
            out: 0,
        }
    }
}

/// The state, clock and level after the transition phase of one sample,
/// evaluated before the output is computed.
pub open spec fn eg_transition(pre: EG, gate: bool, repeat: bool, a: int, d: int, r: int) -> EG {
    match pre.state {
        EGState::Idle => if gate || repeat {
            EG { state: EGState::A, clock: 0, ..pre }
        } else {
            pre
        },
        EGState::A => if !gate && !repeat {
            EG { state: EGState::R, clock: 0, level: pre.out, ..pre }
        } else if time_reached(pre.clock as int, a) {
            EG { state: EGState::D, clock: 0, ..pre }
        } else {
            pre
        },
        EGState::D => if !gate && !repeat {
            EG { state: EGState::R, clock: 0, level: pre.out, ..pre }
        } else if time_reached(pre.clock as int, d) {
            EG { state: EGState::S, clock: 0, ..pre }
        } else {
            pre
        },
        EGState::S => if !gate {
            EG { state: EGState::R, clock: 0, level: pre.out, ..pre }
        } else {
            pre
        },
        EGState::R => if !gate && time_reached(pre.clock as int, r) {
            EG { state: EGState::Idle, clock: 0, level: 0, ..pre }
        } else if gate {
            EG { state: EGState::A, clock: 0, level: pre.out, ..pre }
        } else {
            pre
        },
    }
}

/// The output of one sample, computed after the transition phase: a linear
/// rise from the captured level in attack, a linear fall toward the sustain
/// level in decay, the sustain level itself, and a linear fall from the
/// captured level toward zero in release. A zero time leaves the output
/// unchanged, and the idle state resets clock and output.
pub open spec fn eg_output(mid: EG, a: int, d: int, s: int, r: int) -> EG {
    let sr = SAMPLES_PER_SEC as int;
    let one = FP_ONE as int;
    let clock = mid.clock as int;
    match mid.state {
        EGState::Idle => EG { clock: 0, out: 0, ..mid },
        EGState::A => if a > 0 {
            let ratio = clock * one * one / (sr * a);
            let o = if mid.level >= ratio {
                mid.level as int
            } else {
                ratio
            };
            EG { out: o as i64, ..mid }
        } else {
            mid
        },
        EGState::D => if d > 0 {
            let fall = (one - s) * clock * one / (sr * d);
            EG { out: (one - fall) as i64, ..mid }
        } else {
            mid
        },
        EGState::S => EG { out: s as i64, ..mid },
        EGState::R => if r > 0 {
            let fall = clock * (mid.level as int) * one / (sr * r);
            let o = if (mid.level as int) - fall >= 0 {
                (mid.level as int) - fall
            } else {
                0
            };
            EG { out: o as i64, ..mid }
        } else {
            mid
        },
    }
}

/// The clock advance that ends one sample; the count saturates rather than
/// wrap (only reachable after half a million years of sustain).
pub open spec fn eg_advance(post: EG) -> EG {
    if post.clock < u64::MAX {
        EG { clock: (post.clock + 1) as u64, ..post }
    } else {
        post
    }
}

/// One whole envelope sample: transition, output, clock advance.
pub open spec fn eg_step(pre: EG, gate: bool, repeat: bool, a: int, d: int, s: int, r: int) -> EG {
    eg_advance(eg_output(eg_transition(pre, gate, repeat, a, d, r), a, d, s, r))
}

/// The envelope after `n` samples with the same resolved inputs each sample.
pub open spec fn eg_run(
    pre: EG,
    gate: bool,
    repeat: bool,
    a: int,
    d: int,
    s: int,
    r: int,
    n: nat,
) -> EG
    decreases n,
{
    if n == 0 {
        pre
    } else {
        eg_run(eg_step(pre, gate, repeat, a, d, s, r), gate, repeat, a, d, s, r, (n - 1) as nat)
    }
}

/// How many samples the per-state clock needs to reach `t` Q24 seconds: the
/// ceiling of `t * SAMPLES_PER_SEC / FP_ONE`.
pub open spec fn samples_for(t: int) -> int
    recommends
        0 <= t,
{
    (t * (SAMPLES_PER_SEC as int) + FP_ONE - 1) / (FP_ONE as int)
}

impl EG {
    /// The envelope's internal invariant: output and captured level within
    /// `[0, 1]`.
    pub open spec fn wf(self) -> bool {
        &&& 0 <= self.level <= FP_ONE
        &&& 0 <= self.out <= FP_ONE
    }

    /// One sample of the envelope, from resolved inputs: the new value is
    /// exactly [`eg_step`] of the old one.
    pub fn update(&mut self, gate: bool, repeat: bool, a: i64, d: i64, s: i64, r: i64)
        requires
            old(self).wf(),
            0 <= a,
            0 <= d,
            0 <= s <= FP_ONE,
            0 <= r,
        ensures
            *final(self) == eg_step(*old(self), gate, repeat, a as int, d as int, s as int, r as int),
            final(self).wf(),
            final(self).in_gate == old(self).in_gate,
            final(self).in_repeat == old(self).in_repeat,
            final(self).in_a == old(self).in_a,
            final(self).in_d == old(self).in_d,
            final(self).in_s == old(self).in_s,
            final(self).in_r == old(self).in_r,
    {
        let sr: i128 = SAMPLES_PER_SEC as i128;
        let one: i128 = FP_ONE as i128;
        match self.state {
            EGState::Idle => {
                if gate || repeat {
                    self.state = EGState::A;
                    self.clock = 0;
                }
            },
            EGState::A => {
                if !gate && !repeat {
                    self.state = EGState::R;
                    self.clock = 0;
                    self.level = self.out;
                } else if (self.clock as i128) * one >= (a as i128) * sr {
                    self.state = EGState::D;
                    self.clock = 0;
                }
            },
            EGState::D => {
                if !gate && !repeat {
                    self.state = EGState::R;
                    self.clock = 0;
                    self.level = self.out;
                } else if (self.clock as i128) * one >= (d as i128) * sr {
                    self.state = EGState::S;
                    self.clock = 0;
                }
            },
            EGState::S => {
                if !gate {
                    self.state = EGState::R;
                    self.clock = 0;
                    self.level = self.out;
                }
            },
            EGState::R => {
                if !gate && (self.clock as i128) * one >= (r as i128) * sr {
                    self.state = EGState::Idle;
                    self.clock = 0;
                    self.level = 0;
                } else if gate {
                    self.state = EGState::A;
                    self.clock = 0;
                    self.level = self.out;
                }
            },
        }
        match self.state {
            EGState::Idle => {
                self.clock = 0;
                self.out = 0;
            },
            EGState::A => {
                if a > 0 {
                    proof {
                        assert((self.clock as int) * FP_ONE < (a as int) * (SAMPLES_PER_SEC
                            as int));
                        assert((self.clock as int) * FP_ONE * FP_ONE < ((SAMPLES_PER_SEC as int)
                            * (a as int)) * FP_ONE && (self.clock as int) * FP_ONE * FP_ONE
                            <= 0x1_0000_0000_0000_0000_0000_0000_0000) by (nonlinear_arith)
                            requires
                                (self.clock as int) * FP_ONE < (a as int) * (SAMPLES_PER_SEC
                                    as int),
                                0 <= self.clock <= 0xffff_ffff_ffff_ffff,
                                FP_ONE == 0x100_0000,
                                SAMPLES_PER_SEC == 44_100u32,
                                a > 0,
                        ;
                    }
                    let num: u128 = (self.clock as u128) * (one as u128) * (one as u128);
                    let den: u128 = (sr as u128) * (a as u128);
                    proof {
                        assert((den as int) * FP_ONE > num as int) by (nonlinear_arith)
                            requires
                                den as int == (SAMPLES_PER_SEC as int) * (a as int),
                                num as int == (self.clock as int) * FP_ONE * FP_ONE,
                                (self.clock as int) * FP_ONE * FP_ONE < ((SAMPLES_PER_SEC
                                    as int) * (a as int)) * FP_ONE,
                        ;
                        lemma_div_lt(num as int, den as int, FP_ONE as int);
                    }
                    let ratio: u128 = num / den;
                    let rr: i64 = ratio as i64;
                    let o: i64 = if self.level >= rr {
                        self.level
                    } else {
                        rr
                    };
                    self.out = o;
                }
            },
            EGState::D => {
                if d > 0 {
                    proof {
                        assert((self.clock as int) * FP_ONE < (d as int) * (SAMPLES_PER_SEC
                            as int));
                        assert(((FP_ONE - s) as int) * (self.clock as int) * FP_ONE < ((
                        SAMPLES_PER_SEC as int) * (d as int)) * FP_ONE && ((FP_ONE - s) as int) * (
                        self.clock as int) <= 0x100_0000_0000_0000_0000_0000 && ((FP_ONE
                            - s) as int) * (self.clock as int) * FP_ONE
                            <= 0x1_0000_0000_0000_0000_0000_0000_0000) by (nonlinear_arith)
                            requires
                                (self.clock as int) * FP_ONE < (d as int) * (SAMPLES_PER_SEC
                                    as int),
                                0 <= self.clock <= 0xffff_ffff_ffff_ffff,
                                0 <= s <= FP_ONE,
                                FP_ONE == 0x100_0000,
                                SAMPLES_PER_SEC == 44_100u32,
                                d > 0,
                        ;
                    }
                    let num: u128 = ((FP_ONE - s) as u128) * (self.clock as u128) * (one as u128);
                    let den: u128 = (sr as u128) * (d as u128);
                    proof {
                        lemma_div_lt(num as int, den as int, FP_ONE as int);
                    }
                    let fall: u128 = num / den;
                    self.out = FP_ONE - (fall as i64);
                }
            },
            EGState::S => {
                self.out = s;
            },
            EGState::R => {
                if r > 0 {
                    proof {
                        assert((self.clock as int) * (self.level as int) * FP_ONE
                            <= 0x1_0000_0000_0000_0000_0000_0000_0000) by (nonlinear_arith)
                            requires
                                0 <= self.clock <= 0xffff_ffff_ffff_ffff,
                                0 <= self.level <= FP_ONE,
                                FP_ONE == 0x100_0000,
                        ;
                    }
                    let num: u128 = (self.clock as u128) * (self.level as u128) * (one as u128);
                    let den: u128 = (sr as u128) * (r as u128);
                    let fall: u128 = num / den;
                    let o: i64 = if fall <= self.level as u128 {
                        self.level - (fall as i64)
                    } else {
                        0
                    };
                    self.out = o;
                }
            },
        }
        if self.clock < u64::MAX {
            self.clock = self.clock + 1;
        }
    }
}

/// The quotient of a nonnegative dividend is at least `b` when the dividend
/// is at least `b * d`.
pub proof fn lemma_div_ge(n: int, d: int, b: int)
    requires
        d > 0,
        0 <= b,
        n >= b * d,
    ensures
        n / d >= b,
{
    vstd::arithmetic::div_mod::lemma_div_is_ordered(b * d, n, d);
    vstd::arithmetic::div_mod::lemma_div_multiples_vanish(b, d);
    assert(b * d == d * b) by (nonlinear_arith);
}

/// A truncated quotient of a magnitude-bounded dividend is magnitude-bounded.
pub proof fn lemma_tdiv_magnitude(n: int, d: int, b: int)
    requires
        d > 0,
        0 <= b,
        -(b * d) <= n <= b * d,
    ensures
        -b <= tdiv(n, d) <= b,
{
    if n >= 0 {
        lemma_div_le(n, d, b);
        vstd::arithmetic::div_mod::lemma_div_pos_is_pos(n, d);
    } else {
        lemma_div_le(-n, d, b);
        vstd::arithmetic::div_mod::lemma_div_pos_is_pos(-n, d);
    }
}

/// Two pi in Q24.
pub const TWO_PI_FP: i64 = 105_414_357;

/// Four pi squared in Q24.
pub const FOUR_PI_SQ_FP: i64 = 662_337_939;

/// The square root of two in Q24.
pub const SQRT2_FP: i64 = 23_726_566;

/// The resonance-to-quality mapping's base, `0.025` in Q24.
pub const Q_BASE_FP: i64 = 419_430;

/// The resonance-to-quality mapping's slope, `9.975` in Q24.
pub const Q_SLOPE_FP: i64 = 167_352_729;

/// The pole quality factor a normalized resonance selects:
/// `(0.025 + resonance * 9.975) / sqrt(2)`, in Q24.
pub open spec fn lpf_q(res: int) -> int {
    fp_div_spec(Q_BASE_FP + fp_mul_spec(res, Q_SLOPE_FP as int), SQRT2_FP as int)
}

/// The quality factor of a resonance within `[0, 1]` lies between loose
/// positive bounds.
pub proof fn lemma_lpf_q_bounds(res: int)
    requires
        0 <= res <= FP_ONE,
    ensures
        290_000 <= lpf_q(res) <= 130_000_000,
{
    assert(0 <= res * Q_SLOPE_FP <= FP_ONE * Q_SLOPE_FP) by (nonlinear_arith)
        requires
            0 <= res <= FP_ONE,
            Q_SLOPE_FP == 167_352_729,
    ;
    vstd::arithmetic::div_mod::lemma_div_pos_is_pos(res * Q_SLOPE_FP, FP_ONE as int);
    lemma_div_le(res * Q_SLOPE_FP, FP_ONE as int, Q_SLOPE_FP as int);
    let x = Q_BASE_FP + fp_mul_spec(res, Q_SLOPE_FP as int);
    assert(Q_BASE_FP <= x <= Q_BASE_FP + Q_SLOPE_FP);
    assert(x * FP_ONE >= 290_000 * SQRT2_FP && x * FP_ONE <= 130_000_000 * SQRT2_FP)
        by (nonlinear_arith)
        requires
            419_430 <= x <= 419_430 + 167_352_729,
            FP_ONE == 0x100_0000,
            SQRT2_FP == 23_726_566,
    ;
    lemma_div_ge(x * FP_ONE, SQRT2_FP as int, 290_000);
    lemma_div_le(x * FP_ONE, SQRT2_FP as int, 130_000_000);
    vstd::arithmetic::div_mod::lemma_div_pos_is_pos(x * FP_ONE, SQRT2_FP as int);
}

/// The biquad coefficients `(a1, a2, b0, b1, b2)` the filter re-derives every
/// sample from the current cutoff (Q24 hertz) and normalized resonance, by
/// the bilinear transform of the analog two-pole low-pass prototype.
pub open spec fn lpf_coeffs(freq: int, res: int) -> (int, int, int, int, int) {
    let fc = freq / (SAMPLES_PER_SEC as int);
    let q = lpf_q(res);
    let t2 = fp_div_spec(fp_mul_spec(TWO_PI_FP as int, fc), q);
    let p2 = fp_mul_spec(FOUR_PI_SQ_FP as int, fp_mul_spec(fc, fc));
    let a0 = FP_ONE + t2 + p2;
    (
        fp_div_spec(2 * p2 - 2 * FP_ONE, a0),
        fp_div_spec(FP_ONE - t2 + p2, a0),
        fp_div_spec(p2, a0),
        fp_div_spec(2 * p2, a0),
        fp_div_spec(p2, a0),
    )
}

/// A delay line sized to the coefficient count, padded with zeroes when it
/// has not been sized yet.
pub open spec fn resize3(s: Seq<i64>) -> Seq<i64> {
    Seq::new(3, |i: int| if i < s.len() { s[i] } else { 0 })
}

/// Newest-first indexing into a circular delay line whose next write position
/// is `i`: `n == 0` is the most recent sample, `n` is `n` samples in the
/// past.
pub open spec fn buf_at_spec(buf: Seq<i64>, i: int, n: int) -> i64
    recommends
        0 < buf.len(),
        n < buf.len(),
        i <= buf.len(),
{
    if n < i {
        buf[i - 1 - n]
    } else {
        buf[buf.len() - 1 - (n - i)]
    }
}

/// Newest-first read from a circular delay line, per [`buf_at_spec`].
pub fn buf_at(buf: &Vec<i64>, i: usize, n: usize) -> (r: i64)
    requires
        0 < buf@.len(),
        n < buf@.len(),
        i <= buf@.len(),
    ensures
        r == buf_at_spec(buf@, i as int, n as int),
{
    if n < i {
        buf[i - 1 - n]
    } else {
        buf[buf.len() - 1 - (n - i)]
    }
}

/// A resonant low-pass filter: a second-order section whose coefficients are
/// re-derived every sample from the current cutoff and resonance controls, so
/// both can be swept at audio rate. Two circular delay lines hold the input
/// and output history.
pub struct IIRLPF {
    /// Normalized cutoff control, mapped exponentially onto
    /// `[freq_min, freq_max]` hertz.
    pub in_freq: Sig,
    /// Normalized resonance control within `[0, 1]`.
    pub in_resonance: Sig,
    /// The signal to filter.
    pub in_value: Sig,
    /// Low end of the cutoff range, Q24 hertz.
    pub freq_min: i64,
    /// High end of the cutoff range, Q24 hertz.
    pub freq_max: i64,
    /// Output history, newest-first relative to `i_a`.
    pub buf_a: Vec<i64>,
    pub i_a: usize,
    /// Input history, newest-first relative to `i_b`.
    pub buf_b: Vec<i64>,
    pub i_b: usize,
    /// The last computed sample, within the signal range.
    pub out: i64,
}

impl Default for IIRLPF {
    fn default() -> (r: IIRLPF)
        ensures
            r.in_freq == Sig::Const(0),
            r.in_resonance == Sig::Const(0),
            r.in_value == Sig::Const(0),
            r.freq_min == 100 * FP_ONE,
            r.freq_max == 10_000 * FP_ONE,
            r.buf_a@.len() == 0,
            r.buf_b@.len() == 0,
            r.i_a == 0,
            r.i_b == 0,
            r.out == 0,
            r.wf(),
    {
        IIRLPF {
            in_freq: Sig::Const(0),
            in_resonance: Sig::Const(0),
            in_value: Sig::Const(0),
            freq_min: 100 * FP_ONE,
            freq_max: 10_000 * FP_ONE,
            buf_a: Vec::new(),
            i_a: 0,
            buf_b: Vec::new(),
            i_b: 0,
            out: 0,
        }
    }
}

/// All entries of a delay line are within the signal range.
pub open spec fn buf_ok(buf: Seq<i64>) -> bool {
    forall|i: int| 0 <= i < buf.len() ==> -SIG_LIMIT <= #[trigger] buf[i] <= SIG_LIMIT
}

/// How one filter sample relates the new filter state to the old one, for
/// resolved cutoff control `fin`, resonance `rin` and input sample `vin`: the
/// input enters its delay line, the feed-forward and feedback sums are taken
/// with the freshly derived coefficients, and the result (forced into the
/// signal range) enters the output delay line and the output.
pub open spec fn lpf_rel(pre: IIRLPF, post: IIRLPF, fin: int, rin: int, vin: int) -> bool {
    let freq = restore_freq_spec(pre.freq_min as int, pre.freq_max as int, fin);
    let coeffs = lpf_coeffs(freq, rin);
    let bseq = resize3(pre.buf_b@).update(pre.i_b as int, vin as i64);
    let ib2 = ((pre.i_b + 1) as int) % 3;
    let aseq = resize3(pre.buf_a@);
    let ff = coeffs.2 * buf_at_spec(bseq, ib2, 0) + coeffs.3 * buf_at_spec(bseq, ib2, 1)
        + coeffs.4 * buf_at_spec(bseq, ib2, 2);
    let fb = ff - coeffs.0 * buf_at_spec(aseq, pre.i_a as int, 0) - coeffs.1 * buf_at_spec(
        aseq,
        pre.i_a as int,
        1,
    );
    let o = clamp_spec(tdiv(fb, FP_ONE as int), -SIG_LIMIT as int, SIG_LIMIT as int);
    &&& post.in_freq == pre.in_freq
    &&& post.in_resonance == pre.in_resonance
    &&& post.in_value == pre.in_value
    &&& post.freq_min == pre.freq_min
    &&& post.freq_max == pre.freq_max
    &&& post.buf_b@ == bseq
    &&& post.i_b == ib2
    &&& post.buf_a@ == aseq.update(pre.i_a as int, o as i64)
    &&& post.i_a == ((pre.i_a + 1) as int) % 3
    &&& post.out == o
}

impl IIRLPF {
    /// The filter's internal invariant: a usable cutoff range, delay lines
    /// either unsized or of coefficient length with in-range write positions,
    /// and all held samples within the signal range.
    pub open spec fn wf(self) -> bool {
        &&& 1 <= self.freq_min <= self.freq_max <= FREQ_LIMIT
        &&& (self.buf_a@.len() == 0 || self.buf_a@.len() == 3)
        &&& (self.buf_b@.len() == 0 || self.buf_b@.len() == 3)
        &&& self.i_a < 3
        &&& self.i_b < 3
        &&& buf_ok(self.buf_a@)
        &&& buf_ok(self.buf_b@)
        &&& -SIG_LIMIT <= self.out <= SIG_LIMIT
    }

    /// One filter sample from resolved inputs: the new state is related to
    /// the old exactly by [`lpf_rel`].
    #[verifier::rlimit(60)]
    pub fn update(&mut self, freq_in: i64, res_in: i64, value_in: i64)
        requires
            old(self).wf(),
            0 <= res_in <= FP_ONE,
            -SIG_LIMIT <= value_in <= SIG_LIMIT,
        ensures
            final(self).wf(),
            lpf_rel(*old(self), *final(self), freq_in as int, res_in as int, value_in as int),
    {
        let freq = restore_freq(self.freq_min, self.freq_max, freq_in);
        let fc: i64 = ((freq as u128) / (SAMPLES_PER_SEC as u128)) as i64;
        proof {
            lemma_div_le(freq as int, SAMPLES_PER_SEC as int, FP_ONE as int);
            vstd::arithmetic::div_mod::lemma_div_pos_is_pos(freq as int, SAMPLES_PER_SEC as int);
        }
        proof {
            assert(0 <= (res_in as int) * Q_SLOPE_FP <= FP_ONE * Q_SLOPE_FP) by (nonlinear_arith)
                requires
                    0 <= res_in <= FP_ONE,
                    Q_SLOPE_FP == 167_352_729,
            ;
            vstd::arithmetic::div_mod::lemma_div_pos_is_pos(
                (res_in as int) * Q_SLOPE_FP,
                FP_ONE as int,
            );
            lemma_div_le((res_in as int) * Q_SLOPE_FP, FP_ONE as int, Q_SLOPE_FP as int);
        }
        let m = crate::fixed::fp_mul(res_in, Q_SLOPE_FP);
        let x = Q_BASE_FP + m;
        proof {
            assert((x as int) * FP_ONE >= 290_000 * SQRT2_FP && (x as int) * FP_ONE <= 130_000_000
                * SQRT2_FP) by (nonlinear_arith)
                requires
                    419_430 <= x <= 419_430 + 167_352_729,
                    FP_ONE == 0x100_0000,
                    SQRT2_FP == 23_726_566,
            ;
            lemma_div_ge((x as int) * FP_ONE, SQRT2_FP as int, 290_000);
            lemma_div_le((x as int) * FP_ONE, SQRT2_FP as int, 130_000_000);
            vstd::arithmetic::div_mod::lemma_div_pos_is_pos((x as int) * FP_ONE, SQRT2_FP as int);
        }
        let q = crate::fixed::fp_div(x, SQRT2_FP);
        proof {
            assert(0 <= (TWO_PI_FP as int) * (fc as int) <= (TWO_PI_FP as int) * FP_ONE)
                by (nonlinear_arith)
                requires
                    0 <= fc <= FP_ONE,
                    TWO_PI_FP == 105_414_357,
            ;
            vstd::arithmetic::div_mod::lemma_div_pos_is_pos(
                (TWO_PI_FP as int) * (fc as int),
                FP_ONE as int,
            );
            lemma_div_le((TWO_PI_FP as int) * (fc as int), FP_ONE as int, TWO_PI_FP as int);
        }
        let t1 = crate::fixed::fp_mul(TWO_PI_FP, fc);
        proof {
            assert((t1 as int) * FP_ONE <= 7_000_000_000 * (q as int)) by (nonlinear_arith)
                requires
                    0 <= t1 <= TWO_PI_FP,
                    TWO_PI_FP == 105_414_357,
                    FP_ONE == 0x100_0000,
                    q >= 290_000,
            ;
            lemma_div_le((t1 as int) * FP_ONE, q as int, 7_000_000_000);
            vstd::arithmetic::div_mod::lemma_div_pos_is_pos((t1 as int) * FP_ONE, q as int);
        }
        let t2 = crate::fixed::fp_div(t1, q);
        proof {
            assert(0 <= (fc as int) * (fc as int) <= FP_ONE * FP_ONE) by (nonlinear_arith)
                requires
                    0 <= fc <= FP_ONE,
            ;
            vstd::arithmetic::div_mod::lemma_div_pos_is_pos((fc as int) * (fc as int), FP_ONE as int);
            lemma_div_le((fc as int) * (fc as int), FP_ONE as int, FP_ONE as int);
        }
        let fc2 = crate::fixed::fp_mul(fc, fc);
        proof {
            assert(0 <= (FOUR_PI_SQ_FP as int) * (fc2 as int) <= (FOUR_PI_SQ_FP as int) * FP_ONE)
                by (nonlinear_arith)
                requires
                    0 <= fc2 <= FP_ONE,
                    FOUR_PI_SQ_FP == 662_337_939,
            ;
            vstd::arithmetic::div_mod::lemma_div_pos_is_pos(
                (FOUR_PI_SQ_FP as int) * (fc2 as int),
                FP_ONE as int,
            );
            lemma_div_le((FOUR_PI_SQ_FP as int) * (fc2 as int), FP_ONE as int, FOUR_PI_SQ_FP as int);
        }
        let p2 = crate::fixed::fp_mul(FOUR_PI_SQ_FP, fc2);
        let a0 = FP_ONE + t2 + p2;
        proof {
            let a0i = a0 as int;
            assert(-(2 * FP_ONE * a0i) <= (2 * p2 - 2 * FP_ONE) * FP_ONE <= 2 * FP_ONE * a0i)
                by (nonlinear_arith)
                requires
                    a0i == FP_ONE + t2 + p2,
                    0 <= t2,
                    0 <= p2,
                    FP_ONE == 0x100_0000,
            ;
            lemma_tdiv_magnitude((2 * p2 - 2 * FP_ONE) * FP_ONE, a0i, 2 * FP_ONE as int);
            assert(-(FP_ONE * a0i) <= (FP_ONE - t2 + p2) * FP_ONE <= FP_ONE * a0i)
                by (nonlinear_arith)
                requires
                    a0i == FP_ONE + t2 + p2,
                    0 <= t2,
                    0 <= p2,
                    FP_ONE == 0x100_0000,
            ;
            lemma_tdiv_magnitude((FP_ONE - t2 + p2) * FP_ONE, a0i, FP_ONE as int);
            assert(0 <= (p2 as int) * FP_ONE <= FP_ONE * a0i && 0 <= 2 * (p2 as int) * FP_ONE <= 2
                * FP_ONE * a0i) by (nonlinear_arith)
                requires
                    a0i == FP_ONE + t2 + p2,
                    0 <= t2,
                    0 <= p2,
                    FP_ONE == 0x100_0000,
            ;
            lemma_tdiv_magnitude((p2 as int) * FP_ONE, a0i, FP_ONE as int);
            lemma_tdiv_magnitude(2 * (p2 as int) * FP_ONE, a0i, 2 * FP_ONE as int);
        }
        let ca1 = crate::fixed::fp_div(2 * p2 - 2 * FP_ONE, a0);
        let ca2 = crate::fixed::fp_div(FP_ONE - t2 + p2, a0);
        let cb0 = crate::fixed::fp_div(p2, a0);
        let cb1 = crate::fixed::fp_div(2 * p2, a0);
        let cb2 = crate::fixed::fp_div(p2, a0);
        if self.buf_a.len() == 0 {
            self.buf_a.push(0);
            self.buf_a.push(0);
            self.buf_a.push(0);
        }
        if self.buf_b.len() == 0 {
            self.buf_b.push(0);
            self.buf_b.push(0);
            self.buf_b.push(0);
        }
        proof {
            assert(self.buf_a@ =~= resize3(old(self).buf_a@));
            assert(self.buf_b@ =~= resize3(old(self).buf_b@));
        }
        self.buf_b.set(self.i_b, value_in);
        self.i_b = (self.i_b + 1) % 3;
        let x0 = buf_at(&self.buf_b, self.i_b, 0);
        let x1 = buf_at(&self.buf_b, self.i_b, 1);
        let x2 = buf_at(&self.buf_b, self.i_b, 2);
        let y0 = buf_at(&self.buf_a, self.i_a, 0);
        let y1 = buf_at(&self.buf_a, self.i_a, 1);
        proof {
            assert(-(2 * FP_ONE as int) * SIG_LIMIT <= (cb0 as int) * (x0 as int) <= (2 * FP_ONE
                as int) * SIG_LIMIT) by (nonlinear_arith)
                requires
                    -(2 * FP_ONE) <= cb0 <= 2 * FP_ONE,
                    -SIG_LIMIT <= x0 <= SIG_LIMIT,
            ;
            assert(-(2 * FP_ONE as int) * SIG_LIMIT <= (cb1 as int) * (x1 as int) <= (2 * FP_ONE
                as int) * SIG_LIMIT) by (nonlinear_arith)
                requires
                    -(2 * FP_ONE) <= cb1 <= 2 * FP_ONE,
                    -SIG_LIMIT <= x1 <= SIG_LIMIT,
            ;
            assert(-(2 * FP_ONE as int) * SIG_LIMIT <= (cb2 as int) * (x2 as int) <= (2 * FP_ONE
                as int) * SIG_LIMIT) by (nonlinear_arith)
                requires
                    -(2 * FP_ONE) <= cb2 <= 2 * FP_ONE,
                    -SIG_LIMIT <= x2 <= SIG_LIMIT,
            ;
            assert(-(2 * FP_ONE as int) * SIG_LIMIT <= (ca1 as int) * (y0 as int) <= (2 * FP_ONE
                as int) * SIG_LIMIT) by (nonlinear_arith)
                requires
                    -(2 * FP_ONE) <= ca1 <= 2 * FP_ONE,
                    -SIG_LIMIT <= y0 <= SIG_LIMIT,
            ;
            assert(-(2 * FP_ONE as int) * SIG_LIMIT <= (ca2 as int) * (y1 as int) <= (2 * FP_ONE
                as int) * SIG_LIMIT) by (nonlinear_arith)
                requires
                    -(2 * FP_ONE) <= ca2 <= 2 * FP_ONE,
                    -SIG_LIMIT <= y1 <= SIG_LIMIT,
            ;
        }
        let ff: i128 = (cb0 as i128) * (x0 as i128) + (cb1 as i128) * (x1 as i128) + (cb2 as i128)
            * (x2 as i128);
        let fb: i128 = ff - (ca1 as i128) * (y0 as i128) - (ca2 as i128) * (y1 as i128);
        let t = tdiv_i128(fb, FP_ONE as i128);
        let o = crate::fixed::clamp_i128(t, -SIG_LIMIT, SIG_LIMIT);
        self.buf_a.set(self.i_a, o);
        self.i_a = (self.i_a + 1) % 3;
        self.out = o;
    }
}

/// The identity and combination unit: its output is its single input
/// expression, evaluated against the current rack state.
pub struct Buf {
    pub in_value: Sig,
    /// The last computed sample, within the signal range.
    pub out: i64,
}

impl Default for Buf {
    fn default() -> (r: Buf)
        ensures
            r == (Buf { in_value: Sig::Const(0), out: 0 }),
    {
        Buf { in_value: Sig::Const(0), out: 0 }
    }
}

impl Buf {
    /// One sample: the output becomes the resolved input value.
    pub fn update(&mut self, value: i64)
        ensures
            *final(self) == (Buf { in_value: old(self).in_value, out: value }),
    {
        self.out = value;
    }
}

/// A boolean source fits the registry: its parameter index exists with the
/// boolean kind.
pub open spec fn boolsig_wf_def(s: BoolSig, def: Seq<crate::input::FieldDefModel>) -> bool {
    match s {
        BoolSig::Const(_) => true,
        BoolSig::Param(i) => i < def.len() && def[i as int].accessor is Bool,
    }
}

/// A waveform source fits the registry: its parameter index exists with the
/// enumeration kind.
pub open spec fn wfsig_wf_def(s: WfSig, def: Seq<crate::input::FieldDefModel>) -> bool {
    match s {
        WfSig::Const(_) => true,
        WfSig::Param(i) => i < def.len() && def[i as int].accessor is Enum,
    }
}

/// A continuous source fits the rack and the registry: every parameter index
/// it reads exists with the right kind and every unit index is in range.
pub open spec fn sig_wf_def(s: Sig, n_units: nat, def: Seq<crate::input::FieldDefModel>) -> bool
    decreases s,
{
    match s {
        Sig::Const(_) => true,
        Sig::Param(i) => i < def.len() && def[i as int].accessor is Float,
        Sig::Out(u) => u < n_units,
        Sig::Add(a, b) => sig_wf_def(*a, n_units, def) && sig_wf_def(*b, n_units, def),
        Sig::Mul(a, b) => sig_wf_def(*a, n_units, def) && sig_wf_def(*b, n_units, def),
        Sig::IfBool(c, a, b) => boolsig_wf_def(c, def) && sig_wf_def(*a, n_units, def)
            && sig_wf_def(*b, n_units, def),
        Sig::EnumIs(i, _, a, b) => i < def.len() && def[i as int].accessor is Enum && sig_wf_def(
            *a,
            n_units,
            def,
        ) && sig_wf_def(*b, n_units, def),
    }
}

/// A source that fits the registry is evaluable against any parameter set
/// that fits the same registry.
pub proof fn lemma_sig_ok(
    s: Sig,
    n_units: nat,
    def: Seq<crate::input::FieldDefModel>,
    state: Seq<crate::input::FieldModel>,
)
    requires
        sig_wf_def(s, n_units, def),
        crate::input::state_matches(state, def),
    ensures
        sig_ok(s, n_units, state),
    decreases s,
{
    match s {
        Sig::Const(_) => {},
        Sig::Param(i) => {
            assert(def[i as int].accessor.admits(state[i as int]));
        },
        Sig::Out(_) => {},
        Sig::Add(a, b) => {
            lemma_sig_ok(*a, n_units, def, state);
            lemma_sig_ok(*b, n_units, def, state);
        },
        Sig::Mul(a, b) => {
            lemma_sig_ok(*a, n_units, def, state);
            lemma_sig_ok(*b, n_units, def, state);
        },
        Sig::IfBool(c, a, b) => {
            if c is Param {
                let i = c->Param_0;
                assert(def[i as int].accessor.admits(state[i as int]));
            }
            lemma_sig_ok(*a, n_units, def, state);
            lemma_sig_ok(*b, n_units, def, state);
        },
        Sig::EnumIs(i, _, a, b) => {
            assert(def[i as int].accessor.admits(state[i as int]));
            lemma_sig_ok(*a, n_units, def, state);
            lemma_sig_ok(*b, n_units, def, state);
        },
    }
}

/// A boolean source that fits the registry is evaluable against any fitting
/// parameter set.
pub proof fn lemma_boolsig_ok(
    s: BoolSig,
    def: Seq<crate::input::FieldDefModel>,
    state: Seq<crate::input::FieldModel>,
)
    requires
        boolsig_wf_def(s, def),
        crate::input::state_matches(state, def),
    ensures
        boolsig_ok(s, state),
{
    if s is Param {
        let i = s->Param_0;
        assert(def[i as int].accessor.admits(state[i as int]));
    }
}

/// A waveform source that fits the registry is evaluable against any fitting
/// parameter set.
pub proof fn lemma_wfsig_ok(
    s: WfSig,
    def: Seq<crate::input::FieldDefModel>,
    state: Seq<crate::input::FieldModel>,
)
    requires
        wfsig_wf_def(s, def),
        crate::input::state_matches(state, def),
    ensures
        wfsig_ok(s, state),
{
    if s is Param {
        let i = s->Param_0;
        assert(def[i as int].accessor.admits(state[i as int]));
    }
}

/// The nonnegative part of a resolved time control.
pub open spec fn max0(x: int) -> int {
    if x < 0 {
        0
    } else {
        x
    }
}

/// One stateful DSP unit of a rack.
pub enum Module {
    Vco(VCO),
    Eg(EG),
    Lpf(IIRLPF),
    Buf(Buf),
}

/// How one oscillator sample relates the new state to the old one, against
/// resolved controls: the mirror of [`VCO::update`].
pub open spec fn vco_rel(
    pre: VCO,
    post: VCO,
    outs: Seq<i64>,
    state: Seq<crate::input::FieldModel>,
) -> bool {
    let x = sig_value(pre.in_freq, outs, state);
    let freq = restore_freq_spec(pre.freq_min as int, pre.freq_max as int, x);
    let w = wfsig_value(pre.in_waveform, state);
    &&& post.in_freq == pre.in_freq
    &&& post.in_waveform == pre.in_waveform
    &&& post.freq_min == pre.freq_min
    &&& post.freq_max == pre.freq_max
    &&& post.phase == vco_next_phase(pre.phase as int, freq)
    &&& (w != crate::WaveForm::Noise ==> post.out == waveform_value(w, post.phase as int))
    &&& (w == crate::WaveForm::Noise && (post.phase as int) >= phase_step(freq) ==> post.out
        == pre.out)
    &&& -FP_ONE <= post.out <= FP_ONE
}

/// How one sample relates a unit's new state to its old one, against the
/// current unit outputs and parameter set. The envelope's time controls are
/// forced nonnegative and its sustain level into `[0, 1]`; the filter's
/// resonance control is forced into `[0, 1]`.
pub open spec fn module_rel(
    pre: Module,
    post: Module,
    outs: Seq<i64>,
    state: Seq<crate::input::FieldModel>,
) -> bool {
    match (pre, post) {
        (Module::Vco(p), Module::Vco(q)) => vco_rel(p, q, outs, state),
        (Module::Eg(p), Module::Eg(q)) => q == eg_step(
            p,
            boolsig_value(p.in_gate, state),
            boolsig_value(p.in_repeat, state),
            max0(sig_value(p.in_a, outs, state)),
            max0(sig_value(p.in_d, outs, state)),
            clamp_spec(sig_value(p.in_s, outs, state), 0, FP_ONE as int),
            max0(sig_value(p.in_r, outs, state)),
        ),
        (Module::Lpf(p), Module::Lpf(q)) => lpf_rel(
            p,
            q,
            sig_value(p.in_freq, outs, state),
            clamp_spec(sig_value(p.in_resonance, outs, state), 0, FP_ONE as int),
            sig_value(p.in_value, outs, state),
        ),
        (Module::Buf(p), Module::Buf(q)) => q == (Buf {
            in_value: p.in_value,
            out: sig_value(p.in_value, outs, state) as i64,
        }),
        _ => false,
    }
}

impl Module {
    /// The unit's current output sample.
    pub open spec fn out_val(self) -> i64 {
        match self {
            Module::Vco(v) => v.out,
            Module::Eg(e) => e.out,
            Module::Lpf(f) => f.out,
            Module::Buf(b) => b.out,
        }
    }

    /// The unit's internal invariant, and that all its sources fit a rack of
    /// `n_units` units over the given registry.
    pub open spec fn wf(self, n_units: nat, def: Seq<crate::input::FieldDefModel>) -> bool {
        match self {
            Module::Vco(v) => v.wf() && sig_wf_def(v.in_freq, n_units, def) && wfsig_wf_def(
                v.in_waveform,
                def,
            ),
            Module::Eg(e) => e.wf() && boolsig_wf_def(e.in_gate, def) && boolsig_wf_def(
                e.in_repeat,
                def,
            ) && sig_wf_def(e.in_a, n_units, def) && sig_wf_def(e.in_d, n_units, def)
                && sig_wf_def(e.in_s, n_units, def) && sig_wf_def(e.in_r, n_units, def),
            Module::Lpf(f) => f.wf() && sig_wf_def(f.in_freq, n_units, def) && sig_wf_def(
                f.in_resonance,
                n_units,
                def,
            ) && sig_wf_def(f.in_value, n_units, def),
            Module::Buf(b) => -SIG_LIMIT <= b.out <= SIG_LIMIT && sig_wf_def(
                b.in_value,
                n_units,
                def,
            ),
        }
    }

    /// One sample of this unit: evaluate its sources against the current unit
    /// outputs and parameter set, then step its state; the new state is
    /// related to the old exactly by [`module_rel`].
    pub fn update(
        &mut self,
        outs: &Vec<i64>,
        input: &crate::input::Input,
        def: &crate::input::StateDefinition,
    )
        requires
            old(self).wf(outs@.len() as nat, def@),
            input.matches_def(def@),
            outs_ok(outs@),
        ensures
            final(self).wf(outs@.len() as nat, def@),
            module_rel(*old(self), *final(self), outs@, input@),
            -SIG_LIMIT <= final(self).out_val() <= SIG_LIMIT,
    {
        let ghost n = outs@.len() as nat;
        let ghost defm = def@;
        let ghost state = input@;
        match self {
            Module::Vco(v) => {
                proof {
                    lemma_sig_ok(v.in_freq, n, defm, state);
                    lemma_wfsig_ok(v.in_waveform, defm, state);
                }
                v.update(outs, input);
            },
            Module::Eg(e) => {
                proof {
                    lemma_boolsig_ok(e.in_gate, defm, state);
                    lemma_boolsig_ok(e.in_repeat, defm, state);
                    lemma_sig_ok(e.in_a, n, defm, state);
                    lemma_sig_ok(e.in_d, n, defm, state);
                    lemma_sig_ok(e.in_s, n, defm, state);
                    lemma_sig_ok(e.in_r, n, defm, state);
                }
                let gate = eval_boolsig(&e.in_gate, input);
                let repeat = eval_boolsig(&e.in_repeat, input);
                let a0 = eval_sig(&e.in_a, outs, input);
                let a = if a0 < 0 {
                    0
                } else {
                    a0
                };
                let d0 = eval_sig(&e.in_d, outs, input);
                let d = if d0 < 0 {
                    0
                } else {
                    d0
                };
                let s0 = eval_sig(&e.in_s, outs, input);
                let s = if s0 < 0 {
                    0
                } else if s0 > FP_ONE {
                    FP_ONE
                } else {
                    s0
                };
                let r0 = eval_sig(&e.in_r, outs, input);
                let r = if r0 < 0 {
                    0
                } else {
                    r0
                };
                e.update(gate, repeat, a, d, s, r);
            },
            Module::Lpf(f) => {
                proof {
                    lemma_sig_ok(f.in_freq, n, defm, state);
                    lemma_sig_ok(f.in_resonance, n, defm, state);
                    lemma_sig_ok(f.in_value, n, defm, state);
                }
                let fin = eval_sig(&f.in_freq, outs, input);
                let r0 = eval_sig(&f.in_resonance, outs, input);
                let res = if r0 < 0 {
                    0
                } else if r0 > FP_ONE {
                    FP_ONE
                } else {
                    r0
                };
                let vin = eval_sig(&f.in_value, outs, input);
                f.update(fin, res, vin);
            },
            Module::Buf(b) => {
                proof {
                    lemma_sig_ok(b.in_value, n, defm, state);
                }
                let v = eval_sig(&b.in_value, outs, input);
                b.update(v);
            },
        }
    }
}

} // verus!
