//! Laws of the engine: properties that hold of every input, stated and
//! proved over the step specifications of the units, the control-mapping
//! transforms, and the rack's evaluation order.

use vstd::prelude::*;
use crate::fixed::{tdiv, FP_ONE};
use crate::input::{
    next_field, AccessorModel, ButtonMode, ConfigModel, FieldModel, cycle_pick,
};
use crate::module::{
    buf_at_spec, eg_run, eg_step, eg_transition, lemma_div_le, lemma_div_lt, lpf_coeffs, lpf_rel,
    module_rel, resize3, samples_for, sig_value, time_reached, vco_rel, EGState, Module, Sig, EG,
    IIRLPF, SAMPLES_PER_SEC, VCO, PHASE_ONE,
};
use crate::rack::{mixed_outs, tick_rel};

verus! {

/// A clock of `c` samples has reached `t` Q24 seconds exactly when it has
/// counted `samples_for(t)` samples.
pub proof fn lemma_time_ceil(c: int, t: int)
    requires
        0 <= c,
        0 <= t,
    ensures
        time_reached(c, t) <==> c >= samples_for(t),
{
    let one = FP_ONE as int;
    let sr = SAMPLES_PER_SEC as int;
    let q = samples_for(t);
    vstd::arithmetic::div_mod::lemma_fundamental_div_mod(t * sr + one - 1, one);
    vstd::arithmetic::div_mod::lemma_mod_bound(t * sr + one - 1, one);
    vstd::arithmetic::div_mod::lemma_div_pos_is_pos(t * sr + one - 1, one);
    assert(q * one >= t * sr);
    if c >= q {
        assert(c * one >= q * one) by (nonlinear_arith)
            requires
                c >= q,
                one > 0,
        ;
    }
    if time_reached(c, t) {
        lemma_div_lt(t * sr + one - 1, one, c + 1);
    }
}

/// One envelope step preserves the envelope's invariant, for inputs in
/// range.
pub proof fn lemma_eg_step_wf(pre: EG, gate: bool, repeat: bool, a: int, d: int, s: int, r: int)
    requires
        pre.wf(),
        0 <= a,
        0 <= d,
        0 <= s <= FP_ONE,
        0 <= r,
    ensures
        eg_step(pre, gate, repeat, a, d, s, r).wf(),
        eg_step(pre, gate, repeat, a, d, s, r).level == eg_transition(
            pre,
            gate,
            repeat,
            a,
            d,
            r,
        ).level,
{
    let sr = SAMPLES_PER_SEC as int;
    let one = FP_ONE as int;
    let mid = eg_transition(pre, gate, repeat, a, d, r);
    let clock = mid.clock as int;
    assert(0 <= mid.level <= FP_ONE);
    match mid.state {
        EGState::Idle => {},
        EGState::A => {
            if a > 0 {
                assert(clock * one < a * sr);
                let num = clock * one * one;
                assert(0 <= num && num < (sr * a) * one) by (nonlinear_arith)
                    requires
                        num == clock * one * one,
                        clock * one < a * sr,
                        clock >= 0,
                        one == 0x100_0000,
                        sr == 44_100,
                        a > 0,
                ;
                lemma_div_lt(num, sr * a, one);
                vstd::arithmetic::div_mod::lemma_div_pos_is_pos(num, sr * a);
            }
        },
        EGState::D => {
            if d > 0 {
                assert(clock * one < d * sr);
                let num = (one - s) * clock * one;
                assert(0 <= num && num < (sr * d) * one) by (nonlinear_arith)
                    requires
                        num == (one - s) * clock * one,
                        clock * one < d * sr,
                        clock >= 0,
                        0 <= s <= one,
                        one == 0x100_0000,
                        sr == 44_100,
                        d > 0,
                ;
                lemma_div_lt(num, sr * d, one);
                vstd::arithmetic::div_mod::lemma_div_pos_is_pos(num, sr * d);
            }
        },
        EGState::S => {},
        EGState::R => {
            if r > 0 {
                let num = clock * (mid.level as int) * one;
                assert(0 <= num) by (nonlinear_arith)
                    requires
                        num == clock * (mid.level as int) * one,
                        clock >= 0,
                        mid.level >= 0,
                        one == 0x100_0000,
                ;
                vstd::arithmetic::div_mod::lemma_div_pos_is_pos(num, sr * r);
            }
        },
    }
}

/// Law: an envelope whose gate is held keeps sustaining: after any number of
/// further samples it is still in the sustain state, and its output is the
/// sustain level.
pub proof fn lemma_eg_sustain_holds(
    pre: EG,
    repeat: bool,
    a: int,
    d: int,
    s: int,
    r: int,
    n: nat,
)
    requires
        pre.state == EGState::S,
        0 <= s <= FP_ONE,
    ensures
        eg_run(pre, true, repeat, a, d, s, r, n).state == EGState::S,
        n >= 1 ==> eg_run(pre, true, repeat, a, d, s, r, n).out == s,
        n == 0 ==> eg_run(pre, true, repeat, a, d, s, r, n).out == pre.out,
    decreases n,
{
    if n >= 1 {
        let next = eg_step(pre, true, repeat, a, d, s, r);
        assert(next.state == EGState::S && next.out == s);
        lemma_eg_sustain_holds(next, repeat, a, d, s, r, (n - 1) as nat);
    }
}

/// Law: an envelope in decay whose gate is held reaches sustain once its
/// clock has counted the decay time out, and then outputs the sustain level
/// exactly.
pub proof fn lemma_eg_decay_reaches_sustain(
    pre: EG,
    repeat: bool,
    a: int,
    d: int,
    s: int,
    r: int,
    n: nat,
)
    requires
        pre.wf(),
        pre.state == EGState::D,
        0 <= a,
        0 <= d <= 0x7fff_ffff_ffff_ffff,
        0 <= s <= FP_ONE,
        0 <= r,
        n >= 1,
        time_reached(pre.clock as int, d) || (n as int) >= samples_for(d) - (pre.clock as int) + 1,
    ensures
        eg_run(pre, true, repeat, a, d, s, r, n).state == EGState::S,
        eg_run(pre, true, repeat, a, d, s, r, n).out == s,
    decreases n,
{
    let next = eg_step(pre, true, repeat, a, d, s, r);
    lemma_eg_step_wf(pre, true, repeat, a, d, s, r);
    lemma_time_ceil(pre.clock as int, d);
    if time_reached(pre.clock as int, d) {
        assert(next.state == EGState::S && next.out == s);
        lemma_eg_sustain_holds(next, repeat, a, d, s, r, (n - 1) as nat);
    } else {
        assert(next.state == EGState::D);
        assert((pre.clock as int) * FP_ONE < d * (SAMPLES_PER_SEC as int));
        assert((pre.clock as int) < 0x100_0000_0000_0000_0000) by (nonlinear_arith)
            requires
                (pre.clock as int) * FP_ONE < d * (SAMPLES_PER_SEC as int),
                0 <= d < 0x8000_0000_0000_0000,
                FP_ONE == 0x100_0000,
                SAMPLES_PER_SEC == 44_100u32,
        ;
        assert(next.clock == pre.clock + 1);
        lemma_eg_decay_reaches_sustain(next, repeat, a, d, s, r, (n - 1) as nat);
    }
}

/// Law: an envelope in attack whose gate is held reaches sustain once its
/// clock has counted the attack and decay times out, and then outputs the
/// sustain level exactly.
pub proof fn lemma_eg_attack_reaches_sustain(
    pre: EG,
    repeat: bool,
    a: int,
    d: int,
    s: int,
    r: int,
    n: nat,
)
    requires
        pre.wf(),
        pre.state == EGState::A,
        0 <= a <= 0x7fff_ffff_ffff_ffff,
        0 <= d <= 0x7fff_ffff_ffff_ffff,
        0 <= s <= FP_ONE,
        0 <= r,
        (n as int) >= (if time_reached(pre.clock as int, a) {
            0int
        } else {
            samples_for(a) - (pre.clock as int)
        }) + (if samples_for(d) >= 1 {
            samples_for(d)
        } else {
            1int
        }) + 1,
    ensures
        eg_run(pre, true, repeat, a, d, s, r, n).state == EGState::S,
        eg_run(pre, true, repeat, a, d, s, r, n).out == s,
    decreases n,
{
    let next = eg_step(pre, true, repeat, a, d, s, r);
    lemma_eg_step_wf(pre, true, repeat, a, d, s, r);
    lemma_time_ceil(pre.clock as int, a);
    vstd::arithmetic::div_mod::lemma_div_pos_is_pos(
        d * (SAMPLES_PER_SEC as int) + FP_ONE - 1,
        FP_ONE as int,
    );
    if time_reached(pre.clock as int, a) {
        assert(next.state == EGState::D && next.clock == 1);
        lemma_time_ceil(1, d);
        lemma_eg_decay_reaches_sustain(next, repeat, a, d, s, r, (n - 1) as nat);
    } else {
        assert(next.state == EGState::A);
        assert((pre.clock as int) * FP_ONE < a * (SAMPLES_PER_SEC as int));
        assert((pre.clock as int) < 0x100_0000_0000_0000_0000) by (nonlinear_arith)
            requires
                (pre.clock as int) * FP_ONE < a * (SAMPLES_PER_SEC as int),
                0 <= a < 0x8000_0000_0000_0000,
                FP_ONE == 0x100_0000,
                SAMPLES_PER_SEC == 44_100u32,
        ;
        assert(next.clock == pre.clock + 1);
        lemma_eg_attack_reaches_sustain(next, repeat, a, d, s, r, (n - 1) as nat);
    }
}

/// Law: an idle envelope whose gate is raised and held for at least the
/// attack and decay times reaches the sustain state with output exactly the
/// sustain level.
pub proof fn lemma_eg_gate_reaches_sustain(
    pre: EG,
    repeat: bool,
    a: int,
    d: int,
    s: int,
    r: int,
    n: nat,
)
    requires
        pre.wf(),
        pre.state == EGState::Idle,
        0 <= a <= 0x7fff_ffff_ffff_ffff,
        0 <= d <= 0x7fff_ffff_ffff_ffff,
        0 <= s <= FP_ONE,
        0 <= r,
        (n as int) >= samples_for(a) + (if samples_for(d) >= 1 {
            samples_for(d)
        } else {
            1int
        }) + 2,
    ensures
        eg_run(pre, true, repeat, a, d, s, r, n).state == EGState::S,
        eg_run(pre, true, repeat, a, d, s, r, n).out == s,
{
    let next = eg_step(pre, true, repeat, a, d, s, r);
    lemma_eg_step_wf(pre, true, repeat, a, d, s, r);
    assert(next.state == EGState::A && next.clock == 1);
    lemma_time_ceil(1, a);
    vstd::arithmetic::div_mod::lemma_div_pos_is_pos(
        a * (SAMPLES_PER_SEC as int) + FP_ONE - 1,
        FP_ONE as int,
    );
    lemma_eg_attack_reaches_sustain(next, repeat, a, d, s, r, (n - 1) as nat);
}

/// Law: when an envelope is released (gate and repeat dropped) out of attack,
/// decay or sustain, its output does not jump: the first released sample
/// equals the last held one.
pub proof fn lemma_eg_release_continuity(pre: EG, a: int, d: int, s: int, r: int)
    requires
        pre.wf(),
        pre.state == EGState::A || pre.state == EGState::D || pre.state == EGState::S,
        0 <= a,
        0 <= d,
        0 <= s <= FP_ONE,
        0 <= r,
    ensures
        eg_step(pre, false, false, a, d, s, r).out == pre.out,
        eg_step(pre, false, false, a, d, s, r).state == EGState::R,
        eg_step(pre, false, false, a, d, s, r).level == pre.out,
{
    let mid = eg_transition(pre, false, false, a, d, r);
    assert(mid.state == EGState::R && mid.clock == 0 && mid.level == pre.out);
    if r > 0 {
        assert(0 * (mid.level as int) * (FP_ONE as int) == 0) by (nonlinear_arith);
        assert((SAMPLES_PER_SEC as int) * r > 0) by (nonlinear_arith)
            requires
                r > 0,
                SAMPLES_PER_SEC == 44_100u32,
        ;
        vstd::arithmetic::div_mod::lemma_div_pos_is_pos(0, (SAMPLES_PER_SEC as int) * r);
        lemma_div_le(0, (SAMPLES_PER_SEC as int) * r, 0);
    }
}

/// Law: a released envelope decays to exactly zero: once its clock has
/// counted the release time out, it is idle with output zero, and stays so.
pub proof fn lemma_eg_release_reaches_idle(pre: EG, a: int, d: int, s: int, r: int, n: nat)
    requires
        pre.wf(),
        pre.state == EGState::R,
        0 <= a,
        0 <= d,
        0 <= s <= FP_ONE,
        0 <= r <= 0x7fff_ffff_ffff_ffff,
        n >= 1,
        time_reached(pre.clock as int, r) || (n as int) >= samples_for(r) - (pre.clock as int) + 1,
    ensures
        eg_run(pre, false, false, a, d, s, r, n).state == EGState::Idle,
        eg_run(pre, false, false, a, d, s, r, n).out == 0,
    decreases n,
{
    let next = eg_step(pre, false, false, a, d, s, r);
    lemma_eg_step_wf(pre, false, false, a, d, s, r);
    lemma_time_ceil(pre.clock as int, r);
    if time_reached(pre.clock as int, r) {
        assert(next.state == EGState::Idle && next.out == 0);
        lemma_eg_idle_stays(next, a, d, s, r, (n - 1) as nat);
    } else {
        assert(next.state == EGState::R);
        assert((pre.clock as int) * FP_ONE < r * (SAMPLES_PER_SEC as int));
        assert((pre.clock as int) < 0x100_0000_0000_0000_0000) by (nonlinear_arith)
            requires
                (pre.clock as int) * FP_ONE < r * (SAMPLES_PER_SEC as int),
                0 <= r < 0x8000_0000_0000_0000,
                FP_ONE == 0x100_0000,
                SAMPLES_PER_SEC == 44_100u32,
        ;
        assert(next.clock == pre.clock + 1);
        lemma_eg_release_reaches_idle(next, a, d, s, r, (n - 1) as nat);
    }
}

/// An idle envelope with no gate stays idle with output zero.
pub proof fn lemma_eg_idle_stays(pre: EG, a: int, d: int, s: int, r: int, n: nat)
    requires
        pre.state == EGState::Idle,
    ensures
        eg_run(pre, false, false, a, d, s, r, n).state == EGState::Idle,
        n >= 1 ==> eg_run(pre, false, false, a, d, s, r, n).out == 0,
        n == 0 ==> eg_run(pre, false, false, a, d, s, r, n).out == pre.out,
    decreases n,
{
    if n >= 1 {
        let next = eg_step(pre, false, false, a, d, s, r);
        lemma_eg_idle_stays(next, a, d, s, r, (n - 1) as nat);
    }
}

/// Law: a gate raised while the envelope is releasing re-triggers it: the
/// envelope moves to attack with its captured level equal to the release
/// value at that very moment — neither zero nor one.
pub proof fn lemma_eg_retrigger(pre: EG, repeat: bool, a: int, d: int, s: int, r: int)
    requires
        pre.wf(),
        pre.state == EGState::R,
        0 <= a,
        0 <= d,
        0 <= s <= FP_ONE,
        0 <= r,
    ensures
        eg_step(pre, true, repeat, a, d, s, r).state == EGState::A,
        eg_step(pre, true, repeat, a, d, s, r).level == pre.out,
        a > 0 ==> eg_step(pre, true, repeat, a, d, s, r).out == pre.out,
{
    let mid = eg_transition(pre, true, repeat, a, d, r);
    assert(mid.state == EGState::A && mid.clock == 0 && mid.level == pre.out);
    if a > 0 {
        assert(0 * (FP_ONE as int) * (FP_ONE as int) == 0) by (nonlinear_arith);
        assert((SAMPLES_PER_SEC as int) * a > 0) by (nonlinear_arith)
            requires
                a > 0,
                SAMPLES_PER_SEC == 44_100u32,
        ;
        vstd::arithmetic::div_mod::lemma_div_pos_is_pos(0, (SAMPLES_PER_SEC as int) * a);
        lemma_div_le(0, (SAMPLES_PER_SEC as int) * a, 0);
    }
}

/// Law: the oscillator's phase stays within `[0, PHASE_ONE)` — the image of
/// `[0, 2*pi)` — after every update, whatever the frequency control did.
pub proof fn lemma_vco_phase_in_cycle(pre: VCO, post: VCO, outs: Seq<i64>, state: Seq<FieldModel>)
    requires
        vco_rel(pre, post, outs, state),
    ensures
        0 <= post.phase < PHASE_ONE,
{
    let x = sig_value(pre.in_freq, outs, state);
    let freq = crate::module::restore_freq_spec(pre.freq_min as int, pre.freq_max as int, x);
    let sum = pre.phase as int + crate::module::phase_step(freq);
    vstd::arithmetic::div_mod::lemma_mod_bound(sum, PHASE_ONE as int);
}

/// Law: a filter whose state is all zero and whose input sample is zero
/// outputs zero and keeps the all-zero state: with the input held at zero the
/// output stays settled at zero.
pub proof fn lemma_lpf_zero_settles(pre: IIRLPF, post: IIRLPF, fin: int, rin: int)
    requires
        lpf_rel(pre, post, fin, rin, 0),
        pre.i_a < 3,
        pre.i_b < 3,
        forall|i: int| 0 <= i < pre.buf_a@.len() ==> #[trigger] pre.buf_a@[i] == 0,
        forall|i: int| 0 <= i < pre.buf_b@.len() ==> #[trigger] pre.buf_b@[i] == 0,
    ensures
        post.out == 0,
        forall|i: int| 0 <= i < post.buf_a@.len() ==> #[trigger] post.buf_a@[i] == 0,
        forall|i: int| 0 <= i < post.buf_b@.len() ==> #[trigger] post.buf_b@[i] == 0,
{
    let freq = crate::module::restore_freq_spec(pre.freq_min as int, pre.freq_max as int, fin);
    let coeffs = lpf_coeffs(freq, rin);
    let bseq = resize3(pre.buf_b@).update(pre.i_b as int, 0i64);
    let ib2 = ((pre.i_b + 1) as int) % 3;
    let aseq = resize3(pre.buf_a@);
    assert(forall|i: int| 0 <= i < 3 ==> #[trigger] bseq[i] == 0);
    assert(forall|i: int| 0 <= i < 3 ==> #[trigger] aseq[i] == 0);
    let ff = coeffs.2 * buf_at_spec(bseq, ib2, 0) + coeffs.3 * buf_at_spec(bseq, ib2, 1)
        + coeffs.4 * buf_at_spec(bseq, ib2, 2);
    assert(ff == 0) by (nonlinear_arith)
        requires
            buf_at_spec(bseq, ib2, 0) == 0,
            buf_at_spec(bseq, ib2, 1) == 0,
            buf_at_spec(bseq, ib2, 2) == 0,
            ff == coeffs.2 * buf_at_spec(bseq, ib2, 0) + coeffs.3 * buf_at_spec(bseq, ib2, 1)
                + coeffs.4 * buf_at_spec(bseq, ib2, 2),
    ;
    let fb = ff - coeffs.0 * buf_at_spec(aseq, pre.i_a as int, 0) - coeffs.1 * buf_at_spec(
        aseq,
        pre.i_a as int,
        1,
    );
    assert(fb == 0) by (nonlinear_arith)
        requires
            ff == 0,
            buf_at_spec(aseq, pre.i_a as int, 0) == 0,
            buf_at_spec(aseq, pre.i_a as int, 1) == 0,
            fb == ff - coeffs.0 * buf_at_spec(aseq, pre.i_a as int, 0) - coeffs.1 * buf_at_spec(
                aseq,
                pre.i_a as int,
                1,
            ),
    ;
    assert(tdiv(0, FP_ONE as int) == 0);
    assert(post.out == 0);
    assert(forall|i: int|
        0 <= i < post.buf_a@.len() ==> #[trigger] post.buf_a@[i] == aseq.update(
            pre.i_a as int,
            0i64,
        )[i]);
}

/// Law: a toggle button flips the bound boolean field exactly once per press
/// (byte at least `0x40`), and a release never changes it.
pub proof fn lemma_toggle_semantics(
    name: Seq<char>,
    acc: AccessorModel,
    cur: FieldModel,
    value: u8,
)
    requires
        cur is Bool,
    ensures
        value >= 0x40 ==> next_field(
            ConfigModel::Bool { name, mode: ButtonMode::Toggle },
            acc,
            cur,
            value,
        ) == FieldModel::Bool(!cur.bool_value()),
        value < 0x40 ==> next_field(
            ConfigModel::Bool { name, mode: ButtonMode::Toggle },
            acc,
            cur,
            value,
        ) == cur,
{
}

/// Law: a momentary button makes the bound boolean field equal the pressed
/// state (byte at least `0x40`) after every message.
pub proof fn lemma_momentary_semantics(
    name: Seq<char>,
    acc: AccessorModel,
    cur: FieldModel,
    value: u8,
)
    ensures
        next_field(ConfigModel::Bool { name, mode: ButtonMode::Momentary }, acc, cur, value)
            == FieldModel::Bool(value >= 0x40),
{
}

/// Law: a press on an enumeration binding advances the field to the value
/// after the current one's first occurrence in the configured subset,
/// wrapping at the end, whenever that value is one the field can hold; a
/// release changes nothing.
pub proof fn lemma_enum_cycle(
    name: Seq<char>,
    names: Seq<Seq<char>>,
    values: Seq<Seq<char>>,
    cur: FieldModel,
    value: u8,
    i: int,
)
    requires
        cur is Enum,
        values.index_of_first(cur.enum_value()) == Some(i),
        0 <= i < values.len(),
        names.contains(values[(i + 1) % (values.len() as int)]),
    ensures
        value >= 0x40 ==> next_field(
            ConfigModel::Enum { name, values },
            AccessorModel::Enum { names },
            cur,
            value,
        ) == FieldModel::Enum(values[(i + 1) % (values.len() as int)]),
        value < 0x40 ==> next_field(
            ConfigModel::Enum { name, values },
            AccessorModel::Enum { names },
            cur,
            value,
        ) == cur,
{
    assert(cycle_pick(values, cur.enum_value()) == (i + 1) % (values.len() as int));
}

/// Law (same-tick coupling): when a consumer reading a producer's output is
/// declared after the producer, one rack tick lets the consumer see the
/// producer's value computed in this very tick.
pub proof fn lemma_rack_same_tick(
    pre: Seq<(String, Module)>,
    post: Seq<(String, Module)>,
    state: Seq<FieldModel>,
    p: usize,
    c: int,
)
    requires
        0 <= p < c < pre.len(),
        tick_rel(pre, post, state),
        pre[c].1 matches Module::Buf(b) && b.in_value == Sig::Out(p),
    ensures
        post[c].1.out_val() == post[p as int].1.out_val(),
{
    assert(module_rel(pre[c].1, post[c].1, mixed_outs(pre, post, c), state));
    assert(mixed_outs(pre, post, c)[p as int] == post[p as int].1.out_val());
}

/// Law (one-tick delay): when a consumer reading a producer's output is
/// declared before the producer, one rack tick lets the consumer see only the
/// producer's value from the previous tick.
pub proof fn lemma_rack_one_tick_delay(
    pre: Seq<(String, Module)>,
    post: Seq<(String, Module)>,
    state: Seq<FieldModel>,
    p: usize,
    c: int,
)
    requires
        0 <= c <= p < pre.len(),
        tick_rel(pre, post, state),
        pre[c].1 matches Module::Buf(b) && b.in_value == Sig::Out(p),
    ensures
        post[c].1.out_val() == pre[p as int].1.out_val(),
{
    assert(module_rel(pre[c].1, post[c].1, mixed_outs(pre, post, c), state));
    assert(mixed_outs(pre, post, c)[p as int] == pre[p as int].1.out_val());
}

} // verus!
