use rustsynth::fixed::FP_ONE;
use rustsynth::input::StateDefinition;
use rustsynth::module::{
    restore_freq, BoolSig, EGState, Sig, WfSig, EG, IIRLPF, VCO,
};
use rustsynth::WaveForm;

/// Samples needed for an envelope clock to reach `t` Q24 seconds.
fn samples(t: i64) -> i64 {
    (t * 44_100 + FP_ONE - 1) / FP_ONE
}

#[test]
fn restore_freq_endpoints_are_exact() {
    let min = 100 * FP_ONE;
    let max = 10_000 * FP_ONE;
    assert_eq!(restore_freq(min, max, 0), min);
    assert_eq!(restore_freq(min, max, -5 * FP_ONE), min);
    assert_eq!(restore_freq(min, max, FP_ONE), max);
    assert_eq!(restore_freq(min, max, 2 * FP_ONE), max);
}

#[test]
fn restore_freq_midpoint_is_geometric_mean() {
    let min = 100 * FP_ONE;
    let max = 10_000 * FP_ONE;
    let mid = restore_freq(min, max, FP_ONE / 2);
    // sqrt(100 * 10000) = 1000 Hz, within one percent
    let expect = 1_000.0f64;
    let got = mid as f64 / FP_ONE as f64;
    assert!((got - expect).abs() < expect * 0.01, "got {} Hz", got);
}

#[test]
fn restore_freq_is_monotone_on_samples() {
    let min = FP_ONE / 10;
    let max = 15_000 * FP_ONE;
    let mut last = restore_freq(min, max, 0);
    for k in 1..=16i64 {
        let x = k * FP_ONE / 16;
        let cur = restore_freq(min, max, x);
        assert!(cur >= last, "not monotone at {}", k);
        last = cur;
    }
}

fn empty_input() -> rustsynth::input::Input {
    StateDefinition::new().new_input()
}

fn quarter_step_vco(wf: WaveForm) -> VCO {
    // 11025 Hz advances the phase by exactly a quarter cycle per sample
    VCO {
        in_freq: Sig::Const(0),
        in_waveform: WfSig::Const(wf),
        phase: 0,
        freq_min: 11_025 * FP_ONE,
        freq_max: 11_025 * FP_ONE,
        out: 0,
    }
}

#[test]
fn vco_phase_stays_in_cycle() {
    let input = empty_input();
    let outs: Vec<i64> = Vec::new();
    let mut vco = VCO {
        in_freq: Sig::Const(FP_ONE / 3),
        in_waveform: WfSig::Const(WaveForm::Sine),
        phase: 0,
        freq_min: FP_ONE / 10,
        freq_max: 15_000 * FP_ONE,
        out: 0,
    };
    for _ in 0..1000 {
        vco.update(&outs, &input);
        assert!(vco.phase < 0x1_0000_0000);
        assert!(-FP_ONE <= vco.out && vco.out <= FP_ONE);
    }
}

#[test]
fn square_wave_values() {
    let input = empty_input();
    let outs: Vec<i64> = Vec::new();
    let mut vco = quarter_step_vco(WaveForm::Square);
    let mut seen = Vec::new();
    for _ in 0..4 {
        vco.update(&outs, &input);
        seen.push(vco.out);
    }
    // phases: quarter, half, three quarters, zero
    assert_eq!(seen, vec![FP_ONE, -FP_ONE, -FP_ONE, FP_ONE]);
}

#[test]
fn sawtooth_wave_values() {
    let input = empty_input();
    let outs: Vec<i64> = Vec::new();
    let mut vco = quarter_step_vco(WaveForm::Sawtooth);
    let mut seen = Vec::new();
    for _ in 0..4 {
        vco.update(&outs, &input);
        seen.push(vco.out);
    }
    // ramp: quarter gives 1/2, half restarts at -1, then -1/2, then 0
    assert_eq!(seen, vec![FP_ONE / 2, -FP_ONE, -FP_ONE / 2, 0]);
}

#[test]
fn triangle_wave_values() {
    let input = empty_input();
    let outs: Vec<i64> = Vec::new();
    let mut vco = quarter_step_vco(WaveForm::Triangle);
    let mut seen = Vec::new();
    for _ in 0..4 {
        vco.update(&outs, &input);
        seen.push(vco.out);
    }
    assert_eq!(seen, vec![FP_ONE, 0, -FP_ONE, 0]);
}

#[test]
fn sine_wave_values() {
    let input = empty_input();
    let outs: Vec<i64> = Vec::new();
    let mut vco = quarter_step_vco(WaveForm::Sine);
    let mut seen = Vec::new();
    for _ in 0..4 {
        vco.update(&outs, &input);
        seen.push(vco.out);
    }
    // the parabolic sine is exact at the quarter points
    assert_eq!(seen, vec![FP_ONE, 0, -FP_ONE, 0]);
}

#[test]
fn noise_holds_between_periods_and_stays_in_range() {
    let input = empty_input();
    let outs: Vec<i64> = Vec::new();
    // 100 Hz noise: a fresh sample only ~every 441 samples
    let mut vco = VCO {
        in_freq: Sig::Const(0),
        in_waveform: WfSig::Const(WaveForm::Noise),
        phase: 0,
        freq_min: 100 * FP_ONE,
        freq_max: 100 * FP_ONE,
        out: 0,
    };
    let mut changes = 0;
    let mut last = vco.out;
    for _ in 0..1000 {
        vco.update(&outs, &input);
        assert!(-FP_ONE <= vco.out && vco.out <= FP_ONE);
        if vco.out != last {
            changes += 1;
            last = vco.out;
        }
    }
    // about 1000/441 fresh draws; far fewer than one per sample
    assert!(changes <= 10, "noise changed {} times", changes);
}

fn run_eg(eg: &mut EG, gate: bool, a: i64, d: i64, s: i64, r: i64, n: i64) {
    for _ in 0..n {
        eg.update(gate, false, a, d, s, r);
    }
}

#[test]
fn eg_reaches_sustain_exactly() {
    let a = FP_ONE / 10;
    let d = FP_ONE / 20;
    let s = 8 * FP_ONE / 10;
    let r = FP_ONE / 10;
    let mut eg = EG::default();
    run_eg(&mut eg, true, a, d, s, r, samples(a) + samples(d) + 2);
    assert_eq!(eg.state, EGState::S);
    assert_eq!(eg.out, s);
}

#[test]
fn eg_release_is_continuous_and_reaches_zero() {
    let a = FP_ONE / 10;
    let d = FP_ONE / 20;
    let s = 8 * FP_ONE / 10;
    let r = FP_ONE / 10;
    let mut eg = EG::default();
    run_eg(&mut eg, true, a, d, s, r, samples(a) + samples(d) + 3);
    assert_eq!(eg.out, s);
    // the first released sample keeps the sustained value: no discontinuity
    eg.update(false, false, a, d, s, r);
    assert_eq!(eg.state, EGState::R);
    assert_eq!(eg.out, s);
    // decays monotonically and reaches exactly zero after the release time
    let mut last = eg.out;
    for _ in 0..(samples(r) + 2) {
        eg.update(false, false, a, d, s, r);
        assert!(eg.out <= last);
        last = eg.out;
    }
    assert_eq!(eg.state, EGState::Idle);
    assert_eq!(eg.out, 0);
}

#[test]
fn eg_retrigger_resumes_from_release_level() {
    let a = FP_ONE / 10;
    let d = FP_ONE / 20;
    let s = 8 * FP_ONE / 10;
    let r = FP_ONE / 10;
    let mut eg = EG::default();
    run_eg(&mut eg, true, a, d, s, r, samples(a) + samples(d) + 3);
    // release partway: halfway through the release time
    run_eg(&mut eg, false, a, d, s, r, samples(r) / 2);
    assert_eq!(eg.state, EGState::R);
    let mid_release = eg.out;
    assert!(0 < mid_release && mid_release < s);
    // re-trigger: attack resumes from the release value, not zero or one
    eg.update(true, false, a, d, s, r);
    assert_eq!(eg.state, EGState::A);
    assert_eq!(eg.level, mid_release);
    assert_eq!(eg.out, mid_release);
}

#[test]
fn lpf_zero_input_settles_to_zero() {
    let mut f = IIRLPF::default();
    for _ in 0..100 {
        f.update(FP_ONE / 2, 0, 0);
        assert_eq!(f.out, 0);
    }
}

#[test]
fn lpf_passes_dc() {
    // cutoff fixed at 100 Hz, resonance 0: a constant input converges to
    // itself (unity gain at zero frequency)
    let mut f = IIRLPF {
        freq_min: 100 * FP_ONE,
        freq_max: 100 * FP_ONE,
        ..IIRLPF::default()
    };
    let level = FP_ONE / 2;
    let mut out = 0;
    for _ in 0..44_100 {
        f.update(0, 0, level);
        out = f.out;
    }
    let got = out as f64 / FP_ONE as f64;
    assert!((got - 0.5).abs() < 0.01, "dc gain off: {}", got);
}

#[test]
fn lpf_attenuates_well_above_cutoff() {
    // two-pole low-pass at 100 Hz: a 1000 Hz sinusoid (a decade above) comes
    // out far smaller than it went in
    let mut f = IIRLPF {
        freq_min: 100 * FP_ONE,
        freq_max: 100 * FP_ONE,
        ..IIRLPF::default()
    };
    let mut peak: i64 = 0;
    for n in 0..44_100u32 {
        let x = (2.0 * std::f64::consts::PI * 1000.0 * n as f64 / 44_100.0).sin();
        let sample = (x * FP_ONE as f64) as i64;
        f.update(0, 0, sample);
        if n > 22_050 {
            peak = peak.max(f.out.abs());
        }
    }
    let gain = peak as f64 / FP_ONE as f64;
    assert!(gain < 0.05, "too little attenuation: residual gain {}", gain);
    assert!(gain > 0.00001, "implausibly silent: residual gain {}", gain);
}
