//! A software modular synthesizer core: a fixed signal graph of oscillators,
//! envelope generators and filters evaluated once per audio sample, driven by
//! a MIDI control surface whose control-change messages are mapped onto named,
//! typed synthesis parameters.
//!
//! All signal values, times and parameters are fixed-point integers in Q24
//! format (see [`fixed`]): the real number `x` is represented by the integer
//! `x * 2^24`. This keeps every formula of the engine exact and provable.

use vstd::prelude::*;

pub mod config;
pub mod fixed;
pub mod input;
pub mod laws;
pub mod midi_message;
pub mod module;
pub mod rack;
pub mod util;

verus! {

/// An enumeration whose variants can be named by strings, so that externally
/// configured bindings can refer to them.
pub trait SimpleEnum where Self: Sized {
    fn from_name(name: &str) -> Option<Self>;
    fn to_name(&self) -> &'static str;
}

/// The waveform shapes a [`module::VCO`] can produce.
#[derive(Debug, PartialEq, Eq, Structural, Clone, Copy)]
pub enum WaveForm {
    Sine,
    Sawtooth,
    Triangle,
    Square,
    Noise,
}

/// The variant of `WaveForm` named by `s`, if any.
pub open spec fn waveform_from_name(s: Seq<char>) -> Option<WaveForm> {
    if s == "Sine"@ {
        Some(WaveForm::Sine)
    } else if s == "Triangle"@ {
        Some(WaveForm::Triangle)
    } else if s == "Sawtooth"@ {
        Some(WaveForm::Sawtooth)
    } else if s == "Square"@ {
        Some(WaveForm::Square)
    } else if s == "Noise"@ {
        Some(WaveForm::Noise)
    } else {
        None
    }
}

/// The name of a `WaveForm` variant.
pub open spec fn waveform_to_name(w: WaveForm) -> Seq<char> {
    match w {
        WaveForm::Sine => "Sine"@,
        WaveForm::Triangle => "Triangle"@,
        WaveForm::Sawtooth => "Sawtooth"@,
        WaveForm::Square => "Square"@,
        WaveForm::Noise => "Noise"@,
    }
}

/// Equality of two string slices by contents.
pub fn str_eq(a: &str, b: &str) -> (r: bool)
    ensures
        r == (a@ == b@),
{
    let sa: String = a.to_owned();
    let sb: String = b.to_owned();
    sa == sb
}

impl Default for WaveForm {
    fn default() -> (r: WaveForm)
        ensures
            r == WaveForm::Sine,
    {
        WaveForm::Sine
    }
}

impl SimpleEnum for WaveForm {
    fn from_name(name: &str) -> (r: Option<WaveForm>)
        ensures
            r == waveform_from_name(name@),
    {
        if str_eq(name, "Sine") {
            Some(WaveForm::Sine)
        } else if str_eq(name, "Triangle") {
            Some(WaveForm::Triangle)
        } else if str_eq(name, "Sawtooth") {
            Some(WaveForm::Sawtooth)
        } else if str_eq(name, "Square") {
            Some(WaveForm::Square)
        } else if str_eq(name, "Noise") {
            Some(WaveForm::Noise)
        } else {
            None
        }
    }

    fn to_name(&self) -> (r: &'static str)
        ensures
            r@ == waveform_to_name(*self),
    {
        match self {
            WaveForm::Sine => "Sine",
            WaveForm::Triangle => "Triangle",
            WaveForm::Sawtooth => "Sawtooth",
            WaveForm::Square => "Square",
            WaveForm::Noise => "Noise",
        }
    }
}

/// A three-way selector parameter, e.g. for choosing among modulation sources.
#[derive(Debug, PartialEq, Eq, Structural, Clone, Copy)]
pub enum TriState {
    State0,
    State1,
    State2,
}

/// The variant of `TriState` named by `s`, if any.
pub open spec fn tristate_from_name(s: Seq<char>) -> Option<TriState> {
    if s == "State0"@ {
        Some(TriState::State0)
    } else if s == "State1"@ {
        Some(TriState::State1)
    } else if s == "State2"@ {
        Some(TriState::State2)
    } else {
        None
    }
}

/// The name of a `TriState` variant.
pub open spec fn tristate_to_name(t: TriState) -> Seq<char> {
    match t {
        TriState::State0 => "State0"@,
        TriState::State1 => "State1"@,
        TriState::State2 => "State2"@,
    }
}

impl Default for TriState {
    fn default() -> (r: TriState)
        ensures
            r == TriState::State0,
    {
        TriState::State0
    }
}

impl SimpleEnum for TriState {
    fn from_name(name: &str) -> (r: Option<TriState>)
        ensures
            r == tristate_from_name(name@),
    {
        if str_eq(name, "State0") {
            Some(TriState::State0)
        } else if str_eq(name, "State1") {
            Some(TriState::State1)
        } else if str_eq(name, "State2") {
            Some(TriState::State2)
        } else {
            None
        }
    }

    fn to_name(&self) -> (r: &'static str)
        ensures
            r@ == tristate_to_name(*self),
    {
        match self {
            TriState::State0 => "State0",
            TriState::State1 => "State1",
            TriState::State2 => "State2",
        }
    }
}

} // verus!
