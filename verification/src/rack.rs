//! The rack: an ordered, fixed list of named DSP units evaluated once per
//! sample, in declared order.
//!
//! Evaluation order is the only coupling mechanism between units: a unit
//! declared after a producer observes the producer's freshly updated output
//! this very tick, while a unit declared before a producer observes the
//! producer's previous sample. This is how feedback is closed without
//! recursion, and [`Rack::update`]'s contract states it exactly through
//! [`mixed_outs`].

use vstd::prelude::*;
use crate::fixed::SIG_LIMIT;
use crate::input::{ConfigError, FieldDefModel, Input, StateDefinition};
use crate::module::{
    boolsig_wf_def, module_rel, outs_ok, sig_wf_def, wfsig_wf_def, BoolSig, Module, Sig, WfSig,
    FREQ_LIMIT, PHASE_ONE,
};
use crate::fixed::FP_ONE;

verus! {

/// The unit outputs a source sees while unit `i` is being updated: units
/// before `i` already carry this tick's value, units from `i` on still carry
/// the previous tick's.
pub open spec fn mixed_outs(
    pre: Seq<(String, Module)>,
    post: Seq<(String, Module)>,
    i: int,
) -> Seq<i64> {
    Seq::new(pre.len(), |j: int| if j < i { post[j].1.out_val() } else { pre[j].1.out_val() })
}

/// The current outputs of all units, in declared order.
pub open spec fn rack_outs(units: Seq<(String, Module)>) -> Seq<i64> {
    units.map_values(|u: (String, Module)| u.1.out_val())
}

/// How one rack tick relates the unit states after it to the ones before it:
/// the list keeps its length and names, and each unit steps by [`module_rel`]
/// against [`mixed_outs`], i.e. against the fresh values of the units
/// declared before it and the previous values of the rest.
pub open spec fn tick_rel(
    pre: Seq<(String, Module)>,
    post: Seq<(String, Module)>,
    state: Seq<crate::input::FieldModel>,
) -> bool {
    &&& post.len() == pre.len()
    &&& forall|i: int| 0 <= i < pre.len() ==> post[i].0 == pre[i].0
    &&& forall|i: int|
        0 <= i < pre.len() ==> module_rel(pre[i].1, #[trigger] post[i].1, mixed_outs(
            pre,
            post,
            i,
        ), state)
}

/// The rendered samples come from successive rack ticks: `trace` lists the
/// unit states before and after each of the `frames` ticks, consecutive
/// entries are related by [`tick_rel`], and each frame's sample is the tap
/// unit's output right after its tick.
pub open spec fn render_trace(
    trace: Seq<Seq<(String, Module)>>,
    pre: Seq<(String, Module)>,
    post: Seq<(String, Module)>,
    state: Seq<crate::input::FieldModel>,
    samples: Seq<i64>,
    frames: int,
    tap: int,
) -> bool {
    &&& trace.len() == frames + 1
    &&& trace[0] == pre
    &&& trace[frames] == post
    &&& forall|t: int| 0 <= t < frames ==> tick_rel(trace[t], #[trigger] trace[t + 1], state)
    &&& forall|t: int| 0 <= t < frames ==> #[trigger] samples[2 * t] == trace[t + 1][tap].1.out_val()
}

/// A fixed, ordered signal graph: named unit instances over one parameter
/// registry, evaluated in declared order once per sample.
pub struct Rack {
    pub state_definition: StateDefinition,
    pub units: Vec<(String, Module)>,
}

impl Rack {
    /// The rack's internal invariant: a well-formed registry and every unit
    /// well formed against it.
    pub open spec fn wf(self) -> bool {
        &&& crate::input::def_wf(self.state_definition@)
        &&& forall|i: int|
            0 <= i < self.units@.len() ==> #[trigger] self.units@[i].1.wf(
                self.units@.len() as nat,
                self.state_definition@,
            )
    }

    /// How many units the rack holds.
    pub fn len(&self) -> (r: usize)
        ensures
            r == self.units@.len(),
    {
        self.units.len()
    }

    /// The current output of the unit at `i`.
    pub fn out(&self, i: usize) -> (r: i64)
        requires
            i < self.units@.len(),
        ensures
            r == self.units@[i as int].1.out_val(),
    {
        let entry = &self.units[i];
        module_out(&entry.1)
    }

    /// The index of the unit called `name`, if any.
    pub fn find(&self, name: &str) -> (r: Option<usize>)
        ensures
            match r {
                Some(i) => i < self.units@.len() && self.units@[i as int].0@ == name@,
                None => forall|j: int|
                    0 <= j < self.units@.len() ==> self.units@[j].0@ != name@,
            },
    {
        let mut i: usize = 0;
        while i < self.units.len()
            invariant
                0 <= i <= self.units@.len(),
                forall|j: int| 0 <= j < i ==> self.units@[j].0@ != name@,
            decreases self.units@.len() - i,
        {
            let entry = &self.units[i];
            if crate::str_eq(entry.0.as_str(), name) {
                return Some(i);
            }
            i = i + 1;
        }
        None
    }

    /// A fresh parameter set holding every field's default.
    pub fn new_input(&self) -> (r: Input)
        requires
            self.wf(),
        ensures
            r.matches_def(self.state_definition@),
    {
        self.state_definition.new_input()
    }

    /// Evaluate every unit once, in declared order: unit `i` steps by
    /// [`module_rel`] against [`mixed_outs`]`(.., i)`, so a unit sees this
    /// tick's value of every unit declared before it and the previous tick's
    /// value of every unit declared at or after it — [`tick_rel`] exactly.
    pub fn update(&mut self, input: &Input)
        requires
            old(self).wf(),
            input.matches_def(old(self).state_definition@),
        ensures
            final(self).wf(),
            final(self).state_definition == old(self).state_definition,
            tick_rel(old(self).units@, final(self).units@, input@),
    {
        let n = self.units.len();
        let mut i: usize = 0;
        while i < n
            invariant
                self.wf(),
                input.matches_def(self.state_definition@),
                self.state_definition == old(self).state_definition,
                n == self.units@.len(),
                n == old(self).units@.len(),
                0 <= i <= n,
                forall|j: int| 0 <= j < n ==> self.units@[j].0 == old(self).units@[j].0,
                forall|j: int| i <= j < n ==> self.units@[j].1 == old(self).units@[j].1,
                forall|j: int|
                    0 <= j < i ==> module_rel(
                        old(self).units@[j].1,
                        #[trigger] self.units@[j].1,
                        mixed_outs(old(self).units@, self.units@, j),
                        input@,
                    ),
            decreases n - i,
        {
            let ghost pre_units = self.units@;
            let outs = collect_outs(&self.units);
            proof {
                assert(outs@ =~= mixed_outs(old(self).units@, self.units@, i as int));
                assert forall|j: int|
                    0 <= j < outs@.len() implies -SIG_LIMIT <= #[trigger] outs@[j]
                    <= SIG_LIMIT by {
                    lemma_out_val_bounded(
                        self.units@[j].1,
                        self.units@.len() as nat,
                        self.state_definition@,
                    );
                }
                assert(outs_ok(outs@));
            }
            let entry = &mut self.units[i];
            entry.1.update(&outs, input, &self.state_definition);
            proof {
                assert(self.units@ =~= pre_units.update(i as int, self.units@[i as int]));
                assert(mixed_outs(old(self).units@, self.units@, i as int) =~= outs@);
                assert forall|j: int|
                    0 <= j < i + 1 implies module_rel(
                    old(self).units@[j].1,
                    #[trigger] self.units@[j].1,
                    mixed_outs(old(self).units@, self.units@, j),
                    input@,
                ) by {
                    if j < i {
                        assert(self.units@[j].1 == pre_units[j].1);
                        assert(mixed_outs(old(self).units@, self.units@, j) =~= mixed_outs(
                            old(self).units@,
                            pre_units,
                            j,
                        ));
                    }
                }
            }
            i = i + 1;
        }
        proof {
            assert forall|j: int|
                0 <= j < n implies module_rel(
                old(self).units@[j].1,
                #[trigger] self.units@[j].1,
                mixed_outs(old(self).units@, self.units@, j),
                input@,
            ) by {}
        }
    }

    /// Render `frames` stereo frames from one parameter snapshot: the rack is
    /// evaluated once per frame — some [`render_trace`] witnesses the `frames`
    /// successive [`tick_rel`] steps from the old unit states to the final
    /// ones — and each frame duplicates the tap unit's fresh output across
    /// the two channels.
    pub fn render(&mut self, input: &Input, frames: usize, tap: usize) -> (r: Vec<i64>)
        requires
            old(self).wf(),
            input.matches_def(old(self).state_definition@),
            tap < old(self).units@.len(),
            frames <= 0x100_0000,
        ensures
            final(self).wf(),
            final(self).state_definition == old(self).state_definition,
            r@.len() == 2 * frames,
            forall|t: int| 0 <= t < frames ==> #[trigger] r@[2 * t] == r@[2 * t + 1],
            forall|t: int| 0 <= t < frames ==> -SIG_LIMIT <= #[trigger] r@[2 * t] <= SIG_LIMIT,
            exists|trace: Seq<Seq<(String, Module)>>|
                #[trigger] render_trace(
                    trace,
                    old(self).units@,
                    final(self).units@,
                    input@,
                    r@,
                    frames as int,
                    tap as int,
                ),
    {
        let mut r: Vec<i64> = Vec::new();
        let ghost mut trace: Seq<Seq<(String, Module)>> = seq![old(self).units@];
        let mut t: usize = 0;
        while t < frames
            invariant
                self.wf(),
                input.matches_def(self.state_definition@),
                self.state_definition == old(self).state_definition,
                tap < self.units@.len(),
                0 <= t <= frames,
                frames <= 0x100_0000,
                r@.len() == 2 * t,
                forall|u: int| 0 <= u < t ==> #[trigger] r@[2 * u] == r@[2 * u + 1],
                forall|u: int| 0 <= u < t ==> -SIG_LIMIT <= #[trigger] r@[2 * u] <= SIG_LIMIT,
                trace.len() == t + 1,
                trace[0] == old(self).units@,
                trace[t as int] == self.units@,
                forall|u: int| 0 <= u < t ==> tick_rel(trace[u], #[trigger] trace[u + 1], input@),
                forall|u: int|
                    0 <= u < t ==> #[trigger] r@[2 * u] == trace[u + 1][tap as int].1.out_val(),
            decreases frames - t,
        {
            self.update(input);
            proof {
                trace = trace.push(self.units@);
            }
            let v = self.out(tap);
            proof {
                lemma_out_val_bounded(self.units@[tap as int].1, self.units@.len() as nat, self.state_definition@);
            }
            r.push(v);
            r.push(v);
            t = t + 1;
        }
        proof {
            assert(render_trace(
                trace,
                old(self).units@,
                self.units@,
                input@,
                r@,
                frames as int,
                tap as int,
            ));
        }
        r
    }
}

/// A well-formed unit's output is within the signal range.
pub proof fn lemma_out_val_bounded(m: Module, n_units: nat, def: Seq<FieldDefModel>)
    requires
        m.wf(n_units, def),
    ensures
        -SIG_LIMIT <= m.out_val() <= SIG_LIMIT,
{
}

/// The current output of one unit.
pub fn module_out(m: &Module) -> (r: i64)
    ensures
        r == m.out_val(),
{
    match m {
        Module::Vco(v) => v.out,
        Module::Eg(e) => e.out,
        Module::Lpf(f) => f.out,
        Module::Buf(b) => b.out,
    }
}

/// The current outputs of all units, in declared order.
fn collect_outs(units: &Vec<(String, Module)>) -> (r: Vec<i64>)
    ensures
        r@ == rack_outs(units@),
{
    let mut r: Vec<i64> = Vec::new();
    let mut i: usize = 0;
    while i < units.len()
        invariant
            0 <= i <= units@.len(),
            r@.len() == i,
            forall|j: int| 0 <= j < i ==> r@[j] == units@[j].1.out_val(),
        decreases units@.len() - i,
    {
        let entry = &units[i];
        r.push(module_out(&entry.1));
        i = i + 1;
    }
    proof {
        assert(r@ =~= rack_outs(units@));
    }
    r
}

/// Whether a boolean source fits the registry.
fn check_boolsig(s: &BoolSig, def: &StateDefinition) -> (r: bool)
    ensures
        r == boolsig_wf_def(*s, def@),
{
    match s {
        BoolSig::Const(_) => true,
        BoolSig::Param(i) => {
            if *i < def.fields.len() {
                let f = &def.fields[*i];
                match &f.accessor {
                    crate::input::FieldAccessor::Bool => true,
                    _ => false,
                }
            } else {
                false
            }
        },
    }
}

/// Whether a waveform source fits the registry.
fn check_wfsig(s: &WfSig, def: &StateDefinition) -> (r: bool)
    ensures
        r == wfsig_wf_def(*s, def@),
{
    match s {
        WfSig::Const(_) => true,
        WfSig::Param(i) => {
            if *i < def.fields.len() {
                let f = &def.fields[*i];
                match &f.accessor {
                    crate::input::FieldAccessor::Enum { .. } => true,
                    _ => false,
                }
            } else {
                false
            }
        },
    }
}

/// Whether a continuous source fits a rack of `n_units` units over the
/// registry.
fn check_sig(s: &Sig, n_units: usize, def: &StateDefinition) -> (r: bool)
    ensures
        r == sig_wf_def(*s, n_units as nat, def@),
    decreases *s,
{
    match s {
        Sig::Const(_) => true,
        Sig::Param(i) => {
            if *i < def.fields.len() {
                let f = &def.fields[*i];
                match &f.accessor {
                    crate::input::FieldAccessor::Float => true,
                    _ => false,
                }
            } else {
                false
            }
        },
        Sig::Out(u) => *u < n_units,
        Sig::Add(a, b) => check_sig(a, n_units, def) && check_sig(b, n_units, def),
        Sig::Mul(a, b) => check_sig(a, n_units, def) && check_sig(b, n_units, def),
        Sig::IfBool(c, a, b) => check_boolsig(c, def) && check_sig(a, n_units, def) && check_sig(
            b,
            n_units,
            def,
        ),
        Sig::EnumIs(i, _, a, b) => {
            let kind_ok = if *i < def.fields.len() {
                let f = &def.fields[*i];
                match &f.accessor {
                    crate::input::FieldAccessor::Enum { .. } => true,
                    _ => false,
                }
            } else {
                false
            };
            kind_ok && check_sig(a, n_units, def) && check_sig(b, n_units, def)
        },
    }
}

/// Whether every sample a delay line holds is within the signal range.
fn check_buf(buf: &Vec<i64>) -> (r: bool)
    ensures
        r == crate::module::buf_ok(buf@),
{
    let mut i: usize = 0;
    while i < buf.len()
        invariant
            0 <= i <= buf@.len(),
            forall|j: int| 0 <= j < i ==> -SIG_LIMIT <= #[trigger] buf@[j] <= SIG_LIMIT,
        decreases buf@.len() - i,
    {
        let v = buf[i];
        if v < -SIG_LIMIT || v > SIG_LIMIT {
            return false;
        }
        i = i + 1;
    }
    true
}

/// Whether a unit is well formed for a rack of `n_units` units over the
/// registry.
fn check_module(m: &Module, n_units: usize, def: &StateDefinition) -> (r: bool)
    ensures
        r == m.wf(n_units as nat, def@),
{
    match m {
        Module::Vco(v) => v.phase < PHASE_ONE && -FP_ONE <= v.out && v.out <= FP_ONE && 1
            <= v.freq_min && v.freq_min <= v.freq_max && v.freq_max <= FREQ_LIMIT && check_sig(
            &v.in_freq,
            n_units,
            def,
        ) && check_wfsig(&v.in_waveform, def),
        Module::Eg(e) => 0 <= e.level && e.level <= FP_ONE && 0 <= e.out && e.out <= FP_ONE
            && check_boolsig(&e.in_gate, def) && check_boolsig(&e.in_repeat, def) && check_sig(
            &e.in_a,
            n_units,
            def,
        ) && check_sig(&e.in_d, n_units, def) && check_sig(&e.in_s, n_units, def) && check_sig(
            &e.in_r,
            n_units,
            def,
        ),
        Module::Lpf(f) => 1 <= f.freq_min && f.freq_min <= f.freq_max && f.freq_max <= FREQ_LIMIT
            && (f.buf_a.len() == 0 || f.buf_a.len() == 3) && (f.buf_b.len() == 0 || f.buf_b.len()
            == 3) && f.i_a < 3 && f.i_b < 3 && check_buf(&f.buf_a) && check_buf(&f.buf_b)
            && -SIG_LIMIT <= f.out && f.out <= SIG_LIMIT && check_sig(&f.in_freq, n_units, def)
            && check_sig(&f.in_resonance, n_units, def) && check_sig(&f.in_value, n_units, def),
        Module::Buf(b) => -SIG_LIMIT <= b.out && b.out <= SIG_LIMIT && check_sig(
            &b.in_value,
            n_units,
            def,
        ),
    }
}

impl Rack {
    /// Build a rack from an ordered list of named units over a registry. The
    /// declaration order is the evaluation order. Every unit is validated
    /// against the rack and the registry; a unit whose sources or parameters
    /// do not fit is a fatal configuration error naming the unit, and
    /// construction fails exactly when one exists.
    pub fn new(state_definition: StateDefinition, units: Vec<(String, Module)>) -> (r: Result<
        Rack,
        ConfigError,
    >)
        requires
            crate::input::def_wf(state_definition@),
        ensures
            match r {
                Ok(rack) => {
                    &&& rack.wf()
                    &&& rack.state_definition == state_definition
                    &&& rack.units@ == units@
                },
                Err(e) => {
                    &&& exists|i: int|
                        0 <= i < units@.len() && !(#[trigger] units@[i].1.wf(
                            units@.len() as nat,
                            state_definition@,
                        ))
                    &&& e is TypeError
                },
            },
    {
        let n = units.len();
        let mut i: usize = 0;
        while i < n
            invariant
                n == units@.len(),
                0 <= i <= n,
                forall|j: int|
                    0 <= j < i ==> #[trigger] units@[j].1.wf(n as nat, state_definition@),
            decreases n - i,
        {
            let entry = &units[i];
            if !check_module(&entry.1, n, &state_definition) {
                return Err(ConfigError::TypeError { name: entry.0.clone() });
            }
            i = i + 1;
        }
        Ok(Rack { state_definition, units })
    }
}

} // verus!
