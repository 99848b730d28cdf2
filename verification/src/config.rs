//! Registration of externally configured bindings.
//!
//! The configuration file itself is read and shape-decoded outside the
//! engine; what arrives here is a list of `(field name, Binding)` pairs in
//! plain values. [`setup_state_io`] validates each binding against the
//! registry and installs it: input transforms into a [`StateInput`], output
//! transforms into a [`StateOutput`]. Any invalid binding is a fatal
//! configuration error, reported before the real-time threads start.

use vstd::prelude::*;
use crate::input::{
    config_ok, insert_binding, lemma_inputs_model_insert, output_ok, ButtonMode, ConfigError,
    ConfigModel, FieldDefModel, InputConfig, Key, OutputConfig, OutputModel, StateInput,
    StateOutput,
};
use crate::str_eq;

verus! {

/// One entry of an enumeration binding: an optional input key, an optional
/// output key, and the ordered value subset both refer to.
#[derive(Debug, PartialEq, Eq, Clone)]
pub struct EnumEntry {
    pub key: Option<i64>,
    pub out: Option<i64>,
    pub values: Vec<String>,
}

/// Mathematical model of an [`EnumEntry`].
pub struct EnumEntryModel {
    pub key: Option<i64>,
    pub out: Option<i64>,
    pub values: Seq<Seq<char>>,
}

impl View for EnumEntry {
    type V = EnumEntryModel;

    open spec fn view(&self) -> EnumEntryModel {
        EnumEntryModel {
            key: self.key,
            out: self.out,
            values: crate::input::str_list_view(self.values@),
        }
    }
}

/// The shape one configured field binding takes, mirroring the configuration
/// file: a bare key for a continuous field, a key/mode/output-key table for a
/// boolean field, a list of entries for an enumeration field.
#[derive(Debug, PartialEq, Eq, Clone)]
pub enum Binding {
    Float { key: i64 },
    Bool { key: Option<i64>, mode: Option<String>, out: Option<i64> },
    Enum { entries: Vec<EnumEntry> },
}

/// Mathematical model of a [`Binding`].
pub enum BindingModel {
    Float { key: i64 },
    Bool { key: Option<i64>, mode: Option<Seq<char>>, out: Option<i64> },
    Enum { entries: Seq<EnumEntryModel> },
}

impl View for Binding {
    type V = BindingModel;

    open spec fn view(&self) -> BindingModel {
        match self {
            Binding::Float { key } => BindingModel::Float { key: *key },
            Binding::Bool { key, mode, out } => BindingModel::Bool {
                key: *key,
                mode: match mode {
                    Some(m) => Some(m@),
                    None => None,
                },
                out: *out,
            },
            Binding::Enum { entries } => BindingModel::Enum {
                entries: entries@.map_values(|e: EnumEntry| e@),
            },
        }
    }
}

/// The key for a control-change number given as a plain integer; numbers
/// outside `0..=127` are rejected.
pub open spec fn cc_key(k: i64) -> Option<Key> {
    if 0 <= k <= 127 {
        Some(Key::ControlChange(k as u8))
    } else {
        None
    }
}

/// The button mode named by `m`, if any.
pub open spec fn mode_of(m: Seq<char>) -> Option<ButtonMode> {
    if m == "toggle"@ {
        Some(ButtonMode::Toggle)
    } else if m == "momentary"@ {
        Some(ButtonMode::Momentary)
    } else {
        None
    }
}

/// The input and output binding tables, as models.
pub type IoModel = (Seq<(Key, ConfigModel)>, Seq<OutputModel>);

/// What one enumeration binding entry does to the tables, or `None` when it
/// is invalid: an entry with a key installs a cycling input transform, an
/// entry with an output key installs a membership output transform.
pub open spec fn apply_entry(
    def: Seq<FieldDefModel>,
    io: IoModel,
    name: Seq<char>,
    e: EnumEntryModel,
) -> Option<IoModel> {
    let after_key = match e.key {
        None => Some(io.0),
        Some(kv) => match cc_key(kv) {
            None => None,
            Some(k) => {
                let cfg = ConfigModel::Enum { name: name, values: e.values };
                if config_ok(def, cfg) {
                    Some(insert_binding(io.0, k, cfg))
                } else {
                    None
                }
            },
        },
    };
    match after_key {
        None => None,
        Some(inputs) => match e.out {
            None => Some((inputs, io.1)),
            Some(ov) => match cc_key(ov) {
                None => None,
                Some(k) => {
                    let o = OutputModel::Enum { name: name, out: k, values: e.values };
                    if output_ok(def, o) {
                        Some((inputs, io.1.push(o)))
                    } else {
                        None
                    }
                },
            },
        },
    }
}

/// What a list of enumeration binding entries does to the tables, first
/// entry first, or `None` when any entry is invalid.
pub open spec fn apply_entries(
    def: Seq<FieldDefModel>,
    io: IoModel,
    name: Seq<char>,
    es: Seq<EnumEntryModel>,
) -> Option<IoModel>
    decreases es.len(),
{
    if es.len() == 0 {
        Some(io)
    } else {
        match apply_entry(def, io, name, es[0]) {
            None => None,
            Some(io2) => apply_entries(def, io2, name, es.drop_first()),
        }
    }
}

/// What one binding does to the tables, or `None` when it is invalid.
pub open spec fn apply_binding(
    def: Seq<FieldDefModel>,
    io: IoModel,
    name: Seq<char>,
    b: BindingModel,
) -> Option<IoModel> {
    match b {
        BindingModel::Float { key } => match cc_key(key) {
            None => None,
            Some(k) => {
                let cfg = ConfigModel::Float { name: name };
                if config_ok(def, cfg) {
                    Some((insert_binding(io.0, k, cfg), io.1))
                } else {
                    None
                }
            },
        },
        BindingModel::Bool { key, mode, out } => {
            let after_key = match key {
                None => Some(io.0),
                Some(kv) => match cc_key(kv) {
                    None => None,
                    Some(k) => match mode {
                        None => None,
                        Some(m) => match mode_of(m) {
                            None => None,
                            Some(bm) => {
                                let cfg = ConfigModel::Bool { name: name, mode: bm };
                                if config_ok(def, cfg) {
                                    Some(insert_binding(io.0, k, cfg))
                                } else {
                                    None
                                }
                            },
                        },
                    },
                },
            };
            match after_key {
                None => None,
                Some(inputs) => match out {
                    None => Some((inputs, io.1)),
                    Some(ov) => match cc_key(ov) {
                        None => None,
                        Some(k) => {
                            let o = OutputModel::Bool { name: name, out: k };
                            if output_ok(def, o) {
                                Some((inputs, io.1.push(o)))
                            } else {
                                None
                            }
                        },
                    },
                },
            }
        },
        BindingModel::Enum { entries } => apply_entries(def, io, name, entries),
    }
}

/// What a whole binding list does to the tables, first binding first, or
/// `None` when any binding is invalid.
pub open spec fn setup_spec(
    def: Seq<FieldDefModel>,
    io: IoModel,
    bindings: Seq<(Seq<char>, BindingModel)>,
) -> Option<IoModel>
    decreases bindings.len(),
{
    if bindings.len() == 0 {
        Some(io)
    } else {
        match apply_binding(def, io, bindings[0].0, bindings[0].1) {
            None => None,
            Some(io2) => setup_spec(def, io2, bindings.drop_first()),
        }
    }
}

/// The models of a binding list.
pub open spec fn bindings_model(bindings: Seq<(String, Binding)>) -> Seq<
    (Seq<char>, BindingModel),
> {
    bindings.map_values(|b: (String, Binding)| (b.0@, b.1@))
}

/// Validate and install one enumeration binding entry, per [`apply_entry`].
fn apply_enum_entry(
    name: &String,
    e: &EnumEntry,
    state_in: &mut StateInput,
    state_out: &mut StateOutput,
) -> (r: Result<(), ConfigError>)
    requires
        old(state_in).wf(),
        old(state_out).wf(),
        old(state_in).state_definition@ == old(state_out).state_definition@,
    ensures
        final(state_in).wf(),
        final(state_out).wf(),
        final(state_in).state_definition == old(state_in).state_definition,
        final(state_out).state_definition == old(state_out).state_definition,
        match r {
            Ok(()) => apply_entry(
                old(state_in).state_definition@,
                (old(state_in).inputs_model(), old(state_out).models()),
                name@,
                e@,
            ) == Some((final(state_in).inputs_model(), final(state_out).models())),
            Err(_) => apply_entry(
                old(state_in).state_definition@,
                (old(state_in).inputs_model(), old(state_out).models()),
                name@,
                e@,
            ) is None,
        },
{
    match &e.key {
        None => {},
        Some(kv) => {
            if !(0 <= *kv && *kv <= 127) {
                return Err(ConfigError::TypeError { name: name.clone() });
            }
            let k = Key::ControlChange(*kv as u8);
            let cfg = InputConfig::Enum {
                name: name.clone(),
                values: crate::input::duplicate_strings(&e.values),
            };
            let ghost pre = *state_in;
            let ghost cfg_g = cfg;
            match state_in.define_input(k, cfg) {
                Ok(()) => {
                    proof {
                        lemma_inputs_model_insert(pre, *state_in, k, cfg_g);
                    }
                },
                Err(err) => {
                    return Err(err);
                },
            }
        },
    }
    match &e.out {
        None => Ok(()),
        Some(ov) => {
            if !(0 <= *ov && *ov <= 127) {
                return Err(ConfigError::TypeError { name: name.clone() });
            }
            let k = Key::ControlChange(*ov as u8);
            let o = OutputConfig::Enum {
                name: name.clone(),
                out: k,
                values: crate::input::duplicate_strings(&e.values),
            };
            let ghost pre_out = *state_out;
            let ghost o_g = o;
            match state_out.define_output(o) {
                Ok(()) => {
                    proof {
                        assert(state_out.models() =~= pre_out.models().push(o_g@));
                    }
                    Ok(())
                },
                Err(err) => Err(err),
            }
        },
    }
}

/// Validate and install one binding, per [`apply_binding`].
fn apply_one(
    name: &String,
    b: &Binding,
    state_in: &mut StateInput,
    state_out: &mut StateOutput,
) -> (r: Result<(), ConfigError>)
    requires
        old(state_in).wf(),
        old(state_out).wf(),
        old(state_in).state_definition@ == old(state_out).state_definition@,
    ensures
        final(state_in).wf(),
        final(state_out).wf(),
        final(state_in).state_definition == old(state_in).state_definition,
        final(state_out).state_definition == old(state_out).state_definition,
        match r {
            Ok(()) => apply_binding(
                old(state_in).state_definition@,
                (old(state_in).inputs_model(), old(state_out).models()),
                name@,
                b@,
            ) == Some((final(state_in).inputs_model(), final(state_out).models())),
            Err(_) => apply_binding(
                old(state_in).state_definition@,
                (old(state_in).inputs_model(), old(state_out).models()),
                name@,
                b@,
            ) is None,
        },
{
    match b {
        Binding::Float { key } => {
            if !(0 <= *key && *key <= 127) {
                return Err(ConfigError::TypeError { name: name.clone() });
            }
            let k = Key::ControlChange(*key as u8);
            let cfg = InputConfig::Float { name: name.clone() };
            let ghost pre = *state_in;
            let ghost cfg_g = cfg;
            match state_in.define_input(k, cfg) {
                Ok(()) => {
                    proof {
                        lemma_inputs_model_insert(pre, *state_in, k, cfg_g);
                    }
                    Ok(())
                },
                Err(e) => Err(e),
            }
        },
        Binding::Bool { key, mode, out } => {
            match key {
                None => {},
                Some(kv) => {
                    if !(0 <= *kv && *kv <= 127) {
                        return Err(ConfigError::TypeError { name: name.clone() });
                    }
                    let k = Key::ControlChange(*kv as u8);
                    let bm = match mode {
                        None => {
                            return Err(ConfigError::ModeRequired { name: name.clone() });
                        },
                        Some(m) => {
                            if str_eq(m.as_str(), "toggle") {
                                ButtonMode::Toggle
                            } else if str_eq(m.as_str(), "momentary") {
                                ButtonMode::Momentary
                            } else {
                                return Err(ConfigError::InvalidMode { name: name.clone() });
                            }
                        },
                    };
                    let cfg = InputConfig::Bool { name: name.clone(), mode: bm };
                    let ghost pre = *state_in;
                    let ghost cfg_g = cfg;
                    match state_in.define_input(k, cfg) {
                        Ok(()) => {
                            proof {
                                lemma_inputs_model_insert(pre, *state_in, k, cfg_g);
                            }
                        },
                        Err(e) => {
                            return Err(e);
                        },
                    }
                },
            }
            match out {
                None => Ok(()),
                Some(ov) => {
                    if !(0 <= *ov && *ov <= 127) {
                        return Err(ConfigError::TypeError { name: name.clone() });
                    }
                    let k = Key::ControlChange(*ov as u8);
                    let o = OutputConfig::Bool { name: name.clone(), out: k };
                    let ghost pre_out = *state_out;
                    let ghost o_g = o;
                    match state_out.define_output(o) {
                        Ok(()) => {
                            proof {
                                assert(state_out.models() =~= pre_out.models().push(o_g@));
                            }
                            Ok(())
                        },
                        Err(e) => Err(e),
                    }
                },
            }
        },
        Binding::Enum { entries } => {
            let ghost def = old(state_in).state_definition@;
            let ghost all = entries@.map_values(|e: EnumEntry| e@);
            let ghost io0 = (old(state_in).inputs_model(), old(state_out).models());
            proof {
                assert(all.skip(0) =~= all);
            }
            let mut i: usize = 0;
            while i < entries.len()
                invariant
                    state_in.wf(),
                    state_out.wf(),
                    state_in.state_definition == old(state_in).state_definition,
                    state_out.state_definition == old(state_out).state_definition,
                    state_in.state_definition@ == state_out.state_definition@,
                    state_in.state_definition@ == def,
                    def == old(state_in).state_definition@,
                    io0 == (old(state_in).inputs_model(), old(state_out).models()),
                    0 <= i <= entries@.len(),
                    all == entries@.map_values(|e: EnumEntry| e@),
                    b@ == (BindingModel::Enum { entries: all }),
                    apply_entries(def, io0, name@, all) == apply_entries(
                        def,
                        (state_in.inputs_model(), state_out.models()),
                        name@,
                        all.skip(i as int),
                    ),
                decreases entries@.len() - i,
            {
                let entry: &EnumEntry = &entries[i];
                let ghost pre_io = (state_in.inputs_model(), state_out.models());
                proof {
                    assert(all.skip(i as int)[0] == entry@);
                    assert(all.skip(i as int).drop_first() =~= all.skip(i + 1));
                }
                match apply_enum_entry(name, entry, state_in, state_out) {
                    Ok(()) => {},
                    Err(e) => {
                        proof {
                            assert(apply_entries(def, pre_io, name@, all.skip(i as int)) is None);
                        }
                        return Err(e);
                    },
                }
                i = i + 1;
            }
            proof {
                assert(all.skip(entries@.len() as int) =~= Seq::<EnumEntryModel>::empty());
            }
            Ok(())
        },
    }
}

/// Validate and install every configured binding, first one first. On
/// success the binding tables are exactly what [`setup_spec`] gives, and
/// `setup_spec` gives `None` exactly when an invalid binding (unknown field,
/// wrong kind, key or mode trouble) is reported as a fatal configuration
/// error. Both halves must carry the same registry.
pub fn setup_state_io(
    bindings: &Vec<(String, Binding)>,
    state_in: &mut StateInput,
    state_out: &mut StateOutput,
) -> (r: Result<(), ConfigError>)
    requires
        old(state_in).wf(),
        old(state_out).wf(),
        old(state_in).state_definition@ == old(state_out).state_definition@,
    ensures
        final(state_in).wf(),
        final(state_out).wf(),
        final(state_in).state_definition == old(state_in).state_definition,
        final(state_out).state_definition == old(state_out).state_definition,
        match r {
            Ok(()) => setup_spec(
                old(state_in).state_definition@,
                (old(state_in).inputs_model(), old(state_out).models()),
                bindings_model(bindings@),
            ) == Some((final(state_in).inputs_model(), final(state_out).models())),
            Err(_) => setup_spec(
                old(state_in).state_definition@,
                (old(state_in).inputs_model(), old(state_out).models()),
                bindings_model(bindings@),
            ) is None,
        },
{
    let ghost def = old(state_in).state_definition@;
    let ghost all = bindings_model(bindings@);
    let ghost io0 = (old(state_in).inputs_model(), old(state_out).models());
    proof {
        assert(all.skip(0) =~= all);
    }
    let mut i: usize = 0;
    while i < bindings.len()
        invariant
            state_in.wf(),
            state_out.wf(),
            state_in.state_definition == old(state_in).state_definition,
            state_out.state_definition == old(state_out).state_definition,
            state_in.state_definition@ == state_out.state_definition@,
            state_in.state_definition@ == def,
            def == old(state_in).state_definition@,
            io0 == (old(state_in).inputs_model(), old(state_out).models()),
            0 <= i <= bindings@.len(),
            all == bindings_model(bindings@),
            setup_spec(def, io0, all) == setup_spec(
                def,
                (state_in.inputs_model(), state_out.models()),
                all.skip(i as int),
            ),
        decreases bindings@.len() - i,
    {
        let entry = &bindings[i];
        let name: &String = &entry.0;
        let ghost pre_io = (state_in.inputs_model(), state_out.models());
        proof {
            assert(all.skip(i as int)[0] == (name@, entry.1@));
            assert(all.skip(i as int).drop_first() =~= all.skip(i + 1));
        }
        match apply_one(name, &entry.1, state_in, state_out) {
            Ok(()) => {},
            Err(e) => {
                proof {
                    assert(setup_spec(def, pre_io, all.skip(i as int)) is None);
                }
                return Err(e);
            },
        }
        i = i + 1;
    }
    proof {
        assert(all.skip(bindings@.len() as int) =~= Seq::<(Seq<char>, BindingModel)>::empty());
    }
    Ok(())
}

} // verus!
