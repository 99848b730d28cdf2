//! The control-mapping engine: a name-indexed registry of typed parameter
//! fields, and the input/output bindings that connect MIDI control-change
//! keys to those fields.
//!
//! A [`StateDefinition`] lists the fields of the parameter set: each has a
//! name, a kind ([`FieldAccessor`]) and a default value. An [`Input`] is the
//! parameter set itself, one [`FieldValue`] per field in registry order.
//! [`StateInput`] binds keys to fields with input transforms and applies
//! incoming control-change values; [`StateOutput`] mirrors field state back
//! out as per-key boolean indicator values.

use vstd::prelude::*;
use vstd::pervasive::VecAdditionalExecFns;
use crate::fixed::FP_ONE;
use crate::str_eq;

verus! {

/// How a button-bound boolean input reacts to press and release: `Momentary`
/// follows the button, `Toggle` flips the field on each press and ignores
/// releases.
#[derive(Debug, PartialEq, Eq, Structural, Clone, Copy)]
pub enum ButtonMode {
    Toggle,
    Momentary,
}

/// A physical control identifier: a MIDI control-change number.
#[derive(Debug, PartialEq, Eq, Structural, Clone, Copy, Hash)]
pub enum Key {
    ControlChange(u8),
}

/// The value a parameter field currently holds: a continuous Q24 value in
/// `[0, 1]`, a boolean, or the name of an enumeration variant.
#[derive(Debug, PartialEq, Eq, Clone)]
pub enum FieldValue {
    Float(i64),
    Bool(bool),
    Enum(String),
}

/// Mathematical model of a [`FieldValue`], with strings as character
/// sequences.
pub enum FieldModel {
    Float(i64),
    Bool(bool),
    Enum(Seq<char>),
}

impl View for FieldValue {
    type V = FieldModel;

    open spec fn view(&self) -> FieldModel {
        match *self {
            FieldValue::Float(x) => FieldModel::Float(x),
            FieldValue::Bool(b) => FieldModel::Bool(b),
            FieldValue::Enum(s) => FieldModel::Enum(s@),
        }
    }
}

impl FieldModel {
    /// The boolean a boolean field holds.
    pub open spec fn bool_value(self) -> bool
        recommends
            self is Bool,
    {
        match self {
            FieldModel::Bool(b) => b,
            _ => false,
        }
    }

    /// The Q24 value a continuous field holds.
    pub open spec fn float_value(self) -> i64
        recommends
            self is Float,
    {
        match self {
            FieldModel::Float(x) => x,
            _ => 0,
        }
    }

    /// The variant name an enumeration field holds.
    pub open spec fn enum_value(self) -> Seq<char>
        recommends
            self is Enum,
    {
        match self {
            FieldModel::Enum(s) => s,
            _ => Seq::empty(),
        }
    }
}

impl FieldValue {
    /// A copy of this value, equal to the original.
    pub fn duplicate(&self) -> (r: FieldValue)
        ensures
            r == *self,
    {
        match self {
            FieldValue::Float(x) => FieldValue::Float(*x),
            FieldValue::Bool(b) => FieldValue::Bool(*b),
            FieldValue::Enum(s) => FieldValue::Enum(s.clone()),
        }
    }
}

/// The views of a list of strings.
pub open spec fn str_list_view(names: Seq<String>) -> Seq<Seq<char>> {
    names.map_values(|n: String| n@)
}

/// A copy of a list of strings, with the same views.
pub fn duplicate_strings(list: &Vec<String>) -> (r: Vec<String>)
    ensures
        str_list_view(r@) == str_list_view(list@),
{
    let mut r: Vec<String> = Vec::new();
    let mut i: usize = 0;
    while i < list.len()
        invariant
            0 <= i <= list@.len(),
            r@.len() == i,
            forall|j: int| 0 <= j < i ==> r@[j]@ == list@[j]@,
        decreases list@.len() - i,
    {
        r.push(list[i].clone());
        i = i + 1;
    }
    proof {
        assert(str_list_view(r@) =~= str_list_view(list@));
    }
    r
}

/// The kind of a parameter field; an enumeration field carries the closed
/// list of its variant names.
#[derive(Debug, PartialEq, Eq, Clone)]
pub enum FieldAccessor {
    Float,
    Bool,
    Enum { names: Vec<String> },
}

/// Mathematical model of a [`FieldAccessor`].
pub enum AccessorModel {
    Float,
    Bool,
    Enum { names: Seq<Seq<char>> },
}

impl View for FieldAccessor {
    type V = AccessorModel;

    open spec fn view(&self) -> AccessorModel {
        match self {
            FieldAccessor::Float => AccessorModel::Float,
            FieldAccessor::Bool => AccessorModel::Bool,
            FieldAccessor::Enum { names } => AccessorModel::Enum {
                names: str_list_view(names@),
            },
        }
    }
}

impl AccessorModel {
    /// Whether `v` is a value this kind of field can hold: a continuous value
    /// within `[0, 1]`, any boolean, or one of the enumeration's variant
    /// names.
    pub open spec fn admits(self, v: FieldModel) -> bool {
        match self {
            AccessorModel::Float => v is Float && 0 <= v.float_value() <= FP_ONE,
            AccessorModel::Bool => v is Bool,
            AccessorModel::Enum { names } => v is Enum && names.contains(v.enum_value()),
        }
    }
}

impl FieldAccessor {
    /// A copy of this kind, with the same view.
    pub fn duplicate(&self) -> (r: FieldAccessor)
        ensures
            r@ == self@,
    {
        match self {
            FieldAccessor::Float => FieldAccessor::Float,
            FieldAccessor::Bool => FieldAccessor::Bool,
            FieldAccessor::Enum { names } => FieldAccessor::Enum {
                names: duplicate_strings(names),
            },
        }
    }
}

/// Errors in the externally supplied binding configuration; all are fatal at
/// startup, before the real-time threads run.
#[derive(Debug, PartialEq, Eq, Clone)]
pub enum ConfigError {
    /// A binding names a field the registry does not define.
    FieldNotDefined { name: String },
    /// A binding's shape does not fit the named field's kind, or a value in
    /// it is out of range.
    TypeError { name: String },
    /// A boolean binding gives a key but no button mode.
    ModeRequired { name: String },
    /// A boolean binding names a button mode that does not exist.
    InvalidMode { name: String },
    /// A field was defined twice, or its default does not fit its kind.
    BadFieldDefinition { name: String },
}

/// Input transform bound to a key: continuous rescale, button, or
/// cycle-through-an-ordered-subset.
#[derive(Debug, PartialEq, Eq, Clone)]
pub enum InputConfig {
    Float { name: String },
    Bool { name: String, mode: ButtonMode },
    Enum { name: String, values: Vec<String> },
}

/// Mathematical model of an [`InputConfig`].
pub enum ConfigModel {
    Float { name: Seq<char> },
    Bool { name: Seq<char>, mode: ButtonMode },
    Enum { name: Seq<char>, values: Seq<Seq<char>> },
}

impl View for InputConfig {
    type V = ConfigModel;

    open spec fn view(&self) -> ConfigModel {
        match self {
            InputConfig::Float { name } => ConfigModel::Float { name: name@ },
            InputConfig::Bool { name, mode } => ConfigModel::Bool { name: name@, mode: *mode },
            InputConfig::Enum { name, values } => ConfigModel::Enum {
                name: name@,
                values: str_list_view(values@),
            },
        }
    }
}

impl ConfigModel {
    /// The parameter field this transform is bound to.
    pub open spec fn name(self) -> Seq<char> {
        match self {
            ConfigModel::Float { name } => name,
            ConfigModel::Bool { name, .. } => name,
            ConfigModel::Enum { name, .. } => name,
        }
    }
}

impl InputConfig {
    /// The parameter field this transform is bound to.
    pub fn name(&self) -> (r: &str)
        ensures
            r@ == self@.name(),
    {
        match self {
            InputConfig::Float { name } => name.as_str(),
            InputConfig::Bool { name, .. } => name.as_str(),
            InputConfig::Enum { name, .. } => name.as_str(),
        }
    }
}

/// Output transform bound to a key: mirror a boolean field, or light when an
/// enumeration field's value is a member of a value subset.
#[derive(Debug, PartialEq, Eq, Clone)]
pub enum OutputConfig {
    Bool { name: String, out: Key },
    Enum { name: String, out: Key, values: Vec<String> },
}

/// Mathematical model of an [`OutputConfig`].
pub enum OutputModel {
    Bool { name: Seq<char>, out: Key },
    Enum { name: Seq<char>, out: Key, values: Seq<Seq<char>> },
}

impl View for OutputConfig {
    type V = OutputModel;

    open spec fn view(&self) -> OutputModel {
        match self {
            OutputConfig::Bool { name, out } => OutputModel::Bool { name: name@, out: *out },
            OutputConfig::Enum { name, out, values } => OutputModel::Enum {
                name: name@,
                out: *out,
                values: str_list_view(values@),
            },
        }
    }
}

impl OutputModel {
    /// The parameter field this transform reads.
    pub open spec fn name(self) -> Seq<char> {
        match self {
            OutputModel::Bool { name, .. } => name,
            OutputModel::Enum { name, .. } => name,
        }
    }

    /// The key this transform drives.
    pub open spec fn out(self) -> Key {
        match self {
            OutputModel::Bool { out, .. } => out,
            OutputModel::Enum { out, .. } => out,
        }
    }
}

impl OutputConfig {
    /// The parameter field this transform reads.
    pub fn name(&self) -> (r: &str)
        ensures
            r@ == self@.name(),
    {
        match self {
            OutputConfig::Bool { name, .. } => name.as_str(),
            OutputConfig::Enum { name, .. } => name.as_str(),
        }
    }
}

/// One registered field: its name, its kind, and its default value.
#[derive(Debug, PartialEq, Eq, Clone)]
pub struct FieldDef {
    pub name: String,
    pub accessor: FieldAccessor,
    pub default: FieldValue,
}

/// Mathematical model of a [`FieldDef`].
pub struct FieldDefModel {
    pub name: Seq<char>,
    pub accessor: AccessorModel,
    pub default: FieldModel,
}

impl View for FieldDef {
    type V = FieldDefModel;

    open spec fn view(&self) -> FieldDefModel {
        FieldDefModel { name: self.name@, accessor: self.accessor@, default: self.default@ }
    }
}

/// The names of a field list, in order.
pub open spec fn def_names(def: Seq<FieldDefModel>) -> Seq<Seq<char>> {
    def.map_values(|f: FieldDefModel| f.name)
}

/// The index of the first field called `name`, if any.
pub open spec fn def_index(def: Seq<FieldDefModel>, name: Seq<char>) -> Option<int> {
    def_names(def).index_of_first(name)
}

/// A well-formed field list: names are unique and every default fits its
/// field's kind.
pub open spec fn def_wf(def: Seq<FieldDefModel>) -> bool {
    &&& forall|i: int, j: int| 0 <= i < j < def.len() ==> def[i].name != def[j].name
    &&& forall|i: int| 0 <= i < def.len() ==> #[trigger] def[i].accessor.admits(def[i].default)
}

/// The registry: the parameter set's fields, in definition order. Built once
/// at startup; the position of a field in this list is its index in the
/// corresponding [`Input`].
#[derive(Debug, PartialEq, Eq, Clone)]
pub struct StateDefinition {
    pub fields: Vec<FieldDef>,
}

impl View for StateDefinition {
    type V = Seq<FieldDefModel>;

    open spec fn view(&self) -> Seq<FieldDefModel> {
        self.fields@.map_values(|f: FieldDef| f@)
    }
}

/// The parameter set: one value per registered field, in registry order.
/// Mutated by the control-mapping engine and read by the audio path as a
/// cloned snapshot.
#[derive(Debug, PartialEq, Eq, Clone)]
pub struct Input {
    pub values: Vec<FieldValue>,
}

impl View for Input {
    type V = Seq<FieldModel>;

    open spec fn view(&self) -> Seq<FieldModel> {
        self.values@.map_values(|v: FieldValue| v@)
    }
}

/// A parameter set fits the registry: one value per field, each of its
/// field's kind.
pub open spec fn state_matches(state: Seq<FieldModel>, def: Seq<FieldDefModel>) -> bool {
    &&& state.len() == def.len()
    &&& forall|i: int| 0 <= i < state.len() ==> #[trigger] def[i].accessor.admits(state[i])
}

impl Input {
    /// The parameter set fits the registry: one value per field, each of its
    /// field's kind.
    pub open spec fn matches_def(self, def: Seq<FieldDefModel>) -> bool {
        state_matches(self@, def)
    }

    /// The value at field index `i`.
    pub fn get(&self, i: usize) -> (r: &FieldValue)
        requires
            i < self@.len(),
        ensures
            r@ == self@[i as int],
    {
        &self.values[i]
    }

    /// How many fields the parameter set holds.
    pub fn len(&self) -> (r: usize)
        ensures
            r == self@.len(),
    {
        self.values.len()
    }
}

/// Whether the list holds a string equal to `s`.
pub fn contains_string(list: &Vec<String>, s: &str) -> (r: bool)
    ensures
        r == str_list_view(list@).contains(s@),
{
    let mut i: usize = 0;
    while i < list.len()
        invariant
            0 <= i <= list@.len(),
            forall|j: int| 0 <= j < i ==> str_list_view(list@)[j] != s@,
        decreases list@.len() - i,
    {
        let entry: &String = &list[i];
        if str_eq(entry.as_str(), s) {
            proof {
                assert(str_list_view(list@)[i as int] == s@);
            }
            return true;
        }
        i = i + 1;
    }
    proof {
        assert(forall|j: int| 0 <= j < str_list_view(list@).len() ==> str_list_view(list@)[j] != s@);
    }
    false
}

impl StateDefinition {
    /// A fresh, empty registry.
    pub fn new() -> (r: StateDefinition)
        ensures
            r@.len() == 0,
            def_wf(r@),
    {
        StateDefinition { fields: Vec::new() }
    }

    /// A copy of the registry, with the same view.
    pub fn duplicate(&self) -> (r: StateDefinition)
        ensures
            r@ == self@,
    {
        let mut fields: Vec<FieldDef> = Vec::new();
        let mut i: usize = 0;
        while i < self.fields.len()
            invariant
                0 <= i <= self.fields@.len(),
                fields@.len() == i,
                forall|j: int| 0 <= j < i ==> fields@[j]@ == self.fields@[j]@,
            decreases self.fields@.len() - i,
        {
            let f = &self.fields[i];
            fields.push(
                FieldDef {
                    name: f.name.clone(),
                    accessor: f.accessor.duplicate(),
                    default: f.default.duplicate(),
                },
            );
            i = i + 1;
        }
        let r = StateDefinition { fields };
        proof {
            assert(r@ =~= self@);
        }
        r
    }

    /// Register a field. Fails when the name is already taken or the default
    /// does not fit the kind; the registry is unchanged then.
    pub fn define_field(&mut self, name: String, accessor: FieldAccessor, default: FieldValue) -> (r:
        Result<(), ConfigError>)
        requires
            def_wf(old(self)@),
        ensures
            def_wf(final(self)@),
            match r {
                Ok(()) => {
                    &&& def_index(old(self)@, name@) is None
                    &&& accessor@.admits(default@)
                    &&& final(self)@ == old(self)@.push(
                        FieldDefModel { name: name@, accessor: accessor@, default: default@ },
                    )
                },
                Err(e) => {
                    &&& *final(self) == *old(self)
                    &&& e == (ConfigError::BadFieldDefinition { name })
                    &&& (def_index(old(self)@, name@) is Some || !accessor@.admits(default@))
                },
            },
    {
        proof {
            def_names(self@).index_of_first_ensures(name@);
        }
        if self.has_field(name.as_str()) {
            return Err(ConfigError::BadFieldDefinition { name });
        }
        let ok = match &accessor {
            FieldAccessor::Float => match &default {
                FieldValue::Float(x) => 0 <= *x && *x <= FP_ONE,
                _ => false,
            },
            FieldAccessor::Bool => match &default {
                FieldValue::Bool(_) => true,
                _ => false,
            },
            FieldAccessor::Enum { names } => match &default {
                FieldValue::Enum(s) => contains_string(names, s.as_str()),
                _ => false,
            },
        };
        if !ok {
            return Err(ConfigError::BadFieldDefinition { name });
        }
        let ghost before = self@;
        let ghost model = FieldDefModel { name: name@, accessor: accessor@, default: default@ };
        self.fields.push(FieldDef { name, accessor, default });
        proof {
            assert(self@ =~= before.push(model));
            assert forall|i: int, j: int|
                0 <= i < j < self@.len() implies self@[i].name != self@[j].name by {
                if j < before.len() {
                } else {
                    assert(def_names(before)[i] == before[i].name);
                }
            }
        }
        Ok(())
    }

    /// The index of the field called `name`, if it is defined.
    pub fn field_index(&self, name: &str) -> (r: Option<usize>)
        ensures
            match r {
                Some(i) => i < self@.len() && def_index(self@, name@) == Some(i as int),
                None => def_index(self@, name@) is None,
            },
    {
        let mut i: usize = 0;
        while i < self.fields.len()
            invariant
                0 <= i <= self.fields@.len(),
                forall|j: int| 0 <= j < i ==> def_names(self@)[j] != name@,
            decreases self.fields@.len() - i,
        {
            let f: &FieldDef = &self.fields[i];
            if str_eq(f.name.as_str(), name) {
                proof {
                    def_names(self@).index_of_first_ensures(name@);
                    assert(def_names(self@)[i as int] == name@);
                }
                return Some(i);
            }
            i = i + 1;
        }
        proof {
            def_names(self@).index_of_first_ensures(name@);
            assert(forall|j: int| 0 <= j < def_names(self@).len() ==> def_names(self@)[j] != name@);
        }
        None
    }

    /// Whether a field called `name` is defined.
    pub fn has_field(&self, name: &str) -> (r: bool)
        ensures
            r == (def_index(self@, name@) is Some),
    {
        self.field_index(name).is_some()
    }

    /// A configuration referencing an unknown field is an error, surfaced
    /// before the real-time threads start.
    pub fn assert_has_field(&self, name: &str) -> (r: Result<(), ConfigError>)
        ensures
            match r {
                Ok(()) => def_index(self@, name@) is Some,
                Err(e) => {
                    &&& def_index(self@, name@) is None
                    &&& e matches ConfigError::FieldNotDefined { name: n } && n@ == name@
                },
            },
    {
        if self.has_field(name) {
            Ok(())
        } else {
            Err(ConfigError::FieldNotDefined { name: name.to_owned() })
        }
    }

    /// The kind of the field called `name`, if it is defined.
    pub fn field(&self, name: &str) -> (r: Option<&FieldAccessor>)
        ensures
            match r {
                Some(a) => match def_index(self@, name@) {
                    Some(i) => a@ == self@[i].accessor,
                    None => false,
                },
                None => def_index(self@, name@) is None,
            },
    {
        match self.field_index(name) {
            Some(i) => {
                let f: &FieldDef = &self.fields[i];
                Some(&f.accessor)
            },
            None => None,
        }
    }

    /// A fresh parameter set holding every field's default.
    pub fn new_input(&self) -> (r: Input)
        requires
            def_wf(self@),
        ensures
            r@.len() == self@.len(),
            forall|i: int| 0 <= i < r@.len() ==> r@[i] == self@[i].default,
            r.matches_def(self@),
    {
        let mut values: Vec<FieldValue> = Vec::new();
        let mut i: usize = 0;
        while i < self.fields.len()
            invariant
                0 <= i <= self.fields@.len(),
                values@.len() == i,
                forall|j: int| 0 <= j < i ==> values@[j]@ == self.fields@[j]@.default,
            decreases self.fields@.len() - i,
        {
            let f: &FieldDef = &self.fields[i];
            values.push(f.default.duplicate());
            i = i + 1;
        }
        let r = Input { values };
        r
    }

    /// Split the registry into its input and output halves, each carrying a
    /// copy of the definition.
    pub fn into_io(self) -> (r: (StateInput, StateOutput))
        ensures
            r.0.state_definition@ == self@,
            r.0.inputs@.len() == 0,
            r.1.state_definition@ == self@,
            r.1.outputs@.len() == 0,
    {
        let sd = self.duplicate();
        (StateInput::new(sd), StateOutput::new(self))
    }
}

/// The key-to-field input bindings, over a copy of the registry.
pub struct StateInput {
    pub state_definition: StateDefinition,
    pub inputs: Vec<(Key, InputConfig)>,
}

impl StateInput {
    /// Wrap a registry with an empty binding table.
    pub fn new(state_definition: StateDefinition) -> (r: StateInput)
        ensures
            r.state_definition == state_definition,
            r.inputs@.len() == 0,
    {
        StateInput { state_definition, inputs: Vec::new() }
    }
}

/// The field-to-key output bindings, over a copy of the registry.
pub struct StateOutput {
    pub state_definition: StateDefinition,
    pub outputs: Vec<OutputConfig>,
}

impl StateOutput {
    /// Wrap a registry with an empty binding list.
    pub fn new(state_definition: StateDefinition) -> (r: StateOutput)
        ensures
            r.state_definition == state_definition,
            r.outputs@.len() == 0,
    {
        StateOutput { state_definition, outputs: Vec::new() }
    }
}

/// The Q24 value a control byte maps to: `0..=127` rescaled linearly onto
/// `[0, 1]`; bytes above `127` (not produced by well-formed MIDI) saturate.
pub open spec fn float_of_byte(value: u8) -> int {
    if value >= 127 {
        FP_ONE as int
    } else {
        value * FP_ONE / 127
    }
}

/// The Q24 value a control byte maps to.
pub fn byte_to_float(value: u8) -> (r: i64)
    ensures
        r == float_of_byte(value),
        0 <= r <= FP_ONE,
{
    let v: u64 = if value > 127 {
        127
    } else {
        value as u64
    };
    let r: u64 = (v * (FP_ONE as u64)) / 127;
    proof {
        vstd::arithmetic::div_mod::lemma_div_is_ordered(v as int * FP_ONE as int, 127 * FP_ONE, 127);
        vstd::arithmetic::div_mod::lemma_div_pos_is_pos(v as int * FP_ONE as int, 127);
    }
    r as i64
}

/// The index of the value a press advances to: one past the current value's
/// first occurrence, wrapping around; the start of the list when the current
/// value does not occur in it.
pub open spec fn cycle_pick(values: Seq<Seq<char>>, current: Seq<char>) -> int
    recommends
        values.len() > 0,
{
    match values.index_of_first(current) {
        Some(i) => (i + 1) % (values.len() as int),
        None => 0,
    }
}

/// The value a field takes when the control byte `value` arrives through the
/// transform `cfg`, given the field's kind and current value.
pub open spec fn next_field(
    cfg: ConfigModel,
    acc: AccessorModel,
    cur: FieldModel,
    value: u8,
) -> FieldModel {
    match cfg {
        ConfigModel::Float { .. } => FieldModel::Float(float_of_byte(value) as i64),
        ConfigModel::Bool { mode, .. } => match mode {
            ButtonMode::Momentary => FieldModel::Bool(value >= 0x40),
            ButtonMode::Toggle => if value >= 0x40 {
                FieldModel::Bool(!cur.bool_value())
            } else {
                cur
            },
        },
        ConfigModel::Enum { values, .. } => {
            if value >= 0x40 && values.len() > 0 {
                let cand = values[cycle_pick(values, cur.enum_value())];
                match acc {
                    AccessorModel::Enum { names } => if names.contains(cand) {
                        FieldModel::Enum(cand)
                    } else {
                        cur
                    },
                    _ => cur,
                }
            } else {
                cur
            }
        },
    }
}

/// An input transform fits the registry: its field exists, has the
/// transform's kind, and a cycling transform has at least one value.
pub open spec fn config_ok(def: Seq<FieldDefModel>, cfg: ConfigModel) -> bool {
    match def_index(def, cfg.name()) {
        None => false,
        Some(fi) => match (cfg, def[fi].accessor) {
            (ConfigModel::Float { .. }, AccessorModel::Float) => true,
            (ConfigModel::Bool { .. }, AccessorModel::Bool) => true,
            (ConfigModel::Enum { values, .. }, AccessorModel::Enum { .. }) => values.len() > 0,
            _ => false,
        },
    }
}

impl StateInput {
    /// The bound keys, in binding order.
    pub open spec fn keys(self) -> Seq<Key> {
        self.inputs@.map_values(|e: (Key, InputConfig)| e.0)
    }

    /// The index of the binding for `key`, if any.
    pub open spec fn key_index(self, key: Key) -> Option<int> {
        self.keys().index_of_first(key)
    }

    /// The transform of the binding at index `i`.
    pub open spec fn config_at(self, i: int) -> ConfigModel
        recommends
            0 <= i < self.inputs@.len(),
    {
        self.inputs@[i].1@
    }

    /// Well-formed bindings: the registry is well formed, keys are bound at
    /// most once, and every transform fits the registry.
    pub open spec fn wf(self) -> bool {
        &&& def_wf(self.state_definition@)
        &&& forall|i: int, j: int|
            0 <= i < j < self.inputs@.len() ==> self.keys()[i] != self.keys()[j]
        &&& forall|i: int|
            0 <= i < self.inputs@.len() ==> config_ok(self.state_definition@, #[trigger] self.config_at(i))
    }

    /// What one control byte arriving on `key` does to the parameter set.
    pub open spec fn update_spec(self, state: Seq<FieldModel>, key: Key, value: u8) -> Seq<
        FieldModel,
    > {
        match self.key_index(key) {
            None => state,
            Some(k) => {
                let cfg = self.config_at(k);
                match def_index(self.state_definition@, cfg.name()) {
                    None => state,
                    Some(fi) => state.update(
                        fi,
                        next_field(cfg, self.state_definition@[fi].accessor, state[fi], value),
                    ),
                }
            },
        }
    }

    /// The index of the binding for `key`, if any.
    fn key_position(&self, key: Key) -> (r: Option<usize>)
        ensures
            match r {
                Some(i) => i < self.inputs@.len() && self.key_index(key) == Some(i as int),
                None => self.key_index(key) is None,
            },
    {
        let mut i: usize = 0;
        while i < self.inputs.len()
            invariant
                0 <= i <= self.inputs@.len(),
                forall|j: int| 0 <= j < i ==> self.keys()[j] != key,
            decreases self.inputs@.len() - i,
        {
            let entry = &self.inputs[i];
            if entry.0 == key {
                proof {
                    self.keys().index_of_first_ensures(key);
                    assert(self.keys()[i as int] == key);
                }
                return Some(i);
            }
            i = i + 1;
        }
        proof {
            self.keys().index_of_first_ensures(key);
            assert(forall|j: int| 0 <= j < self.keys().len() ==> self.keys()[j] != key);
        }
        None
    }

    /// Bind `key` to an input transform, replacing any binding the key
    /// already has. Fails, leaving the bindings unchanged, when the transform
    /// names an unknown field, when the field's kind does not fit, or when a
    /// cycling transform has no values.
    pub fn define_input(&mut self, key: Key, input: InputConfig) -> (r: Result<(), ConfigError>)
        requires
            old(self).wf(),
        ensures
            final(self).wf(),
            final(self).state_definition == old(self).state_definition,
            match r {
                Ok(()) => {
                    &&& config_ok(old(self).state_definition@, input@)
                    &&& match old(self).key_index(key) {
                        Some(i) => final(self).inputs@ == old(self).inputs@.update(
                            i,
                            (key, input),
                        ),
                        None => final(self).inputs@ == old(self).inputs@.push((key, input)),
                    }
                },
                Err(e) => {
                    &&& final(self).inputs@ == old(self).inputs@
                    &&& !config_ok(old(self).state_definition@, input@)
                    &&& match def_index(old(self).state_definition@, input@.name()) {
                        None => e matches ConfigError::FieldNotDefined { name: n } && n@
                            == input@.name(),
                        Some(_) => e matches ConfigError::TypeError { name: n } && n@
                            == input@.name(),
                    }
                },
            },
    {
        let fi = match self.state_definition.field_index(input.name()) {
            Some(fi) => fi,
            None => {
                return Err(ConfigError::FieldNotDefined { name: input.name().to_owned() });
            },
        };
        let f: &FieldDef = &self.state_definition.fields[fi];
        let ok = match (&input, &f.accessor) {
            (InputConfig::Float { .. }, FieldAccessor::Float) => true,
            (InputConfig::Bool { .. }, FieldAccessor::Bool) => true,
            (InputConfig::Enum { values, .. }, FieldAccessor::Enum { .. }) => values.len() > 0,
            _ => false,
        };
        if !ok {
            return Err(ConfigError::TypeError { name: input.name().to_owned() });
        }
        let ghost old_self = *self;
        match self.key_position(key) {
            Some(i) => {
                self.inputs.set(i, (key, input));
                proof {
                    old_self.keys().index_of_first_ensures(key);
                    assert(self.keys() =~= old_self.keys());
                    assert forall|j: int|
                        0 <= j < self.inputs@.len() implies config_ok(
                        self.state_definition@,
                        #[trigger] self.config_at(j),
                    ) by {
                        if j != i {
                            assert(self.config_at(j) == old_self.config_at(j));
                        }
                    }
                }
            },
            None => {
                self.inputs.push((key, input));
                proof {
                    assert(old_self.keys().push(key) =~= self.keys());
                    old_self.keys().index_of_first_ensures(key);
                    assert forall|a: int, b: int|
                        0 <= a < b < self.inputs@.len() implies self.keys()[a]
                        != self.keys()[b] by {
                        if b == self.inputs@.len() - 1 {
                            assert(old_self.keys()[a] != key);
                        }
                    }
                    assert forall|j: int|
                        0 <= j < self.inputs@.len() implies config_ok(
                        self.state_definition@,
                        #[trigger] self.config_at(j),
                    ) by {
                        if j != self.inputs@.len() - 1 {
                            assert(self.config_at(j) == old_self.config_at(j));
                        }
                    }
                }
            },
        }
        Ok(())
    }
}

impl Input {
    /// The Q24 value held by the continuous field at index `i`.
    pub fn read_float(&self, i: usize) -> (r: i64)
        requires
            i < self@.len(),
            self@[i as int] is Float,
        ensures
            r == self@[i as int].float_value(),
    {
        let v: &FieldValue = &self.values[i];
        match v {
            FieldValue::Float(x) => *x,
            _ => {
                proof {
                    assert(false);
                }
                0
            },
        }
    }

    /// The boolean held by the boolean field at index `i`.
    pub fn read_bool(&self, i: usize) -> (r: bool)
        requires
            i < self@.len(),
            self@[i as int] is Bool,
        ensures
            r == self@[i as int].bool_value(),
    {
        let v: &FieldValue = &self.values[i];
        match v {
            FieldValue::Bool(b) => *b,
            _ => {
                proof {
                    assert(false);
                }
                false
            },
        }
    }

    /// The variant name held by the enumeration field at index `i`.
    pub fn read_enum(&self, i: usize) -> (r: &String)
        requires
            i < self@.len(),
            self@[i as int] is Enum,
        ensures
            r@ == self@[i as int].enum_value(),
    {
        let v: &FieldValue = &self.values[i];
        match v {
            FieldValue::Enum(s) => s,
            FieldValue::Float(_) => {
                proof {
                    assert(false);
                }
                vstd::pervasive::unreached()
            },
            FieldValue::Bool(_) => {
                proof {
                    assert(false);
                }
                vstd::pervasive::unreached()
            },
        }
    }

    /// Store `v` at field index `i`.
    fn write_field(&mut self, i: usize, v: FieldValue)
        requires
            i < old(self)@.len(),
        ensures
            final(self)@ == old(self)@.update(i as int, v@),
    {
        self.values.set(i, v);
        proof {
            assert(self@ =~= old(self)@.update(i as int, v@));
        }
    }
}

impl StateInput {
    /// Apply one control byte arriving on `key` to the parameter set: the
    /// new state is exactly [`StateInput::update_spec`] of the old one. A key
    /// without a binding leaves the state unchanged.
    pub fn update_state(&self, state: &mut Input, key: Key, value: u8)
        requires
            self.wf(),
            old(state).matches_def(self.state_definition@),
        ensures
            final(state)@ == self.update_spec(old(state)@, key, value),
            final(state).matches_def(self.state_definition@),
    {
        let pos = match self.key_position(key) {
            Some(i) => i,
            None => {
                return;
            },
        };
        let entry = &self.inputs[pos];
        let cfg: &InputConfig = &entry.1;
        proof {
            assert(config_ok(self.state_definition@, self.config_at(pos as int)));
        }
        match cfg {
            InputConfig::Float { name } => {
                let fi = match self.state_definition.field_index(name.as_str()) {
                    Some(fi) => fi,
                    None => {
                        proof {
                            assert(false);
                        }
                        return;
                    },
                };
                state.write_field(fi, FieldValue::Float(byte_to_float(value)));
            },
            InputConfig::Bool { name, mode } => {
                let fi = match self.state_definition.field_index(name.as_str()) {
                    Some(fi) => fi,
                    None => {
                        proof {
                            assert(false);
                        }
                        return;
                    },
                };
                proof {
                    assert(self.config_at(pos as int) == cfg@);
                    assert(def_index(self.state_definition@, cfg@.name()) == Some(fi as int));
                    assert(self.state_definition@[fi as int].accessor.admits(
                        old(state)@[fi as int],
                    ));
                }
                let pressed = 0x40 <= value;
                match mode {
                    ButtonMode::Momentary => {
                        state.write_field(fi, FieldValue::Bool(pressed));
                    },
                    ButtonMode::Toggle => {
                        let current = state.read_bool(fi);
                        if pressed {
                            state.write_field(fi, FieldValue::Bool(!current));
                        } else {
                            proof {
                                assert(old(state)@.update(
                                    fi as int,
                                    old(state)@[fi as int],
                                ) =~= old(state)@);
                            }
                        }
                    },
                }
            },
            InputConfig::Enum { name, values } => {
                let fi = match self.state_definition.field_index(name.as_str()) {
                    Some(fi) => fi,
                    None => {
                        proof {
                            assert(false);
                        }
                        return;
                    },
                };
                proof {
                    assert(self.config_at(pos as int) == cfg@);
                    assert(def_index(self.state_definition@, cfg@.name()) == Some(fi as int));
                    assert(self.state_definition@[fi as int].accessor.admits(
                        old(state)@[fi as int],
                    ));
                }
                let pressed = 0x40 <= value;
                if pressed {
                    let current = state.read_enum(fi);
                    let mut index: usize = 0;
                    let mut j: usize = 0;
                    let mut found = false;
                    while j < values.len()
                        invariant
                            0 <= j <= values@.len(),
                            !found ==> forall|k: int|
                                0 <= k < j ==> str_list_view(values@)[k] != current@,
                            found ==> {
                                &&& str_list_view(values@).index_of_first(current@) == Some(
                                    index as int,
                                )
                                &&& index < values@.len()
                            },
                        decreases values@.len() - j,
                    {
                        if !found {
                            let v: &String = &values[j];
                            if str_eq(v.as_str(), current.as_str()) {
                                found = true;
                                proof {
                                    str_list_view(values@).index_of_first_ensures(current@);
                                    assert(str_list_view(values@)[j as int] == current@);
                                }
                                index = j;
                            }
                        }
                        j = j + 1;
                    }
                    proof {
                        if !found {
                            str_list_view(values@).index_of_first_ensures(current@);
                        }
                    }
                    let target: usize = if found {
                        (index + 1) % values.len()
                    } else {
                        0
                    };
                    proof {
                        assert(target as int == cycle_pick(str_list_view(values@), current@));
                    }
                    let cand: &String = &values[target];
                    let f: &FieldDef = &self.state_definition.fields[fi];
                    match &f.accessor {
                        FieldAccessor::Enum { names } => {
                            if contains_string(names, cand.as_str()) {
                                let newval = FieldValue::Enum(cand.clone());
                                state.write_field(fi, newval);
                            } else {
                                proof {
                                    assert(old(state)@.update(
                                        fi as int,
                                        old(state)@[fi as int],
                                    ) =~= old(state)@);
                                }
                            }
                        },
                        _ => {
                            proof {
                                assert(false);
                            }
                        },
                    }
                } else {
                    proof {
                        assert(old(state)@.update(fi as int, old(state)@[fi as int]) =~= old(
                            state,
                        )@);
                    }
                }
            },
        }
    }
}

/// An output transform fits the registry: its field exists and has the
/// transform's kind.
pub open spec fn output_ok(def: Seq<FieldDefModel>, o: OutputModel) -> bool {
    match def_index(def, o.name()) {
        None => false,
        Some(fi) => match (o, def[fi].accessor) {
            (OutputModel::Bool { .. }, AccessorModel::Bool) => true,
            (OutputModel::Enum { .. }, AccessorModel::Enum { .. }) => true,
            _ => false,
        },
    }
}

/// What one output transform reports: its key, and whether its indicator is
/// lit. A boolean transform mirrors the field; an enumeration transform
/// lights exactly when the field's current value is a member of the
/// transform's value subset.
pub open spec fn output_entry(
    def: Seq<FieldDefModel>,
    state: Seq<FieldModel>,
    o: OutputModel,
) -> (Key, bool)
    recommends
        output_ok(def, o),
{
    match o {
        OutputModel::Bool { name, out } => (
            out,
            match def_index(def, name) {
                Some(fi) => state[fi].bool_value(),
                None => false,
            },
        ),
        OutputModel::Enum { name, out, values } => (
            out,
            match def_index(def, name) {
                Some(fi) => values.contains(state[fi].enum_value()),
                None => false,
            },
        ),
    }
}

impl StateOutput {
    /// The output transforms, in definition order.
    pub open spec fn models(self) -> Seq<OutputModel> {
        self.outputs@.map_values(|o: OutputConfig| o@)
    }

    /// Well-formed bindings: the registry is well formed and every transform
    /// fits it.
    pub open spec fn wf(self) -> bool {
        &&& def_wf(self.state_definition@)
        &&& forall|i: int|
            0 <= i < self.outputs@.len() ==> output_ok(self.state_definition@, #[trigger] self.models()[i])
    }

    /// Add an output transform. Fails, leaving the bindings unchanged, when
    /// the transform names an unknown field or the field's kind does not fit.
    pub fn define_output(&mut self, output: OutputConfig) -> (r: Result<(), ConfigError>)
        requires
            old(self).wf(),
        ensures
            final(self).wf(),
            final(self).state_definition == old(self).state_definition,
            match r {
                Ok(()) => {
                    &&& output_ok(old(self).state_definition@, output@)
                    &&& final(self).outputs@ == old(self).outputs@.push(output)
                },
                Err(e) => {
                    &&& final(self).outputs@ == old(self).outputs@
                    &&& !output_ok(old(self).state_definition@, output@)
                    &&& match def_index(old(self).state_definition@, output@.name()) {
                        None => e matches ConfigError::FieldNotDefined { name: n } && n@
                            == output@.name(),
                        Some(_) => e matches ConfigError::TypeError { name: n } && n@
                            == output@.name(),
                    }
                },
            },
    {
        let fi = match self.state_definition.field_index(output.name()) {
            Some(fi) => fi,
            None => {
                return Err(ConfigError::FieldNotDefined { name: output.name().to_owned() });
            },
        };
        let f: &FieldDef = &self.state_definition.fields[fi];
        let ok = match (&output, &f.accessor) {
            (OutputConfig::Bool { .. }, FieldAccessor::Bool) => true,
            (OutputConfig::Enum { .. }, FieldAccessor::Enum { .. }) => true,
            _ => false,
        };
        if !ok {
            return Err(ConfigError::TypeError { name: output.name().to_owned() });
        }
        let ghost old_self = *self;
        self.outputs.push(output);
        proof {
            assert(old_self.models().push(output@) =~= self.models());
            assert forall|j: int|
                0 <= j < self.outputs@.len() implies output_ok(
                self.state_definition@,
                #[trigger] self.models()[j],
            ) by {
                if j != self.outputs@.len() - 1 {
                    assert(self.models()[j] == old_self.models()[j]);
                }
            }
        }
        Ok(())
    }

    /// Report every configured output once, in definition order: the key and
    /// whether its indicator is lit, per [`output_entry`].
    pub fn output(&self, state: &Input) -> (r: Vec<(Key, bool)>)
        requires
            self.wf(),
            state.matches_def(self.state_definition@),
        ensures
            r@.len() == self.outputs@.len(),
            forall|i: int|
                0 <= i < r@.len() ==> r@[i] == output_entry(
                    self.state_definition@,
                    state@,
                    self.models()[i],
                ),
    {
        let mut r: Vec<(Key, bool)> = Vec::new();
        let mut i: usize = 0;
        while i < self.outputs.len()
            invariant
                self.wf(),
                state.matches_def(self.state_definition@),
                0 <= i <= self.outputs@.len(),
                r@.len() == i,
                forall|j: int|
                    0 <= j < i ==> r@[j] == output_entry(
                        self.state_definition@,
                        state@,
                        self.models()[j],
                    ),
            decreases self.outputs@.len() - i,
        {
            let o: &OutputConfig = &self.outputs[i];
            proof {
                assert(output_ok(self.state_definition@, self.models()[i as int]));
            }
            match o {
                OutputConfig::Bool { name, out } => {
                    let fi = match self.state_definition.field_index(name.as_str()) {
                        Some(fi) => fi,
                        None => {
                            proof {
                                assert(false);
                            }
                            return r;
                        },
                    };
                    proof {
                        assert(self.models()[i as int] == o@);
                        assert(def_index(self.state_definition@, o@.name()) == Some(fi as int));
                        assert(self.state_definition@[fi as int].accessor.admits(
                            state@[fi as int],
                        ));
                    }
                    let lit = state.read_bool(fi);
                    r.push((*out, lit));
                },
                OutputConfig::Enum { name, out, values } => {
                    let fi = match self.state_definition.field_index(name.as_str()) {
                        Some(fi) => fi,
                        None => {
                            proof {
                                assert(false);
                            }
                            return r;
                        },
                    };
                    proof {
                        assert(self.models()[i as int] == o@);
                        assert(def_index(self.state_definition@, o@.name()) == Some(fi as int));
                        assert(self.state_definition@[fi as int].accessor.admits(
                            state@[fi as int],
                        ));
                    }
                    let current = state.read_enum(fi);
                    let lit = contains_string(values, current.as_str());
                    r.push((*out, lit));
                },
            }
            i = i + 1;
        }
        r
    }
}


impl StateInput {
    /// The binding table as a model: each bound key with its transform.
    pub open spec fn inputs_model(self) -> Seq<(Key, ConfigModel)> {
        self.inputs@.map_values(|e: (Key, InputConfig)| (e.0, e.1@))
    }
}

/// A binding table with `key` bound to `cfg`: the key's entry is replaced
/// where one exists, else a new entry is appended.
pub open spec fn insert_binding(
    inputs: Seq<(Key, ConfigModel)>,
    key: Key,
    cfg: ConfigModel,
) -> Seq<(Key, ConfigModel)> {
    match inputs.map_values(|e: (Key, ConfigModel)| e.0).index_of_first(key) {
        Some(i) => inputs.update(i, (key, cfg)),
        None => inputs.push((key, cfg)),
    }
}

/// What a successful [`StateInput::define_input`] does to the binding-table
/// model: exactly [`insert_binding`].
pub proof fn lemma_inputs_model_insert(
    pre: StateInput,
    post: StateInput,
    key: Key,
    input: InputConfig,
)
    requires
        match pre.key_index(key) {
            Some(i) => post.inputs@ == pre.inputs@.update(i, (key, input)),
            None => post.inputs@ == pre.inputs@.push((key, input)),
        },
    ensures
        post.inputs_model() == insert_binding(pre.inputs_model(), key, input@),
{
    assert(pre.inputs_model().map_values(|e: (Key, ConfigModel)| e.0) =~= pre.keys());
    match pre.key_index(key) {
        Some(i) => {
            pre.keys().index_of_first_ensures(key);
            assert(post.inputs_model() =~= pre.inputs_model().update(i, (key, input@)));
        },
        None => {
            assert(post.inputs_model() =~= pre.inputs_model().push((key, input@)));
        },
    }
}

} // verus!
