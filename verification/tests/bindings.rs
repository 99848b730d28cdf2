use rustsynth::config::{setup_state_io, Binding, EnumEntry};
use rustsynth::{SimpleEnum, TriState, WaveForm};
use rustsynth::fixed::FP_ONE;
use rustsynth::input::{
    ButtonMode, ConfigError, FieldAccessor, FieldValue, InputConfig, Key, StateDefinition,
};

fn demo_definition() -> StateDefinition {
    let mut def = StateDefinition::new();
    def.define_field("vco1_freq".to_string(), FieldAccessor::Float, FieldValue::Float(0))
        .unwrap();
    def.define_field("eg1_gate".to_string(), FieldAccessor::Bool, FieldValue::Bool(false))
        .unwrap();
    def.define_field(
        "vco1_waveform".to_string(),
        FieldAccessor::Enum {
            names: vec!["Sine".to_string(), "Square".to_string()],
        },
        FieldValue::Enum("Sine".to_string()),
    )
    .unwrap();
    def
}

#[test]
fn bindings_install_inputs_and_outputs() {
    let (mut state_in, mut state_out) = demo_definition().into_io();
    let bindings = vec![
        ("vco1_freq".to_string(), Binding::Float { key: 0x10 }),
        (
            "eg1_gate".to_string(),
            Binding::Bool {
                key: Some(0x20),
                mode: Some("momentary".to_string()),
                out: Some(0x21),
            },
        ),
        (
            "vco1_waveform".to_string(),
            Binding::Enum {
                entries: vec![EnumEntry {
                    key: Some(0x30),
                    out: Some(0x31),
                    values: vec!["Sine".to_string(), "Square".to_string()],
                }],
            },
        ),
    ];
    setup_state_io(&bindings, &mut state_in, &mut state_out).unwrap();
    assert_eq!(state_in.inputs.len(), 3);
    assert_eq!(state_out.outputs.len(), 2);
    // the installed float binding rescales bytes
    let mut input = state_in.state_definition.new_input();
    state_in.update_state(&mut input, Key::ControlChange(0x10), 127);
    assert_eq!(*input.get(0), FieldValue::Float(FP_ONE));
}

#[test]
fn binding_for_unknown_field_is_fatal() {
    let (mut state_in, mut state_out) = demo_definition().into_io();
    let bindings = vec![("mystery".to_string(), Binding::Float { key: 1 })];
    let err = setup_state_io(&bindings, &mut state_in, &mut state_out).unwrap_err();
    assert!(matches!(err, ConfigError::FieldNotDefined { .. }));
}

#[test]
fn binding_of_wrong_kind_is_fatal() {
    let (mut state_in, mut state_out) = demo_definition().into_io();
    let bindings = vec![("eg1_gate".to_string(), Binding::Float { key: 1 })];
    let err = setup_state_io(&bindings, &mut state_in, &mut state_out).unwrap_err();
    assert!(matches!(err, ConfigError::TypeError { .. }));
}

#[test]
fn bool_binding_requires_a_mode() {
    let (mut state_in, mut state_out) = demo_definition().into_io();
    let bindings = vec![(
        "eg1_gate".to_string(),
        Binding::Bool { key: Some(2), mode: None, out: None },
    )];
    let err = setup_state_io(&bindings, &mut state_in, &mut state_out).unwrap_err();
    assert!(matches!(err, ConfigError::ModeRequired { .. }));
}

#[test]
fn bool_binding_rejects_unknown_mode() {
    let (mut state_in, mut state_out) = demo_definition().into_io();
    let bindings = vec![(
        "eg1_gate".to_string(),
        Binding::Bool { key: Some(2), mode: Some("sticky".to_string()), out: None },
    )];
    let err = setup_state_io(&bindings, &mut state_in, &mut state_out).unwrap_err();
    assert!(matches!(err, ConfigError::InvalidMode { .. }));
}

#[test]
fn binding_rejects_out_of_range_keys() {
    let (mut state_in, mut state_out) = demo_definition().into_io();
    let bindings = vec![("vco1_freq".to_string(), Binding::Float { key: 200 })];
    let err = setup_state_io(&bindings, &mut state_in, &mut state_out).unwrap_err();
    assert!(matches!(err, ConfigError::TypeError { .. }));
}

#[test]
fn toggle_mode_parses() {
    let (mut state_in, mut state_out) = demo_definition().into_io();
    let bindings = vec![(
        "eg1_gate".to_string(),
        Binding::Bool { key: Some(2), mode: Some("toggle".to_string()), out: None },
    )];
    setup_state_io(&bindings, &mut state_in, &mut state_out).unwrap();
    assert_eq!(
        state_in.inputs[0],
        (
            Key::ControlChange(2),
            InputConfig::Bool { name: "eg1_gate".to_string(), mode: ButtonMode::Toggle }
        )
    );
}

#[test]
fn rebinding_a_key_replaces_the_entry() {
    let (mut state_in, _state_out) = demo_definition().into_io();
    state_in
        .define_input(Key::ControlChange(1), InputConfig::Float { name: "vco1_freq".to_string() })
        .unwrap();
    state_in
        .define_input(
            Key::ControlChange(1),
            InputConfig::Bool { name: "eg1_gate".to_string(), mode: ButtonMode::Momentary },
        )
        .unwrap();
    assert_eq!(state_in.inputs.len(), 1);
    assert_eq!(
        state_in.inputs[0].1,
        InputConfig::Bool { name: "eg1_gate".to_string(), mode: ButtonMode::Momentary }
    );
}

#[test]
fn simple_enum_names_round_trip() {
    for w in [
        WaveForm::Sine,
        WaveForm::Triangle,
        WaveForm::Sawtooth,
        WaveForm::Square,
        WaveForm::Noise,
    ] {
        assert_eq!(WaveForm::from_name(w.to_name()), Some(w));
    }
    assert_eq!(WaveForm::from_name("Ramp"), None);
    for t in [TriState::State0, TriState::State1, TriState::State2] {
        assert_eq!(TriState::from_name(t.to_name()), Some(t));
    }
    assert_eq!(TriState::from_name("State3"), None);
}

#[test]
fn sync_error_wraps_values() {
    let e = rustsynth::util::SyncError::new("worn belt".to_string());
    assert_eq!(e.into_inner(), "worn belt".to_string());
}
