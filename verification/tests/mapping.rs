use rustsynth::fixed::FP_ONE;
use rustsynth::input::{
    ButtonMode, FieldAccessor, FieldValue, InputConfig, Key, OutputConfig, StateDefinition,
};
use rustsynth::midi_message::MidiMessage;

fn demo_definition() -> StateDefinition {
    let mut def = StateDefinition::new();
    def.define_field(
        "vco1_freq".to_string(),
        FieldAccessor::Float,
        FieldValue::Float(FP_ONE / 2),
    )
    .unwrap();
    def.define_field("eg1_gate".to_string(), FieldAccessor::Bool, FieldValue::Bool(false))
        .unwrap();
    def.define_field(
        "vco1_waveform".to_string(),
        FieldAccessor::Enum {
            names: vec!["A".to_string(), "B".to_string(), "C".to_string()],
        },
        FieldValue::Enum("A".to_string()),
    )
    .unwrap();
    def
}

#[test]
fn registry_rejects_duplicate_and_bad_default() {
    let mut def = demo_definition();
    assert!(def
        .define_field("vco1_freq".to_string(), FieldAccessor::Bool, FieldValue::Bool(false))
        .is_err());
    assert!(def
        .define_field("x".to_string(), FieldAccessor::Float, FieldValue::Bool(false))
        .is_err());
    assert!(def
        .define_field(
            "y".to_string(),
            FieldAccessor::Enum { names: vec!["A".to_string()] },
            FieldValue::Enum("B".to_string()),
        )
        .is_err());
}

#[test]
fn registry_lookup() {
    let def = demo_definition();
    assert!(def.has_field("eg1_gate"));
    assert!(!def.has_field("nope"));
    assert!(def.assert_has_field("nope").is_err());
    assert_eq!(def.field_index("vco1_waveform"), Some(2));
    assert!(matches!(def.field("vco1_freq"), Some(FieldAccessor::Float)));
}

#[test]
fn defaults_populate_the_input() {
    let def = demo_definition();
    let input = def.new_input();
    assert_eq!(input.len(), 3);
    assert_eq!(*input.get(0), FieldValue::Float(FP_ONE / 2));
    assert_eq!(*input.get(1), FieldValue::Bool(false));
    assert_eq!(*input.get(2), FieldValue::Enum("A".to_string()));
}

#[test]
fn define_input_validates_names_and_kinds() {
    let def = demo_definition();
    let (mut state_in, _state_out) = def.into_io();
    assert!(state_in
        .define_input(Key::ControlChange(1), InputConfig::Float { name: "vco1_freq".to_string() })
        .is_ok());
    assert!(state_in
        .define_input(Key::ControlChange(2), InputConfig::Float { name: "missing".to_string() })
        .is_err());
    assert!(state_in
        .define_input(Key::ControlChange(3), InputConfig::Float { name: "eg1_gate".to_string() })
        .is_err());
    // a cycling transform with no values is refused
    assert!(state_in
        .define_input(
            Key::ControlChange(4),
            InputConfig::Enum { name: "vco1_waveform".to_string(), values: vec![] },
        )
        .is_err());
}

#[test]
fn float_transform_rescales_bytes() {
    let def = demo_definition();
    let (mut state_in, _state_out) = def.into_io();
    state_in
        .define_input(Key::ControlChange(1), InputConfig::Float { name: "vco1_freq".to_string() })
        .unwrap();
    let mut input = state_in.state_definition.new_input();
    state_in.update_state(&mut input, Key::ControlChange(1), 0);
    assert_eq!(*input.get(0), FieldValue::Float(0));
    state_in.update_state(&mut input, Key::ControlChange(1), 127);
    assert_eq!(*input.get(0), FieldValue::Float(FP_ONE));
    state_in.update_state(&mut input, Key::ControlChange(1), 64);
    assert_eq!(*input.get(0), FieldValue::Float(64 * FP_ONE / 127));
    // an unbound key changes nothing
    state_in.update_state(&mut input, Key::ControlChange(9), 127);
    assert_eq!(*input.get(0), FieldValue::Float(64 * FP_ONE / 127));
}

#[test]
fn toggle_flips_on_press_only() {
    let def = demo_definition();
    let (mut state_in, _state_out) = def.into_io();
    state_in
        .define_input(
            Key::ControlChange(5),
            InputConfig::Bool { name: "eg1_gate".to_string(), mode: ButtonMode::Toggle },
        )
        .unwrap();
    let mut input = state_in.state_definition.new_input();
    state_in.update_state(&mut input, Key::ControlChange(5), 0x7F);
    assert_eq!(*input.get(1), FieldValue::Bool(true));
    // release never changes the field
    state_in.update_state(&mut input, Key::ControlChange(5), 0x00);
    assert_eq!(*input.get(1), FieldValue::Bool(true));
    state_in.update_state(&mut input, Key::ControlChange(5), 0x40);
    assert_eq!(*input.get(1), FieldValue::Bool(false));
    state_in.update_state(&mut input, Key::ControlChange(5), 0x3F);
    assert_eq!(*input.get(1), FieldValue::Bool(false));
}

#[test]
fn momentary_follows_the_button() {
    let def = demo_definition();
    let (mut state_in, _state_out) = def.into_io();
    state_in
        .define_input(
            Key::ControlChange(5),
            InputConfig::Bool { name: "eg1_gate".to_string(), mode: ButtonMode::Momentary },
        )
        .unwrap();
    let mut input = state_in.state_definition.new_input();
    for &(byte, expect) in &[(0x7Fu8, true), (0x00u8, false), (0x40u8, true), (0x3Fu8, false)] {
        state_in.update_state(&mut input, Key::ControlChange(5), byte);
        assert_eq!(*input.get(1), FieldValue::Bool(expect));
    }
}

#[test]
fn enum_cycling_advances_and_wraps() {
    let def = demo_definition();
    let (mut state_in, _state_out) = def.into_io();
    state_in
        .define_input(
            Key::ControlChange(6),
            InputConfig::Enum {
                name: "vco1_waveform".to_string(),
                values: vec!["A".to_string(), "B".to_string(), "C".to_string()],
            },
        )
        .unwrap();
    let mut input = state_in.state_definition.new_input();
    input.values[2] = FieldValue::Enum("B".to_string());
    // a press from "B" advances to "C"
    state_in.update_state(&mut input, Key::ControlChange(6), 0x7F);
    assert_eq!(*input.get(2), FieldValue::Enum("C".to_string()));
    // from "C" a press wraps to "A"
    state_in.update_state(&mut input, Key::ControlChange(6), 0x7F);
    assert_eq!(*input.get(2), FieldValue::Enum("A".to_string()));
    // a release does nothing
    state_in.update_state(&mut input, Key::ControlChange(6), 0x00);
    assert_eq!(*input.get(2), FieldValue::Enum("A".to_string()));
}

#[test]
fn enum_cycling_defaults_to_start_when_absent() {
    let def = demo_definition();
    let (mut state_in, _state_out) = def.into_io();
    state_in
        .define_input(
            Key::ControlChange(6),
            InputConfig::Enum {
                name: "vco1_waveform".to_string(),
                values: vec!["B".to_string(), "C".to_string()],
            },
        )
        .unwrap();
    let mut input = state_in.state_definition.new_input();
    // current value "A" is absent from the subset: the press picks its start
    state_in.update_state(&mut input, Key::ControlChange(6), 0x7F);
    assert_eq!(*input.get(2), FieldValue::Enum("B".to_string()));
}

#[test]
fn enum_output_reports_membership() {
    let def = demo_definition();
    let (_state_in, mut state_out) = def.into_io();
    state_out
        .define_output(OutputConfig::Enum {
            name: "vco1_waveform".to_string(),
            out: Key::ControlChange(10),
            values: vec!["A".to_string(), "B".to_string()],
        })
        .unwrap();
    state_out
        .define_output(OutputConfig::Enum {
            name: "vco1_waveform".to_string(),
            out: Key::ControlChange(11),
            values: vec!["C".to_string()],
        })
        .unwrap();
    let mut input = state_out.state_definition.new_input();
    input.values[2] = FieldValue::Enum("B".to_string());
    let report = state_out.output(&input);
    assert_eq!(report, vec![(Key::ControlChange(10), true), (Key::ControlChange(11), false)]);
}

#[test]
fn bool_output_mirrors_field() {
    let def = demo_definition();
    let (_state_in, mut state_out) = def.into_io();
    state_out
        .define_output(OutputConfig::Bool {
            name: "eg1_gate".to_string(),
            out: Key::ControlChange(12),
        })
        .unwrap();
    let mut input = state_out.state_definition.new_input();
    assert_eq!(state_out.output(&input), vec![(Key::ControlChange(12), false)]);
    input.values[1] = FieldValue::Bool(true);
    assert_eq!(state_out.output(&input), vec![(Key::ControlChange(12), true)]);
}

#[test]
fn midi_bytes_drive_the_bound_field_to_full_scale() {
    // end to end: raw control-change bytes through the decoder into the
    // control-mapping engine set vco1_freq to one
    let def = demo_definition();
    let (mut state_in, _state_out) = def.into_io();
    state_in
        .define_input(Key::ControlChange(0x01), InputConfig::Float {
            name: "vco1_freq".to_string(),
        })
        .unwrap();
    let mut input = state_in.state_definition.new_input();
    match MidiMessage::try_from(&[0xB0u8, 0x01, 0x7F][..]).unwrap() {
        MidiMessage::ControlChange { ch: 0, num, value } => {
            state_in.update_state(&mut input, Key::ControlChange(num), value);
        }
        other => panic!("unexpected message: {:?}", other),
    }
    assert_eq!(*input.get(0), FieldValue::Float(FP_ONE));
}
