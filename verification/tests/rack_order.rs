use rustsynth::fixed::FP_ONE;
use rustsynth::input::{FieldAccessor, FieldValue, StateDefinition};
use rustsynth::module::{Buf, Module, Sig};
use rustsynth::rack::Rack;

fn level_definition() -> StateDefinition {
    let mut def = StateDefinition::new();
    def.define_field("level".to_string(), FieldAccessor::Float, FieldValue::Float(0))
        .unwrap();
    def
}

#[test]
fn consumer_after_producer_sees_same_tick_value() {
    let def = level_definition();
    let units = vec![
        ("producer".to_string(), Module::Buf(Buf { in_value: Sig::Param(0), out: 0 })),
        ("consumer".to_string(), Module::Buf(Buf { in_value: Sig::Out(0), out: 0 })),
    ];
    let mut rack = Rack::new(def, units).unwrap();
    let mut input = rack.new_input();
    input.values[0] = FieldValue::Float(3 * FP_ONE / 4);
    rack.update(&input);
    // one tick: the consumer already sees the producer's fresh value
    assert_eq!(rack.out(0), 3 * FP_ONE / 4);
    assert_eq!(rack.out(1), 3 * FP_ONE / 4);
}

#[test]
fn consumer_before_producer_sees_previous_tick_value() {
    let def = level_definition();
    let units = vec![
        ("consumer".to_string(), Module::Buf(Buf { in_value: Sig::Out(1), out: 0 })),
        ("producer".to_string(), Module::Buf(Buf { in_value: Sig::Param(0), out: 0 })),
    ];
    let mut rack = Rack::new(def, units).unwrap();
    let mut input = rack.new_input();
    input.values[0] = FieldValue::Float(3 * FP_ONE / 4);
    rack.update(&input);
    // first tick: the consumer saw the producer's value from before the tick
    assert_eq!(rack.out(1), 3 * FP_ONE / 4);
    assert_eq!(rack.out(0), 0);
    rack.update(&input);
    // second tick: the value from the first tick arrives, one tick late
    assert_eq!(rack.out(0), 3 * FP_ONE / 4);
}

#[test]
fn signal_expressions_combine_values() {
    let mut def = StateDefinition::new();
    def.define_field("x".to_string(), FieldAccessor::Float, FieldValue::Float(FP_ONE / 2))
        .unwrap();
    def.define_field("on".to_string(), FieldAccessor::Bool, FieldValue::Bool(true))
        .unwrap();
    let units = vec![(
        "mix".to_string(),
        Module::Buf(Buf {
            in_value: Sig::IfBool(
                rustsynth::module::BoolSig::Param(1),
                Box::new(Sig::Add(
                    Box::new(Sig::Mul(Box::new(Sig::Param(0)), Box::new(Sig::Const(FP_ONE / 2)))),
                    Box::new(Sig::Const(FP_ONE / 8)),
                )),
                Box::new(Sig::Const(0)),
            ),
            out: 0,
        }),
    )];
    let mut rack = Rack::new(def, units).unwrap();
    let mut input = rack.new_input();
    rack.update(&input);
    // 0.5 * 0.5 + 0.125 = 0.375
    assert_eq!(rack.out(0), 3 * FP_ONE / 8);
    input.values[1] = FieldValue::Bool(false);
    rack.update(&input);
    assert_eq!(rack.out(0), 0);
}

#[test]
fn builder_rejects_out_of_range_sources() {
    let def = level_definition();
    let units = vec![(
        "bad".to_string(),
        Module::Buf(Buf { in_value: Sig::Param(7), out: 0 }),
    )];
    assert!(Rack::new(def, units).is_err());
    let def = level_definition();
    let units = vec![(
        "bad".to_string(),
        Module::Buf(Buf { in_value: Sig::Out(1), out: 0 }),
    )];
    assert!(Rack::new(def, units).is_err());
}

#[test]
fn find_locates_units_by_name() {
    let def = level_definition();
    let units = vec![
        ("one".to_string(), Module::Buf(Buf { in_value: Sig::Const(0), out: 0 })),
        ("two".to_string(), Module::Buf(Buf { in_value: Sig::Const(0), out: 0 })),
    ];
    let rack = Rack::new(def, units).unwrap();
    assert_eq!(rack.find("two"), Some(1));
    assert_eq!(rack.find("three"), None);
    assert_eq!(rack.len(), 2);
}

#[test]
fn render_duplicates_samples_across_channels() {
    let def = level_definition();
    let units = vec![(
        "src".to_string(),
        Module::Buf(Buf { in_value: Sig::Param(0), out: 0 }),
    )];
    let mut rack = Rack::new(def, units).unwrap();
    let mut input = rack.new_input();
    input.values[0] = FieldValue::Float(FP_ONE / 4);
    let buffer = rack.render(&input, 4, 0);
    assert_eq!(buffer.len(), 8);
    for frame in buffer.chunks(2) {
        assert_eq!(frame[0], frame[1]);
        assert_eq!(frame[0], FP_ONE / 4);
    }
}
