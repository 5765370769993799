use midi_patch_config::config_value::{ConfigFloat, ConfigTable, ConfigValue};
use midi_patch_config::patch_builder::{ParamDefault, ParamType, SoundParams, KnobGroup, KnobLabel, NUM_PATCH_SLOTS};
use midi_patch_config::sounds::{OscillatorType, TwoOscMixParams, DECLARED_VOLUME_BITS, DEFAULT_VOLUME_BITS};
use midi_patch_config::text::same_text;

fn table(entries: Vec<(&str, ConfigValue)>) -> ConfigTable {
    ConfigTable { entries: entries.into_iter().map(|(k, v)| (k.to_string(), v)).collect() }
}

#[test]
fn oscillator_names() {
    assert_eq!(OscillatorType::from_string("saw"), OscillatorType::Saw);
    assert_eq!(OscillatorType::from_string("triangle"), OscillatorType::Triangle);
    assert_eq!(OscillatorType::from_string("sine"), OscillatorType::Sine);
    assert_eq!(OscillatorType::from_string("pulse"), OscillatorType::Pulse);
    assert_eq!(OscillatorType::from_string("square"), OscillatorType::Square);
    assert_eq!(OscillatorType::from_string("Saw"), OscillatorType::Silent);
    assert_eq!(OscillatorType::from_string("None"), OscillatorType::Silent);
}

#[test]
fn volume_constants() {
    assert_eq!(f64::from_bits(DEFAULT_VOLUME_BITS), 0.8);
    assert_eq!(f64::from_bits(DECLARED_VOLUME_BITS), 0.5);
    assert_eq!(NUM_PATCH_SLOTS, 2usize.pow(7));
}

#[test]
fn two_osc_settings_from_table() {
    let t = table(vec![
        ("osc1", ConfigValue::Text("pulse".to_string())),
        ("osc2", ConfigValue::Integer(3)),
        ("volume", ConfigValue::Float(ConfigFloat { bits: 0.3f64.to_bits(), as_f32_bits: 0, as_unit_f32_bits: 0, as_usize: 0 })),
    ]);
    let p = TwoOscMixParams::from_table(&t);
    assert_eq!(p.oscillator_type_1, OscillatorType::Pulse);
    assert_eq!(p.oscillator_type_2, OscillatorType::Silent);
    assert_eq!(f64::from_bits(p.dummy), 0.3);
    let p = TwoOscMixParams::from_table(&ConfigTable::new());
    assert_eq!(f64::from_bits(p.dummy), 0.8);
    let p = midi_patch_config::midi_fundsp_sounds::TwoOscMixParams::from_table(&table(vec![("volume", ConfigValue::Integer(1))]));
    assert_eq!(f64::from_bits(p.dummy), 0.8);
}

#[test]
fn declared_parameters() {
    for info in [TwoOscMixParams::param_info(), midi_patch_config::midi_fundsp_sounds::TwoOscMixParams::param_info()] {
        assert_eq!(info.len(), 1);
        assert_eq!(info[0].name, "volume");
        assert_eq!(info[0].param_type, ParamType::Float);
        assert!(matches!(info[0].default, ParamDefault::Float(b) if f64::from_bits(b) == 0.5));
    }
}

#[test]
fn knob_labels_and_text() {
    let l = KnobLabel { group: KnobGroup::Effect, index: 1, label: "mix".to_string() };
    assert_eq!(l.group, KnobGroup::Effect);
    assert!(same_text("abc", "abc"));
    assert!(!same_text("abc", "abd"));
    assert!(!same_text("ab", "abc"));
    let t = table(vec![("a", ConfigValue::Integer(1)), ("a", ConfigValue::Integer(2))]);
    assert!(matches!(t.get("a"), Some(ConfigValue::Integer(1))));
    assert!(t.get("b").is_none());
}
