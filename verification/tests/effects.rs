use midi_patch_config::config_builder::TomlEffectSection;
use midi_patch_config::config_value::{ConfigFloat, ConfigTable, ConfigValue};
use midi_patch_config::effects_building::{FxChainError, FxChainPlan};
use midi_patch_config::params::{CcParam, NonCcParam, ParamType, Parameterized};

fn table(entries: Vec<(&str, ConfigValue)>) -> ConfigTable {
    ConfigTable { entries: entries.into_iter().map(|(k, v)| (k.to_string(), v)).collect() }
}

fn float(x: f64) -> ConfigValue {
    ConfigValue::Float(ConfigFloat {
        bits: x.to_bits(),
        as_f32_bits: (x as f32).to_bits(),
        as_unit_f32_bits: (x.clamp(0.0, 1.0) as f32).to_bits(),
        as_usize: x as usize,
    })
}

fn registry() -> Vec<Parameterized> {
    vec![
        Parameterized {
            name: "delay",
            cc_params: Some(vec![
                CcParam { value: ParamType::Float(0), cc_index: 0, name: "time" },
                CcParam { value: ParamType::ZeroToOneFloat(0), cc_index: 1, name: "mix" },
                CcParam { value: ParamType::Int(0), cc_index: 2, name: "taps" },
            ]),
            non_cc_params: Some(vec![NonCcParam { value: ParamType::Int(4), name: "voices" }]),
        },
        Parameterized { name: "reverb", cc_params: None, non_cc_params: None },
    ]
}

fn chain(names: &[&str], extras: ConfigTable) -> TomlEffectSection {
    TomlEffectSection { chain: names.iter().map(|s| s.to_string()).collect(), extras }
}

#[test]
fn no_effect_section_gives_an_empty_chain() {
    let plan = FxChainPlan::new(&registry(), None).unwrap();
    assert!(plan.effect_indices.is_empty());
    assert!(plan.definitions.is_none());
    assert!(plan.fx_names.is_none());
}

#[test]
fn chain_resolves_registered_effects() {
    let section = chain(&["reverb", "delay"], ConfigTable::new());
    let plan = FxChainPlan::new(&registry(), Some(&section)).unwrap();
    assert_eq!(plan.effect_indices, vec![1, 0]);
    assert_eq!(plan.fx_names.unwrap(), vec!["reverb".to_string(), "delay".to_string()]);
    let defs = plan.definitions.unwrap();
    assert_eq!(defs[1].name, "delay");
    assert_eq!(defs[1].cc_params.as_ref().unwrap()[2].cc_index, 2);
}

#[test]
fn unknown_effect_is_refused() {
    let section = chain(&["delay", "flanger", "chorus"], ConfigTable::new());
    match FxChainPlan::new(&registry(), Some(&section)) {
        Err(FxChainError::UnknownEffect(n)) => assert_eq!(n, "flanger"),
        Ok(_) => panic!("expected an unknown effect"),
    }
}

#[test]
fn effect_settings_override_every_knob_parameter() {
    let delay_cfg = table(vec![
        ("delay", float(1.5)),
        ("mapping", ConfigValue::Table(table(vec![("delay", ConfigValue::Integer(9))]))),
    ]);
    let section = chain(&["delay"], table(vec![("delay", ConfigValue::Table(delay_cfg))]));
    let plan = FxChainPlan::new(&registry(), Some(&section)).unwrap();
    let defs = plan.definitions.unwrap();
    let cc = defs[0].cc_params.as_ref().unwrap();
    assert!(cc.iter().all(|p| p.cc_index == 9));
    assert!(matches!(cc[0].value, ParamType::Float(b) if b == 1.5f32.to_bits()));
    assert!(matches!(cc[1].value, ParamType::ZeroToOneFloat(b) if b == 1.0f32.to_bits()));
    assert!(matches!(cc[2].value, ParamType::Int(1)));
    assert!(matches!(defs[0].non_cc_params.as_ref().unwrap()[0].value, ParamType::Int(4)));
}

#[test]
fn non_table_effect_settings_change_nothing() {
    let section = chain(&["delay"], table(vec![("delay", ConfigValue::Integer(3))]));
    let plan = FxChainPlan::new(&registry(), Some(&section)).unwrap();
    let defs = plan.definitions.unwrap();
    let cc = defs[0].cc_params.as_ref().unwrap();
    assert_eq!(cc[0].cc_index, 0);
    assert!(matches!(cc[0].value, ParamType::Float(0)));
}
