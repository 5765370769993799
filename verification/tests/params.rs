use midi_patch_config::config_value::{ConfigFloat, ConfigTable, ConfigValue};
use midi_patch_config::params::{
    apply_toml_mapping, apply_toml_values_overrides, override_value, CcParam, NonCcParam,
    OscillatorType, ParamError, ParamType, Parameterized, Polarity,
};

fn table(entries: Vec<(&str, ConfigValue)>) -> ConfigTable {
    ConfigTable { entries: entries.into_iter().map(|(k, v)| (k.to_string(), v)).collect() }
}

fn float(x: f64) -> ConfigValue {
    ConfigValue::Float(ConfigFloat {
        bits: x.to_bits(),
        as_f32_bits: (x as f32).to_bits(),
        as_unit_f32_bits: (x.clamp(0.0, 1.0) as f32).to_bits(),
        as_usize: x as usize,
    })
}

fn sample() -> Parameterized {
    Parameterized {
        name: "reverb",
        cc_params: Some(vec![
            CcParam { value: ParamType::ZeroToOneFloat(0.5f32.to_bits()), cc_index: 1, name: "mix" },
            CcParam { value: ParamType::Int(3), cc_index: 2, name: "size" },
        ]),
        non_cc_params: Some(vec![
            NonCcParam { value: ParamType::String("saw".to_string()), name: "osc" },
            NonCcParam { value: ParamType::Int(7), name: "taps" },
            NonCcParam { value: ParamType::String("Triangle".to_string()), name: "osc2" },
            NonCcParam { value: ParamType::String("zigzag".to_string()), name: "osc3" },
        ]),
    }
}

#[test]
fn cc_param_lookup() {
    let p = sample();
    let found = p.get_cc_param("size").unwrap();
    assert_eq!(found.cc_index, 2);
    match p.get_cc_param("nope") {
        Err(ParamError::CcParamNotFound(n)) => assert_eq!(n, "nope"),
        _ => panic!("expected a missing parameter"),
    }
    let empty = Parameterized { name: "x", cc_params: None, non_cc_params: None };
    assert!(matches!(empty.get_cc_param("size"), Err(ParamError::CcParamNotFound(_))));
}

#[test]
fn non_cc_param_lookup() {
    let p = sample();
    assert_eq!(p.get_non_cc_param("taps").unwrap().name, "taps");
    match p.get_non_cc_param("mix") {
        Err(ParamError::NonCcParamNotFound(n)) => assert_eq!(n, "mix"),
        _ => panic!("expected a missing parameter"),
    }
}

#[test]
fn oscillator_lookup() {
    let p = sample();
    assert_eq!(p.get_osc_type("osc").unwrap(), OscillatorType::Saw);
    assert_eq!(p.get_osc_type("osc2").unwrap(), OscillatorType::Triangle);
    assert!(matches!(p.get_osc_type("missing"), Err(ParamError::ParameterNotFound)));
    match p.get_osc_type("taps") {
        Err(ParamError::InvalidOscillator(m)) => {
            assert_eq!(m, "parameter is not a string, cannot convert to oscillator type")
        },
        _ => panic!("expected a refused oscillator"),
    }
    match p.get_osc_type("osc3") {
        Err(ParamError::InvalidOscillator(m)) => assert_eq!(m, "unknown oscillator type"),
        _ => panic!("expected an unknown oscillator"),
    }
}

#[test]
fn oscillator_names_in_any_case() {
    assert_eq!(OscillatorType::parse("SAW"), Ok(OscillatorType::Saw));
    assert_eq!(OscillatorType::parse("Square"), Ok(OscillatorType::Square));
    assert_eq!(OscillatorType::parse("none"), Ok(OscillatorType::Silent));
    assert_eq!(OscillatorType::parse("PuLsE"), Ok(OscillatorType::Pulse));
    assert_eq!(OscillatorType::parse("sinus"), Err("unknown oscillator type"));
    assert_eq!("Sine".parse::<OscillatorType>(), Ok(OscillatorType::Sine));
    assert_eq!(OscillatorType::from_lowercase("Saw"), Err("unknown oscillator type"));
    assert_eq!(
        ParamType::Int(1).as_oscillator_type(),
        Err("parameter is not a string, cannot convert to oscillator type")
    );
}

#[test]
fn polarity_names_in_any_case() {
    assert_eq!(Polarity::parse("Positive"), Some(Polarity::Positive));
    assert_eq!(Polarity::parse("NEGATIVE"), Some(Polarity::Negative));
    assert_eq!(Polarity::parse("neutral"), None);
    assert_eq!(Polarity::from_lowercase("Positive"), None);
}

fn same(a: &ParamType, b: &ParamType) -> bool {
    match (a, b) {
        (ParamType::Float(x), ParamType::Float(y)) => x == y,
        (ParamType::ZeroToOneFloat(x), ParamType::ZeroToOneFloat(y)) => x == y,
        (ParamType::Int(x), ParamType::Int(y)) => x == y,
        (ParamType::String(x), ParamType::String(y)) => x == y,
        _ => false,
    }
}

#[test]
fn override_rules_by_kind() {
    let f = float(2.75);
    assert!(same(&override_value(&ParamType::Float(0), &f), &ParamType::Float(2.75f32.to_bits())));
    assert!(same(&override_value(&ParamType::ZeroToOneFloat(0), &f), &ParamType::ZeroToOneFloat(2.75f32.to_bits())));
    assert!(same(&override_value(&ParamType::Int(0), &f), &ParamType::Int(2)));
    assert!(same(&override_value(&ParamType::Int(0), &ConfigValue::Integer(9)), &ParamType::Int(9)));
    assert!(same(&override_value(&ParamType::Float(5), &ConfigValue::Integer(9)), &ParamType::Float(5)));
    assert!(same(
        &override_value(&ParamType::String("a".to_string()), &ConfigValue::Text("b".to_string())),
        &ParamType::String("b".to_string())
    ));
    assert!(same(&override_value(&ParamType::String("a".to_string()), &f), &ParamType::String("a".to_string())));
    assert!(same(&override_value(&ParamType::Int(4), &ConfigValue::Boolean(true)), &ParamType::Int(4)));
}

#[test]
fn values_override_by_name() {
    let mut params = sample().non_cc_params.unwrap();
    let overrides = table(vec![("taps", ConfigValue::Integer(12)), ("osc", ConfigValue::Text("pulse".to_string()))]);
    apply_toml_values_overrides(&mut params, &overrides);
    assert!(same(&params[0].value, &ParamType::String("pulse".to_string())));
    assert!(same(&params[1].value, &ParamType::Int(12)));
    assert!(same(&params[2].value, &ParamType::String("Triangle".to_string())));
}

#[test]
fn knob_mapping_moves_cc_indices() {
    let mut p = sample();
    let mapping = table(vec![("mix", ConfigValue::Integer(5)), ("size", ConfigValue::Text("x".to_string()))]);
    apply_toml_mapping(&mut p, &mapping);
    let cc = p.cc_params.unwrap();
    assert_eq!(cc[0].cc_index, 5);
    assert_eq!(cc[1].cc_index, 2);
}

#[test]
fn overrides_then_mapping() {
    let mut p = sample();
    let config = table(vec![("mix", float(0.25)), ("taps", ConfigValue::Integer(1))]);
    let mapping = table(vec![("size", ConfigValue::Integer(8))]);
    p.apply_toml_overrides(Some(&config), Some(&mapping));
    let cc = p.cc_params.clone().unwrap();
    assert!(same(&cc[0].value, &ParamType::ZeroToOneFloat(0.25f32.to_bits())));
    assert_eq!(cc[1].cc_index, 8);
    let non_cc = p.non_cc_params.clone().unwrap();
    assert!(same(&non_cc[1].value, &ParamType::Int(1)));
    let before = format!("{:?}", p);
    p.apply_toml_overrides(Some(&config), Some(&mapping));
    assert_eq!(format!("{:?}", p), before);
}

#[test]
fn negative_knob_index_wraps() {
    let mut p = sample();
    let mapping = table(vec![("mix", ConfigValue::Integer(-1))]);
    apply_toml_mapping(&mut p, &mapping);
    assert_eq!(p.cc_params.unwrap()[0].cc_index, usize::MAX);
}

#[test]
fn override_keeps_the_kind_of_parameter() {
    let values = vec![
        ConfigValue::Integer(3),
        float(0.5),
        ConfigValue::Text("t".to_string()),
        ConfigValue::Boolean(false),
    ];
    for v in &values {
        assert!(matches!(override_value(&ParamType::Float(1), v), ParamType::Float(_)));
        assert!(matches!(override_value(&ParamType::ZeroToOneFloat(1), v), ParamType::ZeroToOneFloat(_)));
        assert!(matches!(override_value(&ParamType::Int(1), v), ParamType::Int(_)));
        assert!(matches!(override_value(&ParamType::String("s".to_string()), v), ParamType::String(_)));
    }
}

#[test]
fn error_messages() {
    assert_eq!(ParamError::CcParamNotFound("mix".to_string()).message(), "CC-Parameter mix not found");
    assert_eq!(ParamError::NonCcParamNotFound("osc".to_string()).message(), "Non-CC-Parameter osc not found");
    assert_eq!(ParamError::ParameterNotFound.message(), "parameter not found");
    assert_eq!(ParamError::InvalidOscillator("unknown oscillator type").message(), "unknown oscillator type");
}

#[test]
fn initial_knob_sources() {
    let p = Parameterized {
        name: "x",
        cc_params: Some(vec![
            CcParam { value: ParamType::Float(0), cc_index: 2, name: "a" },
            CcParam { value: ParamType::Int(1), cc_index: 0, name: "b" },
            CcParam { value: ParamType::ZeroToOneFloat(0), cc_index: 2, name: "c" },
        ]),
        non_cc_params: None,
    };
    assert_eq!(p.initial_cc_sources(4), Some(vec![Some(1), None, Some(2), None]));
    assert_eq!(p.initial_cc_sources(2), None);
    let text = Parameterized {
        name: "t",
        cc_params: Some(vec![CcParam { value: ParamType::String("s".to_string()), cc_index: 0, name: "s" }]),
        non_cc_params: None,
    };
    assert_eq!(text.initial_cc_sources(4), None);
    let none = Parameterized { name: "n", cc_params: None, non_cc_params: None };
    assert_eq!(none.initial_cc_sources(2), Some(vec![None, None]));
}
