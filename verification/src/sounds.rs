//! A two-oscillator sound: its oscillator shapes and its settings.

use vstd::prelude::*;
use crate::config_value::{ConfigTable, ConfigValue};
use crate::patch_builder::{ParamDefault, ParamInfo, ParamType, SoundParams};
use crate::text::same_text;

verus! {

/// The oscillator shapes of the sound.
#[derive(Debug, Clone, Copy, PartialEq, Eq, Structural)]
pub enum OscillatorType {
    Saw,
    Triangle,
    Sine,
    Pulse,
    Square,
    /// No oscillator: silence. Any unknown name gives it.
    Silent,
}

/// The oscillator that a name stands for (names are compared exactly).
pub open spec fn oscillator_of_name(s: Seq<char>) -> OscillatorType {
    if s == "saw"@ {
        OscillatorType::Saw
    } else if s == "triangle"@ {
        OscillatorType::Triangle
    } else if s == "sine"@ {
        OscillatorType::Sine
    } else if s == "pulse"@ {
        OscillatorType::Pulse
    } else if s == "square"@ {
        OscillatorType::Square
    } else {
        OscillatorType::Silent
    }
}

impl OscillatorType {
    /// The oscillator that the name `s` stands for.
    pub fn from_string(s: &str) -> (osc: OscillatorType)
        ensures
            osc == oscillator_of_name(s@),
    {
        if same_text(s, "saw") {
            OscillatorType::Saw
        } else if same_text(s, "triangle") {
            OscillatorType::Triangle
        } else if same_text(s, "sine") {
            OscillatorType::Sine
        } else if same_text(s, "pulse") {
            OscillatorType::Pulse
        } else if same_text(s, "square") {
            OscillatorType::Square
        } else {
            OscillatorType::Silent
        }
    }
}

/// The bit pattern of the `f64` 0.8, the volume where the settings give none.
pub const DEFAULT_VOLUME_BITS: u64 = 0x3FE9_9999_9999_999A;

/// The bit pattern of the `f64` 0.5, the declared default of the volume.
pub const DECLARED_VOLUME_BITS: u64 = 0x3FE0_0000_0000_0000;

/// The settings of the two-oscillator sound.
#[derive(Debug, Clone, Copy)]
pub struct TwoOscMixParams {
    /// The volume, as the bit pattern of its `f64`.
    pub dummy: u64,
    pub oscillator_type_1: OscillatorType,
    pub oscillator_type_2: OscillatorType,
}

/// The oscillator that the text under `key` names; silence where there is none.
pub open spec fn oscillator_setting(table: ConfigTable, key: Seq<char>) -> OscillatorType {
    match table.lookup(key) {
        Some(v) => match v.spec_text() {
            Some(s) => oscillator_of_name(s),
            None => oscillator_of_name("None"@),
        },
        None => oscillator_of_name("None"@),
    }
}

/// The bit pattern of the float under `key`; `default` where there is none.
pub open spec fn float_setting(table: ConfigTable, key: Seq<char>, default: u64) -> u64 {
    match table.lookup(key) {
        Some(v) => match v.spec_float() {
            Some(f) => f.bits,
            None => default,
        },
        None => default,
    }
}

/// A float setting is the bits of the float under its key, and the default
/// where the key is missing or holds no float.
pub proof fn lemma_float_setting(table: ConfigTable, key: Seq<char>, default: u64)
    ensures
        table.lookup(key) matches Some(ConfigValue::Float(f)) ==> float_setting(table, key, default) == f.bits,
        !(table.lookup(key) matches Some(ConfigValue::Float(_))) ==> float_setting(table, key, default)
            == default,
{
}

/// An oscillator setting is the oscillator that the text under its key
/// names, and silence where the key is missing or holds no text.
pub proof fn lemma_oscillator_setting(table: ConfigTable, key: Seq<char>)
    ensures
        table.lookup(key) matches Some(ConfigValue::Text(s)) ==> oscillator_setting(table, key)
            == oscillator_of_name(s@),
        !(table.lookup(key) matches Some(ConfigValue::Text(_))) ==> oscillator_setting(table, key)
            == OscillatorType::Silent,
{
    reveal_strlit("None");
    reveal_strlit("saw");
    reveal_strlit("triangle");
    reveal_strlit("sine");
    reveal_strlit("pulse");
    reveal_strlit("square");
    assert("None"@[0] != "saw"@[0]);
    assert("None"@[0] != "triangle"@[0]);
    assert("None"@[0] != "sine"@[0]);
    assert("None"@[0] != "pulse"@[0]);
    assert("None"@[0] != "square"@[0]);
    assert(oscillator_of_name("None"@) == OscillatorType::Silent);
}

/// Each oscillator but silence has exactly one name, and every other name
/// gives silence.
pub proof fn lemma_oscillator_names(s: Seq<char>, t: Seq<char>)
    ensures
        oscillator_of_name(s) == oscillator_of_name(t) && oscillator_of_name(s) != OscillatorType::Silent
            ==> s == t,
{
}

/// The oscillator named under `key`.
fn oscillator_from(table: &ConfigTable, key: &str) -> (osc: OscillatorType)
    ensures
        osc == oscillator_setting(*table, key@),
{
    let name: &str = match table.get(key) {
        Some(v) => match v.as_str() {
            Some(s) => s,
            None => "None",
        },
        None => "None",
    };
    OscillatorType::from_string(name)
}

/// The bit pattern of the float under `key`, or `default`.
pub(crate) fn float_from(table: &ConfigTable, key: &str, default: u64) -> (bits: u64)
    ensures
        bits == float_setting(*table, key@, default),
{
    match table.get(key) {
        Some(v) => match v.as_float() {
            Some(f) => f.bits,
            None => default,
        },
        None => default,
    }
}

impl SoundParams for TwoOscMixParams {
    /// Reads `volume`, `osc1` and `osc2`.
    fn from_table(table: &ConfigTable) -> (p: Self)
        ensures
            p.dummy == float_setting(*table, "volume"@, DEFAULT_VOLUME_BITS),
            p.oscillator_type_1 == oscillator_setting(*table, "osc1"@),
            p.oscillator_type_2 == oscillator_setting(*table, "osc2"@),
    {
        TwoOscMixParams {
            dummy: float_from(table, "volume", DEFAULT_VOLUME_BITS),
            oscillator_type_1: oscillator_from(table, "osc1"),
            oscillator_type_2: oscillator_from(table, "osc2"),
        }
    }

    /// The sound declares one parameter: the float `volume`.
    fn param_info() -> (info: &'static [ParamInfo])
        ensures
            info@.len() == 1,
            info@[0].name@ == "volume"@,
            info@[0].param_type == ParamType::Float,
            info@[0].default matches ParamDefault::Float(b) && b == DECLARED_VOLUME_BITS,
    {
        &[ParamInfo { name: "volume", param_type: ParamType::Float, default: ParamDefault::Float(DECLARED_VOLUME_BITS) }]
    }
}

} // verus!
