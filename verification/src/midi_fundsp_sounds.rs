//! The settings of a sound of the community patches.

use vstd::prelude::*;
use crate::config_value::ConfigTable;
use crate::patch_builder::{ParamDefault, ParamInfo, ParamType, SoundParams};
use crate::sounds::{float_from, float_setting, DECLARED_VOLUME_BITS, DEFAULT_VOLUME_BITS};

verus! {

/// The settings of the sound: its volume.
#[derive(Debug, Clone, Copy)]
pub struct TwoOscMixParams {
    /// The volume, as the bit pattern of its `f64`.
    pub dummy: u64,
}

impl SoundParams for TwoOscMixParams {
    /// Reads `volume`.
    fn from_table(table: &ConfigTable) -> (p: Self)
        ensures
            p.dummy == float_setting(*table, "volume"@, DEFAULT_VOLUME_BITS),
    {
        TwoOscMixParams { dummy: float_from(table, "volume", DEFAULT_VOLUME_BITS) }
    }

    /// The sound declares one parameter: the float `volume`.
    fn param_info() -> (info: &'static [ParamInfo])
        ensures
            info@.len() == 1,
            info@[0].name@ == "volume"@,
            info@[0].param_type == ParamType::Float,
            info@[0].default matches ParamDefault::Float(b) && b == DECLARED_VOLUME_BITS,
    {
        &[ParamInfo { name: "volume", param_type: ParamType::Float, default: ParamDefault::Float(DECLARED_VOLUME_BITS) }]
    }
}

} // verus!
