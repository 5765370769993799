//! What a sound declares about its parameters, and the knob labels of a patch.

use vstd::prelude::*;
use crate::config_value::ConfigTable;

verus! {

/// The kind of a sound parameter.
#[derive(Debug, Clone, Copy, PartialEq, Eq, Structural)]
pub enum ParamType {
    Float,
    Int,
    String,
}

/// The default value of a sound parameter. A float is held as the bit
/// pattern of its `f64`.
#[derive(Debug, Clone, Copy)]
pub enum ParamDefault {
    Float(u64),
    Int(i64),
    String(&'static str),
}

/// A sound parameter: its name, kind and default.
#[derive(Debug, Clone, Copy)]
pub struct ParamInfo {
    pub name: &'static str,
    pub param_type: ParamType,
    pub default: ParamDefault,
}

/// The parameters of a sound: read from the program's settings, and
/// described for the user.
pub trait SoundParams: Sized {
    /// The parameters that the program's `config` table gives.
    fn from_table(table: &ConfigTable) -> Self;

    /// The parameters that this sound declares.
    fn param_info() -> &'static [ParamInfo];
}

/// Which part of a patch a knob drives.
#[derive(Debug, Clone, Copy, PartialEq, Eq, Structural)]
pub enum KnobGroup {
    Sound,
    Effect,
}

/// The label of a knob.
#[derive(Debug, Clone)]
pub struct KnobLabel {
    pub group: KnobGroup,
    /// The knob, counted from 1.
    pub index: usize,
    pub label: String,
}

/// The number of program slots of a patch table (the MIDI program numbers).
pub const NUM_PATCH_SLOTS: usize = 128;

} // verus!
