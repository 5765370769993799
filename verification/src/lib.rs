//! Configuration logic of a MIDI synthesizer: patch tables, parameter
//! overrides, effect-chain plans and global settings.

pub mod config_builder;
pub mod config_value;
pub mod effects_building;
pub mod midi_fundsp_sounds;
pub mod names;
pub mod params;
pub mod patch_builder;
pub mod sounds;
pub mod text;
