# midi_patch_config

The configuration logic of a MIDI synthesizer, verified with Verus.

- `src/config_value.rs`: TOML values as the logic reads them.
- `src/names.rs`, `src/text.rs`: names in lists, and text comparison.
- `src/config_builder.rs`: global settings, merging program files, resolving
  programs against the registered sounds and tunings, and ordering a patch
  table by a list of names (with its laws).
- `src/params.rs`: parameters, lookup by name, configuration overrides and
  knob mappings; oscillator and polarity names.
- `src/effects_building.rs`: the plan of an effect chain.
- `src/patch_builder.rs`, `src/sounds.rs`, `src/midi_fundsp_sounds.rs`:
  what sounds declare and read from their settings.
- `app/`: file loading (serde, toml), float-valued reads, and fundsp
  oscillators.
