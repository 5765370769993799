use midi_patch_config::config_builder::{
    kept_programs_of, resolve_programs, ResolvedProgram, to_patch_def, ProgramMerger, ProgramResolution, TomlPatchDef, TomlProgram,
    TuningChoice,
};
use midi_patch_config::config_value::ConfigTable;

fn program(function: &str, name: Option<&str>, tuning: Option<&str>) -> TomlProgram {
    TomlProgram {
        function: function.to_string(),
        name: name.map(|s| s.to_string()),
        tuning: tuning.map(|s| s.to_string()),
        config: ConfigTable::new(),
        effects: None,
    }
}

fn def(function: &str, name: &str, tuning: Option<&str>) -> TomlPatchDef {
    to_patch_def(program(function, Some(name), tuning))
}

#[test]
fn display_name_defaults_to_the_function() {
    let d = to_patch_def(program("saw_synth", None, None));
    assert_eq!(d.name, "saw_synth");
    assert_eq!(d.function, "saw_synth");
    assert!(d.config.is_some());
    let d = to_patch_def(program("saw_synth", Some("Warm Saw"), Some("just")));
    assert_eq!(d.name, "Warm Saw");
    assert_eq!(d.tuning.as_deref(), Some("just"));
}

#[test]
fn merger_keeps_programs_in_file_order() {
    let mut m = ProgramMerger::new();
    m.add_programs(vec![program("a", None, None), program("b", Some("B"), None)]);
    m.add_programs(vec![program("c", None, None)]);
    let names: Vec<String> = m.into_programs().into_iter().map(|d| d.name).collect();
    assert_eq!(names, vec!["a", "B", "c"]);
}

#[test]
fn later_program_of_a_name_replaces_the_earlier() {
    let mut m = ProgramMerger::new();
    m.add_programs(vec![program("old_fn", Some("Pad"), Some("just")), program("x", None, None)]);
    m.add_programs(vec![program("y", None, None), program("new_fn", Some("Pad"), None)]);
    let defs = m.into_programs();
    let names: Vec<&str> = defs.iter().map(|d| d.name.as_str()).collect();
    assert_eq!(names, vec!["Pad", "x", "y"]);
    assert_eq!(defs[0].function, "new_fn");
    assert!(defs[0].tuning.is_none());
}

#[test]
fn duplicate_names_within_one_file_merge() {
    let mut m = ProgramMerger::new();
    m.add_programs(vec![program("same", None, None), program("other", Some("same"), Some("t"))]);
    let defs = m.into_programs();
    assert_eq!(defs.len(), 1);
    assert_eq!(defs[0].function, "other");
    assert_eq!(defs[0].tuning.as_deref(), Some("t"));
}

#[test]
fn programs_resolve_against_the_registries() {
    let programs = vec![
        def("saw", "A", None),
        def("missing", "B", None),
        def("sine", "C", Some("just")),
        def("saw", "D", Some("unknown")),
    ];
    let sounds = vec!["saw".to_string(), "sine".to_string(), "saw".to_string()];
    let tunings = vec!["just".to_string()];
    let plan = resolve_programs(&programs, &sounds, &tunings);
    assert_eq!(
        plan,
        vec![
            ProgramResolution::Resolved { sound: 2, tuning: TuningChoice::Default },
            ProgramResolution::Skipped,
            ProgramResolution::Resolved { sound: 1, tuning: TuningChoice::Named(0) },
            ProgramResolution::Resolved { sound: 2, tuning: TuningChoice::UnknownDefault },
        ]
    );
}

#[test]
fn only_resolved_programs_are_kept() {
    let plan = vec![
        ProgramResolution::Skipped,
        ProgramResolution::Resolved { sound: 4, tuning: TuningChoice::Named(1) },
        ProgramResolution::Skipped,
        ProgramResolution::Resolved { sound: 0, tuning: TuningChoice::UnknownDefault },
    ];
    assert_eq!(
        kept_programs_of(&plan),
        vec![
            ResolvedProgram { program: 1, sound: 4, tuning: TuningChoice::Named(1) },
            ResolvedProgram { program: 3, sound: 0, tuning: TuningChoice::UnknownDefault },
        ]
    );
}
