//! Global settings, program merging, patch-table planning and the ordering
//! of a patch table by a list of names.

use vstd::prelude::*;
use crate::config_value::ConfigTable;
use crate::names::{last_index, last_index_of, lemma_last_index_absent, lemma_last_index_take, name_views};

verus! {

/// The `[effects]` section of a program: the chain of effect names, and the
/// other keys of the section (one table per effect, by name).
#[derive(Debug)]
pub struct TomlEffectSection {
    pub chain: Vec<String>,
    pub extras: ConfigTable,
}

/// One program as a TOML file writes it.
#[derive(Debug)]
pub struct TomlProgram {
    /// The name of the sound builder.
    pub function: String,
    /// The display name; the builder's name where it is missing.
    pub name: Option<String>,
    /// The name of the tuning.
    pub tuning: Option<String>,
    /// The sound's own settings.
    pub config: ConfigTable,
    pub effects: Option<TomlEffectSection>,
}

/// All programs of one TOML file.
#[derive(Debug)]
pub struct ProgramsFile {
    pub program: Vec<TomlProgram>,
}

/// A program with its display name settled.
#[derive(Debug)]
pub struct TomlPatchDef {
    pub function: String,
    pub name: String,
    pub tuning: Option<String>,
    pub config: Option<ConfigTable>,
    pub effects: Option<TomlEffectSection>,
}

/// The display name of a program: its name, or its builder's where it has none.
pub open spec fn display_name(p: TomlProgram) -> Seq<char> {
    match p.name {
        Some(n) => n@,
        None => p.function@,
    }
}

/// The patch definition made of a program.
pub open spec fn patch_def_of(p: TomlProgram) -> TomlPatchDef {
    TomlPatchDef {
        function: p.function,
        name: match p.name {
            Some(n) => n,
            None => p.function,
        },
        tuning: p.tuning,
        config: Some(p.config),
        effects: p.effects,
    }
}

/// The patch definition of a program keeps the program's builder, tuning,
/// settings and effect section as they are, and takes its name, or the
/// builder's name where it has none.
pub proof fn lemma_patch_def_keeps_program(p: TomlProgram)
    ensures
        patch_def_of(p).function == p.function,
        patch_def_of(p).tuning == p.tuning,
        patch_def_of(p).config == Some(p.config),
        patch_def_of(p).effects == p.effects,
        p.name matches Some(n) ==> patch_def_of(p).name == n,
        p.name is None ==> patch_def_of(p).name == p.function,
        patch_def_of(p).name@ == display_name(p),
        display_name(p) == (if p.name is Some { p.name.unwrap()@ } else { p.function@ }),
{
}

/// Turns a program into its patch definition, settling its display name.
pub fn to_patch_def(prog: TomlProgram) -> (def: TomlPatchDef)
    ensures
        def == patch_def_of(prog),
        def.name@ == display_name(prog),
        def.function == prog.function,
        def.tuning == prog.tuning,
        def.config == Some(prog.config),
        def.effects == prog.effects,
        def.name == match prog.name {
            Some(n) => n,
            None => prog.function,
        },
{
    let name = match prog.name {
        Some(n) => n,
        None => prog.function.clone(),
    };
    TomlPatchDef {
        function: prog.function,
        name,
        tuning: prog.tuning,
        config: Some(prog.config),
        effects: prog.effects,
    }
}

/// The display names of a list of patch definitions.
pub open spec fn def_names(defs: Seq<TomlPatchDef>) -> Seq<Seq<char>> {
    defs.map_values(|d: TomlPatchDef| d.name@)
}

/// The display names of a list of programs.
pub open spec fn program_names(progs: Seq<TomlProgram>) -> Seq<Seq<char>> {
    progs.map_values(|p: TomlProgram| display_name(p))
}

/// No two of `names` are equal.
pub open spec fn all_distinct(names: Seq<Seq<char>>) -> bool {
    forall|a: int, b: int| 0 <= a < names.len() && 0 <= b < names.len() && a != b ==> names[a] != names[b]
}

/// The definitions after one more: it replaces the definition of the same
/// name, in its place, or comes last where no definition has its name.
pub open spec fn merge_one(defs: Seq<TomlPatchDef>, d: TomlPatchDef) -> Seq<TomlPatchDef> {
    let i = last_index(def_names(defs), d.name@);
    if i == -1 {
        defs.push(d)
    } else {
        defs.update(i, d)
    }
}

/// The definitions after merging `progs` in order into `defs`.
pub open spec fn merged(defs: Seq<TomlPatchDef>, progs: Seq<TomlProgram>) -> Seq<TomlPatchDef>
    decreases progs.len(),
{
    if progs.len() == 0 {
        defs
    } else {
        merge_one(merged(defs, progs.drop_last()), patch_def_of(progs.last()))
    }
}

/// Programs gathered from several files: one definition per display name,
/// that of the last program of the name.
pub struct ProgramMerger {
    programs: Vec<TomlPatchDef>,
}

impl ProgramMerger {
    /// The patch definitions gathered so far.
    pub closed spec fn defs(self) -> Seq<TomlPatchDef> {
        self.programs@
    }

    /// No two gathered programs share a display name.
    pub open spec fn wf(self) -> bool {
        all_distinct(def_names(self.defs()))
    }

    /// A merger that holds no program.
    pub fn new() -> (m: ProgramMerger)
        ensures
            m.defs() == Seq::<TomlPatchDef>::empty(),
            m.wf(),
    {
        ProgramMerger { programs: Vec::new() }
    }

    /// The place of the gathered definition named `name`, if any.
    fn position_of_name(&self, name: &String) -> (found: Option<usize>)
        ensures
            match found {
                Some(i) => last_index(def_names(self.defs()), name@) == i,
                None => last_index(def_names(self.defs()), name@) == -1,
            },
    {
        let ghost names = def_names(self.defs());
        let mut found: Option<usize> = None;
        let mut i: usize = 0;
        while i < self.programs.len()
            invariant
                i <= self.programs@.len(),
                names == def_names(self.defs()),
                match found {
                    Some(k) => last_index(names.take(i as int), name@) == k,
                    None => last_index(names.take(i as int), name@) == -1,
                },
            decreases self.programs@.len() - i,
        {
            proof {
                lemma_last_index_take(names, name@, i as int);
            }
            if self.programs[i].name == *name {
                found = Some(i);
            }
            i = i + 1;
        }
        assert(names.take(self.programs@.len() as int) =~= names);
        found
    }

    /// Adds the programs of one file, in order. A program whose display name
    /// an earlier one has replaces that definition in its place; the others
    /// come last.
    #[verifier::loop_isolation(false)]
    pub fn add_programs(&mut self, batch: Vec<TomlProgram>)
        requires
            old(self).wf(),
        ensures
            final(self).wf(),
            final(self).defs() == merged(old(self).defs(), batch@),
    {
        let ghost old_defs = self.defs();
        let ghost all = batch@;
        let total = batch.len();
        let mut rest = batch;
        let mut k: usize = 0;
        while rest.len() > 0
            invariant
                total == all.len(),
                k + rest@.len() == all.len(),
                rest@ == all.skip(k as int),
                self.wf(),
                self.defs() == merged(old_defs, all.take(k as int)),
            decreases rest@.len(),
        {
            let prog = rest.remove(0);
            assert(prog == all[k as int]);
            let def = to_patch_def(prog);
            let ghost cur = self.defs();
            proof {
                assert(all.take(k + 1).drop_last() =~= all.take(k as int));
                lemma_last_index_absent(def_names(cur), def.name@);
            }
            match self.position_of_name(&def.name) {
                Some(i) => {
                    self.programs.set(i, def);
                    proof {
                        assert(def_names(self.defs()) =~= def_names(cur));
                    }
                },
                None => {
                    self.programs.push(def);
                    proof {
                        assert(def_names(self.defs()) =~= def_names(cur).push(def.name@));
                    }
                },
            }
            assert(self.defs() =~= merged(old_defs, all.take(k + 1)));
            assert(rest@ =~= all.skip(k + 1));
            k = k + 1;
        }
        assert(all.take(k as int) =~= all);
    }

    /// The gathered patch definitions.
    pub fn into_programs(self) -> (defs: Vec<TomlPatchDef>)
        ensures
            defs@ == self.defs(),
    {
        self.programs
    }
}

/// Merging programs keeps one definition per display name: each name of the
/// old definitions or of the programs occurs once, the last program of a name
/// gives its definition, the old names keep their places, and an old
/// definition whose name no program has stays as it was.
pub proof fn lemma_merge_last_wins(defs: Seq<TomlPatchDef>, progs: Seq<TomlProgram>)
    requires
        all_distinct(def_names(defs)),
    ensures
        all_distinct(def_names(merged(defs, progs))),
        merged(defs, progs).len() >= defs.len(),
        forall|n: Seq<char>|
            #[trigger] def_names(merged(defs, progs)).contains(n) <==> (def_names(defs).contains(n)
                || program_names(progs).contains(n)),
        forall|k: int|
            0 <= k < progs.len() && (forall|j: int| k < j < progs.len() ==> display_name(progs[j])
                != display_name(progs[k])) ==> #[trigger] merged(defs, progs).contains(patch_def_of(progs[k])),
        forall|j: int|
            0 <= j < defs.len() ==> #[trigger] merged(defs, progs)[j].name@ == defs[j].name@,
        forall|j: int|
            0 <= j < defs.len() && !program_names(progs).contains(defs[j].name@) ==> #[trigger] merged(
                defs,
                progs,
            )[j] == defs[j],
    decreases progs.len(),
{
    if progs.len() > 0 {
        let rest = progs.drop_last();
        let last = progs.last();
        lemma_merge_last_wins(defs, rest);
        let m1 = merged(defs, rest);
        let d = patch_def_of(last);
        let m = merged(defs, progs);
        let i = last_index(def_names(m1), d.name@);
        lemma_last_index_absent(def_names(m1), d.name@);
        assert(d.name@ == display_name(last));
        assert(program_names(rest) =~= program_names(progs).drop_last());
        assert forall|x: Seq<char>| program_names(progs).contains(x) <==> (program_names(rest).contains(x)
            || x == display_name(last)) by {
            if program_names(progs).contains(x) {
                let q = choose|q: int| 0 <= q < progs.len() && program_names(progs)[q] == x;
                if q < progs.len() - 1 {
                    assert(program_names(rest)[q] == x);
                }
            }
            if program_names(rest).contains(x) {
                let q = choose|q: int| 0 <= q < rest.len() && program_names(rest)[q] == x;
                assert(program_names(progs)[q] == x);
            }
            if x == display_name(last) {
                assert(program_names(progs)[progs.len() - 1] == x);
            }
        }
        if i == -1 {
            assert(def_names(m) =~= def_names(m1).push(d.name@));
            assert forall|a: int, b: int| 0 <= a < def_names(m).len() && 0 <= b < def_names(m).len() && a != b
                implies def_names(m)[a] != def_names(m)[b] by {
                if a < m1.len() && b < m1.len() {
                    assert(def_names(m1)[a] != def_names(m1)[b]);
                } else if a < m1.len() {
                    assert(def_names(m1)[a] == def_names(m)[a]);
                } else {
                    assert(def_names(m1)[b] == def_names(m)[b]);
                }
            }
        } else {
            assert(def_names(m) =~= def_names(m1));
        }
        assert forall|n: Seq<char>| #[trigger] def_names(m).contains(n) <==> (def_names(defs).contains(n)
            || program_names(progs).contains(n)) by {
            if i == -1 {
                if def_names(m).contains(n) && n != d.name@ {
                    let q = choose|q: int| 0 <= q < def_names(m).len() && def_names(m)[q] == n;
                    assert(def_names(m1)[q] == n);
                }
                if def_names(m1).contains(n) {
                    let q = choose|q: int| 0 <= q < def_names(m1).len() && def_names(m1)[q] == n;
                    assert(def_names(m)[q] == n);
                }
                if n == d.name@ {
                    assert(def_names(m)[m1.len() as int] == n);
                }
            } else {
                if n == d.name@ {
                    assert(def_names(m1).contains(n));
                }
            }
        }
        assert forall|k: int|
            0 <= k < progs.len() && (forall|j: int| k < j < progs.len() ==> display_name(progs[j])
                != display_name(progs[k])) implies #[trigger] m.contains(patch_def_of(progs[k])) by {
            if k == progs.len() - 1 {
                if i == -1 {
                    assert(m[m1.len() as int] == d);
                } else {
                    assert(m[i] == d);
                }
            } else {
                assert(rest[k] == progs[k]);
                assert(forall|j: int| k < j < rest.len() ==> rest[j] == progs[j]);
                assert(display_name(progs[progs.len() - 1]) != display_name(progs[k]));
                assert(m1.contains(patch_def_of(rest[k])));
                let q = choose|q: int| 0 <= q < m1.len() && m1[q] == patch_def_of(progs[k]);
                assert(def_names(m1)[q] == display_name(progs[k]));
                if i != -1 {
                    assert(def_names(m1)[i] == d.name@);
                    assert(q != i);
                }
                assert(m[q] == m1[q]);
            }
        }
        assert forall|j: int| 0 <= j < defs.len() implies #[trigger] m[j].name@ == defs[j].name@ by {
            assert(m1[j].name@ == defs[j].name@);
            if i != -1 && j == i {
                assert(def_names(m1)[i] == d.name@);
            }
        }
        assert forall|j: int| 0 <= j < defs.len() && !program_names(progs).contains(defs[j].name@) implies
            #[trigger] m[j] == defs[j] by {
            assert(!program_names(rest).contains(defs[j].name@));
            assert(m1[j] == defs[j]);
            if i != -1 && j == i {
                assert(def_names(m1)[i] == d.name@);
            }
        }
    }
}

/// How a program's tuning is chosen.
#[derive(Debug, Clone, Copy, PartialEq, Eq, Structural)]
pub enum TuningChoice {
    /// The registered tuning at this index.
    Named(usize),
    /// The program names a tuning that is not registered: the default one.
    UnknownDefault,
    /// The program names no tuning: the default one.
    Default,
}

/// What becomes of one program when the patch table is built.
#[derive(Debug, Clone, Copy, PartialEq, Eq, Structural)]
pub enum ProgramResolution {
    /// Its sound builder is not registered: the program is left out.
    Skipped,
    /// It is built with the registered sound builder at index `sound`.
    Resolved { sound: usize, tuning: TuningChoice },
}

/// What becomes of a program, given the names of the registered sound
/// builders and tunings (a name registered twice stands for its last entry).
pub open spec fn resolution_of(p: TomlPatchDef, sounds: Seq<Seq<char>>, tunings: Seq<Seq<char>>) -> ProgramResolution {
    let s = last_index(sounds, p.function@);
    if s == -1 {
        ProgramResolution::Skipped
    } else {
        ProgramResolution::Resolved {
            sound: s as usize,
            tuning: match p.tuning {
                None => TuningChoice::Default,
                Some(t) => {
                    let ti = last_index(tunings, t@);
                    if ti == -1 {
                        TuningChoice::UnknownDefault
                    } else {
                        TuningChoice::Named(ti as usize)
                    }
                },
            },
        }
    }
}

/// A program is left out exactly when no sound builder has its builder
/// name; otherwise it is built with the last builder of that name, and with
/// the last tuning of its tuning's name, the default tuning standing in where
/// it names none or an unknown one.
pub proof fn lemma_resolution_of(p: TomlPatchDef, sounds: Seq<Seq<char>>, tunings: Seq<Seq<char>>)
    requires
        sounds.len() <= usize::MAX,
        tunings.len() <= usize::MAX,
    ensures
        resolution_of(p, sounds, tunings) is Skipped <==> !sounds.contains(p.function@),
        resolution_of(p, sounds, tunings) matches ProgramResolution::Resolved { sound, tuning } ==> {
            &&& sound < sounds.len()
            &&& sounds[sound as int] == p.function@
            &&& forall|j: int| sound < j < sounds.len() ==> sounds[j] != p.function@
            &&& (tuning is Default <==> p.tuning is None)
            &&& (tuning is UnknownDefault <==> (p.tuning matches Some(t) && !tunings.contains(t@)))
            &&& tuning matches TuningChoice::Named(ti) ==> p.tuning matches Some(t) && ti < tunings.len()
                && tunings[ti as int] == t@ && forall|j: int| ti < j < tunings.len() ==> tunings[j] != t@
        },
{
    lemma_last_index_absent(sounds, p.function@);
    if let Some(t) = p.tuning {
        lemma_last_index_absent(tunings, t@);
    }
}

/// Decides, for each program in turn, which registered sound builder and
/// tuning build it, or that it is left out.
pub fn resolve_programs(programs: &Vec<TomlPatchDef>, sound_names: &Vec<String>, tuning_names: &Vec<String>) -> (plan: Vec<ProgramResolution>)
    ensures
        plan@.len() == programs@.len(),
        forall|i: int|
            0 <= i < programs@.len() ==> #[trigger] plan@[i] == resolution_of(
                programs@[i],
                name_views(sound_names@),
                name_views(tuning_names@),
            ),
{
    let mut plan: Vec<ProgramResolution> = Vec::new();
    let mut i: usize = 0;
    while i < programs.len()
        invariant
            i <= programs@.len(),
            plan@.len() == i,
            forall|j: int|
                0 <= j < i ==> #[trigger] plan@[j] == resolution_of(
                    programs@[j],
                    name_views(sound_names@),
                    name_views(tuning_names@),
                ),
        decreases programs@.len() - i,
    {
        let prog = &programs[i];
        let r = match last_index_of(sound_names, &prog.function) {
            None => ProgramResolution::Skipped,
            Some(s) => {
                let tuning = match &prog.tuning {
                    None => TuningChoice::Default,
                    Some(t) => match last_index_of(tuning_names, t) {
                        None => TuningChoice::UnknownDefault,
                        Some(ti) => TuningChoice::Named(ti),
                    },
                };
                ProgramResolution::Resolved { sound: s, tuning }
            },
        };
        plan.push(r);
        i = i + 1;
    }
    plan
}

/// A program that is built: its index among the programs, with its sound
/// builder and tuning.
#[derive(Debug, Clone, Copy, PartialEq, Eq, Structural)]
pub struct ResolvedProgram {
    pub program: usize,
    pub sound: usize,
    pub tuning: TuningChoice,
}

/// The programs among the first `k` of a plan that are built, in order.
pub open spec fn kept_programs(plan: Seq<ProgramResolution>, k: int) -> Seq<ResolvedProgram>
    decreases k,
{
    if k <= 0 {
        seq![]
    } else {
        let prev = kept_programs(plan, k - 1);
        match plan[k - 1] {
            ProgramResolution::Skipped => prev,
            ProgramResolution::Resolved { sound, tuning } => prev.push(
                ResolvedProgram { program: (k - 1) as usize, sound, tuning },
            ),
        }
    }
}

/// The built programs of a plan are exactly its resolved entries, in order:
/// each names a resolved entry with its builder and tuning, their indices
/// rise, and every resolved entry is among them.
pub proof fn lemma_kept_programs(plan: Seq<ProgramResolution>, k: int)
    requires
        0 <= k <= plan.len(),
        plan.len() <= usize::MAX,
    ensures
        forall|a: int|
            0 <= a < kept_programs(plan, k).len() ==> {
                &&& 0 <= #[trigger] kept_programs(plan, k)[a].program < k
                &&& plan[kept_programs(plan, k)[a].program as int] == ProgramResolution::Resolved {
                    sound: kept_programs(plan, k)[a].sound,
                    tuning: kept_programs(plan, k)[a].tuning,
                }
            },
        forall|a: int, b: int|
            0 <= a < b < kept_programs(plan, k).len() ==> kept_programs(plan, k)[a].program < kept_programs(
                plan,
                k,
            )[b].program,
        forall|i: int|
            0 <= i < k && #[trigger] plan[i] is Resolved ==> exists|a: int|
                0 <= a < kept_programs(plan, k).len() && kept_programs(plan, k)[a].program == i,
        kept_programs(plan, k).len() <= k,
    decreases k,
{
    if k > 0 {
        lemma_kept_programs(plan, k - 1);
        let prev = kept_programs(plan, k - 1);
        let cur = kept_programs(plan, k);
        assert forall|i: int| 0 <= i < k && #[trigger] plan[i] is Resolved implies exists|a: int|
            0 <= a < cur.len() && cur[a].program == i by {
            if i < k - 1 {
                let a = choose|a: int| 0 <= a < prev.len() && prev[a].program == i;
                assert(cur[a] == prev[a]);
            } else {
                assert(((k - 1) as usize) as int == k - 1);
                assert(cur[cur.len() - 1].program == i);
            }
        }
    }
}

/// The programs of a plan that are built, in order: those not left out.
pub fn kept_programs_of(plan: &Vec<ProgramResolution>) -> (kept: Vec<ResolvedProgram>)
    ensures
        kept@ == kept_programs(plan@, plan@.len() as int),
        forall|a: int|
            0 <= a < kept@.len() ==> {
                &&& #[trigger] kept@[a].program < plan@.len()
                &&& plan@[kept@[a].program as int] == ProgramResolution::Resolved {
                    sound: kept@[a].sound,
                    tuning: kept@[a].tuning,
                }
            },
        forall|a: int, b: int| 0 <= a < b < kept@.len() ==> kept@[a].program < kept@[b].program,
        forall|i: int|
            0 <= i < plan@.len() && #[trigger] plan@[i] is Resolved ==> exists|a: int|
                0 <= a < kept@.len() && kept@[a].program == i,
{
    let mut kept: Vec<ResolvedProgram> = Vec::new();
    let mut i: usize = 0;
    while i < plan.len()
        invariant
            i <= plan@.len(),
            kept@ == kept_programs(plan@, i as int),
        decreases plan@.len() - i,
    {
        match plan[i] {
            ProgramResolution::Skipped => {},
            ProgramResolution::Resolved { sound, tuning } => {
                kept.push(ResolvedProgram { program: i, sound, tuning });
            },
        }
        i = i + 1;
    }
    proof {
        lemma_kept_programs(plan@, plan@.len() as int);
    }
    kept
}

/// The number of encoders (knobs) of the controller.
pub const ENCODER_COUNT: usize = 8;

/// The MIDI CC number that each encoder sends.
pub type CcMapping = [usize; ENCODER_COUNT];

/// The encoder mapping used when the settings give none.
pub const DEFAULT_CC_MAPPING: CcMapping = [74, 71, 76, 77, 0, 0, 0, 0];

/// Determines the voice stealing strategy:
/// LegatoOldest: keep the envelope and steal the oldest voice;
/// LegatoLast: either the oldest or the latest voice.
#[derive(Debug, Clone, Copy, PartialEq, Eq, Structural)]
pub enum VoiceStealingConfig {
    LegatoOldest,
    LegatoLast,
}

/// Whether voices are freed by the instrument's ADSR or once silent.
/// Release on zero is a bit costlier but lets sounds with no release play better.
#[derive(Debug, Clone, Copy, PartialEq, Eq, Structural)]
pub enum FreeVoiceStrategy {
    FollowADSR,
    ReleaseOnZero,
}

/// The `[global]` section of the settings file, each key optional.
#[derive(Debug, Clone, Copy, PartialEq)]
pub struct GlobalSection {
    pub cc_mappings: Option<CcMapping>,
    pub voice_stealing: Option<VoiceStealingConfig>,
    pub voice_release: Option<FreeVoiceStrategy>,
}

impl Default for GlobalSection {
    fn default() -> (s: Self)
        ensures
            s.cc_mappings is None,
            s.voice_stealing is None,
            s.voice_release is None,
    {
        GlobalSection { cc_mappings: None, voice_stealing: None, voice_release: None }
    }
}

/// The global settings of the synthesizer.
#[derive(Debug, Clone, Copy, PartialEq)]
pub struct GlobalConfig {
    pub voice_stealing: VoiceStealingConfig,
    pub voice_release: FreeVoiceStrategy,
    pub cc_mappings: CcMapping,
}

/// The settings that hold where the settings file says nothing.
pub open spec fn default_global_config() -> GlobalConfig {
    GlobalConfig {
        voice_stealing: VoiceStealingConfig::LegatoLast,
        voice_release: FreeVoiceStrategy::ReleaseOnZero,
        cc_mappings: DEFAULT_CC_MAPPING,
    }
}

impl Default for GlobalConfig {
    fn default() -> (c: Self)
        ensures
            c == default_global_config(),
    {
        GlobalConfig {
            voice_stealing: VoiceStealingConfig::LegatoLast,
            voice_release: FreeVoiceStrategy::ReleaseOnZero,
            cc_mappings: DEFAULT_CC_MAPPING,
        }
    }
}

/// The settings that a parsed settings file gives: each key it holds, and the
/// default for each key it lacks.
pub open spec fn global_config_of(section: GlobalSection) -> GlobalConfig {
    GlobalConfig {
        voice_stealing: match section.voice_stealing {
            Some(v) => v,
            None => default_global_config().voice_stealing,
        },
        voice_release: match section.voice_release {
            Some(v) => v,
            None => default_global_config().voice_release,
        },
        cc_mappings: match section.cc_mappings {
            Some(m) => m,
            None => default_global_config().cc_mappings,
        },
    }
}

/// The global settings, from the `[global]` section of the settings file
/// where it could be read and parsed (`None` where it could not).
pub fn resolve_global_config(parsed: Option<GlobalSection>) -> (c: GlobalConfig)
    ensures
        c == match parsed {
            Some(section) => global_config_of(section),
            None => default_global_config(),
        },
{
    let default_config = GlobalConfig::default();
    match parsed {
        None => default_config,
        Some(section) => GlobalConfig {
            cc_mappings: match section.cc_mappings {
                Some(m) => m,
                None => default_config.cc_mappings,
            },
            voice_stealing: match section.voice_stealing {
                Some(v) => v,
                None => default_config.voice_stealing,
            },
            voice_release: match section.voice_release {
                Some(v) => v,
                None => default_config.voice_release,
            },
        },
    }
}

/// A settings file whose `[global]` section is empty gives the same settings
/// as no settings file at all.
pub proof fn lemma_empty_section_gives_defaults(section: GlobalSection)
    requires
        section.cc_mappings is None,
        section.voice_stealing is None,
        section.voice_release is None,
    ensures
        global_config_of(section) == default_global_config(),
{
}

/// Every key that the settings file holds is taken as it stands.
pub proof fn lemma_given_keys_win(section: GlobalSection)
    ensures
        section.voice_stealing matches Some(v) ==> global_config_of(section).voice_stealing == v,
        section.voice_release matches Some(v) ==> global_config_of(section).voice_release == v,
        section.cc_mappings matches Some(m) ==> global_config_of(section).cc_mappings == m,
{
}


// ---- Ordering a patch table by a list of names ----

/// The index of the first name equal to `n`, or -1 where there is none.
pub open spec fn first_index(names: Seq<Seq<char>>, n: Seq<char>) -> int
    decreases names.len(),
{
    if names.len() == 0 {
        -1
    } else if names.drop_last().contains(n) {
        first_index(names.drop_last(), n)
    } else if names.last() == n {
        names.len() - 1
    } else {
        -1
    }
}

/// The indices among the first `k` whose name is `n`, in increasing order.
pub open spec fn indices_named(names: Seq<Seq<char>>, n: Seq<char>, k: int) -> Seq<int>
    decreases k,
{
    if k <= 0 {
        seq![]
    } else {
        let prev = indices_named(names, n, k - 1);
        if names[k - 1] == n {
            prev.push(k - 1)
        } else {
            prev
        }
    }
}

/// The entries that the order list brings to the front: for each name of
/// `order`, at its first mention, all entries of that name in their old order.
pub open spec fn front_plan(names: Seq<Seq<char>>, order: Seq<Seq<char>>) -> Seq<int>
    decreases order.len(),
{
    if order.len() == 0 {
        seq![]
    } else {
        let rest = order.drop_last();
        let n = order.last();
        if rest.contains(n) {
            front_plan(names, rest)
        } else {
            front_plan(names, rest) + indices_named(names, n, names.len() as int)
        }
    }
}

/// The entries among the first `k` whose name the order list does not hold,
/// in their old order.
pub open spec fn back_plan(names: Seq<Seq<char>>, order: Seq<Seq<char>>, k: int) -> Seq<int>
    decreases k,
{
    if k <= 0 {
        seq![]
    } else {
        let prev = back_plan(names, order, k - 1);
        if !order.contains(names[k - 1]) {
            prev.push(k - 1)
        } else {
            prev
        }
    }
}

/// Which old entry stands at each place of the reordered table.
pub open spec fn reorder_plan(names: Seq<Seq<char>>, order: Seq<Seq<char>>) -> Seq<int> {
    front_plan(names, order) + back_plan(names, order, names.len() as int)
}

/// The indices of a plan, as integers.
pub open spec fn as_ints(p: Seq<usize>) -> Seq<int> {
    p.map_values(|i: usize| i as int)
}

/// Whether one of the first `upto` texts of `v` equals `n`.
fn contains_before(v: &Vec<String>, upto: usize, n: &String) -> (found: bool)
    requires
        upto <= v@.len(),
    ensures
        found == name_views(v@).take(upto as int).contains(n@),
{
    let ghost views = name_views(v@).take(upto as int);
    let mut i: usize = 0;
    while i < upto
        invariant
            upto <= v@.len(),
            i <= upto,
            views == name_views(v@).take(upto as int),
            forall|j: int| 0 <= j < i ==> views[j] != n@,
        decreases upto - i,
    {
        if v[i] == *n {
            assert(views[i as int] == n@);
            return true;
        }
        i = i + 1;
    }
    assert(!views.contains(n@));
    false
}

/// The plan by which `reorder_by_names` rearranges entries named `names`
/// after the list `order`: the index of the old entry for each new place.
pub fn reorder_plan_of(names: &Vec<String>, order: &Vec<String>) -> (plan: Vec<usize>)
    ensures
        as_ints(plan@) == reorder_plan(name_views(names@), name_views(order@)),
{
    let ghost nv = name_views(names@);
    let ghost ov = name_views(order@);
    let n = names.len();
    let mut plan: Vec<usize> = Vec::new();
    let mut k: usize = 0;
    while k < order.len()
        invariant
            n == names@.len(),
            k <= order@.len(),
            nv == name_views(names@),
            ov == name_views(order@),
            as_ints(plan@) == front_plan(nv, ov.take(k as int)),
        decreases order@.len() - k,
    {
        proof {
            assert(ov.take(k + 1).drop_last() =~= ov.take(k as int));
            assert(ov.take(k + 1).last() == ov[k as int]);
        }
        let seen = contains_before(order, k, &order[k]);
        if !seen {
            let ghost before = as_ints(plan@);
            let mut i: usize = 0;
            assert(before + indices_named(nv, ov[k as int], 0) =~= before);
            while i < n
                invariant
                    n == names@.len(),
                    k < order@.len(),
                    i <= n,
                    nv == name_views(names@),
                    ov == name_views(order@),
                    as_ints(plan@) == before + indices_named(nv, ov[k as int], i as int),
                decreases n - i,
            {
                if names[i] == order[k] {
                    assert(nv[i as int] == ov[k as int]);
                    let ghost prev = plan@;
                    plan.push(i);
                    assert(as_ints(plan@) =~= as_ints(prev).push(i as int));
                    assert(as_ints(plan@) =~= before + indices_named(nv, ov[k as int], i + 1));
                } else {
                    assert(nv[i as int] != ov[k as int]);
                }
                i = i + 1;
            }
            assert(as_ints(plan@) =~= front_plan(nv, ov.take(k + 1)));
        }
        k = k + 1;
    }
    assert(ov.take(order@.len() as int) =~= ov);
    let ghost front = as_ints(plan@);
    let mut i: usize = 0;
    while i < n
        invariant
            n == names@.len(),
            i <= n,
            nv == name_views(names@),
            ov == name_views(order@),
            front == front_plan(nv, ov),
            as_ints(plan@) == front + back_plan(nv, ov, i as int),
        decreases n - i,
    {
        let listed = contains_before(order, order.len(), &names[i]);
        proof {
            assert(ov.take(order@.len() as int) =~= ov);
            assert(nv[i as int] == names@[i as int]@);
        }
        if !listed {
            let ghost before = plan@;
            plan.push(i);
            assert(as_ints(plan@) =~= as_ints(before).push(i as int));
            assert(as_ints(plan@) =~= front + back_plan(nv, ov, i + 1));
        }
        i = i + 1;
    }
    plan
}

proof fn lemma_first_index(names: Seq<Seq<char>>, n: Seq<char>)
    ensures
        names.contains(n) ==> 0 <= first_index(names, n) < names.len() && names[first_index(names, n)] == n,
    decreases names.len(),
{
    if names.len() > 0 {
        lemma_first_index(names.drop_last(), n);
        if names.contains(n) && !names.drop_last().contains(n) {
            let k = choose|k: int| 0 <= k < names.len() && names[k] == n;
            if k < names.len() - 1 {
                assert(names.drop_last()[k] == n);
            }
        }
    }
}

/// Facts about the indices of one name.
proof fn lemma_indices_named(names: Seq<Seq<char>>, n: Seq<char>, k: int)
    requires
        0 <= k <= names.len(),
    ensures
        forall|a: int| 0 <= a < indices_named(names, n, k).len() ==> {
            &&& 0 <= #[trigger] indices_named(names, n, k)[a] < k
            &&& names[indices_named(names, n, k)[a]] == n
        },
        forall|a: int, b: int|
            0 <= a < b < indices_named(names, n, k).len() ==> indices_named(names, n, k)[a] < indices_named(
                names,
                n,
                k,
            )[b],
        forall|i: int| 0 <= i < k && #[trigger] names[i] == n ==> indices_named(names, n, k).contains(i),
    decreases k,
{
    if k > 0 {
        lemma_indices_named(names, n, k - 1);
        let prev = indices_named(names, n, k - 1);
        let cur = indices_named(names, n, k);
        assert forall|i: int| 0 <= i < k && #[trigger] names[i] == n implies cur.contains(i) by {
            if i < k - 1 {
                let m = choose|m: int| 0 <= m < prev.len() && prev[m] == i;
                assert(cur[m] == i);
            } else {
                assert(cur[cur.len() - 1] == i);
            }
        }
    }
}

/// Facts about the entries that the order list brings to the front.
proof fn lemma_front_plan(names: Seq<Seq<char>>, order: Seq<Seq<char>>)
    ensures
        forall|a: int| 0 <= a < front_plan(names, order).len() ==> {
            &&& 0 <= #[trigger] front_plan(names, order)[a] < names.len()
            &&& order.contains(names[front_plan(names, order)[a]])
        },
        forall|a: int, b: int|
            0 <= a < b < front_plan(names, order).len() ==> {
                ||| first_index(order, names[front_plan(names, order)[a]]) < first_index(
                    order,
                    names[front_plan(names, order)[b]],
                )
                ||| names[front_plan(names, order)[a]] == names[front_plan(names, order)[b]]
                    && front_plan(names, order)[a] < front_plan(names, order)[b]
            },
        forall|i: int|
            0 <= i < names.len() && order.contains(#[trigger] names[i]) ==> front_plan(names, order).contains(i),
    decreases order.len(),
{
    if order.len() > 0 {
        let rest = order.drop_last();
        let n = order.last();
        lemma_front_plan(names, rest);
        let f = front_plan(names, rest);
        let p = front_plan(names, order);
        assert forall|x: Seq<char>| rest.contains(x) implies order.contains(x) && first_index(order, x)
            == first_index(rest, x) && first_index(rest, x) < rest.len() by {
            let k = choose|k: int| 0 <= k < rest.len() && rest[k] == x;
            assert(order[k] == x);
            lemma_first_index(rest, x);
        }
        assert forall|x: Seq<char>| order.contains(x) && x != n implies rest.contains(x) by {
            let k = choose|k: int| 0 <= k < order.len() && order[k] == x;
            assert(rest[k] == x);
        }
        if rest.contains(n) {
            assert forall|i: int| 0 <= i < names.len() && order.contains(#[trigger] names[i]) implies p.contains(
                i,
            ) by {
                assert(rest.contains(names[i]));
            }
        } else {
            let len = names.len() as int;
            let ind = indices_named(names, n, len);
            lemma_indices_named(names, n, len);
            assert(order.contains(n)) by {
                assert(order[order.len() - 1] == n);
            }
            assert(first_index(order, n) == order.len() - 1);
            assert forall|a: int| 0 <= a < p.len() implies {
                &&& 0 <= #[trigger] p[a] < names.len()
                &&& order.contains(names[p[a]])
            } by {
                if a < f.len() {
                    assert(p[a] == f[a]);
                } else {
                    assert(p[a] == ind[a - f.len()]);
                }
            }
            assert forall|a: int, b: int| 0 <= a < b < p.len() implies {
                ||| first_index(order, names[p[a]]) < first_index(order, names[p[b]])
                ||| names[p[a]] == names[p[b]] && p[a] < p[b]
            } by {
                if b < f.len() {
                    assert(p[a] == f[a]);
                    assert(p[b] == f[b]);
                    assert(rest.contains(names[f[a]]));
                    assert(rest.contains(names[f[b]]));
                } else if a < f.len() {
                    assert(p[a] == f[a]);
                    assert(p[b] == ind[b - f.len()]);
                    assert(rest.contains(names[f[a]]));
                } else {
                    assert(p[a] == ind[a - f.len()]);
                    assert(p[b] == ind[b - f.len()]);
                }
            }
            assert forall|i: int| 0 <= i < names.len() && order.contains(#[trigger] names[i]) implies p.contains(
                i,
            ) by {
                if rest.contains(names[i]) {
                    let m = choose|m: int| 0 <= m < f.len() && f[m] == i;
                    assert(p[m] == i);
                } else {
                    assert(names[i] == n);
                    let m = choose|m: int| 0 <= m < ind.len() && ind[m] == i;
                    assert(p[f.len() + m] == i);
                }
            }
        }
    }
}

/// Facts about the entries that stay after the named ones.
proof fn lemma_back_plan(names: Seq<Seq<char>>, order: Seq<Seq<char>>, k: int)
    requires
        0 <= k <= names.len(),
    ensures
        forall|a: int| 0 <= a < back_plan(names, order, k).len() ==> {
            &&& 0 <= #[trigger] back_plan(names, order, k)[a] < k
            &&& !order.contains(names[back_plan(names, order, k)[a]])
        },
        forall|a: int, b: int|
            0 <= a < b < back_plan(names, order, k).len() ==> back_plan(names, order, k)[a]
                < back_plan(names, order, k)[b],
        forall|i: int|
            0 <= i < k && !order.contains(#[trigger] names[i]) ==> back_plan(names, order, k).contains(i),
    decreases k,
{
    if k > 0 {
        lemma_back_plan(names, order, k - 1);
        let prev = back_plan(names, order, k - 1);
        let cur = back_plan(names, order, k);
        assert forall|i: int| 0 <= i < k && !order.contains(#[trigger] names[i]) implies cur.contains(i) by {
            if i < k - 1 {
                let m = choose|m: int| 0 <= m < prev.len() && prev[m] == i;
                assert(cur[m] == i);
            } else {
                assert(cur[cur.len() - 1] == i);
            }
        }
    }
}

/// A strictly increasing sequence whose values lie in `lo..hi` and cover all
/// of it is `lo, lo + 1, ..., hi - 1`.
proof fn lemma_increasing_cover(p: Seq<int>, lo: int, hi: int)
    requires
        lo <= hi,
        forall|a: int, b: int| 0 <= a < b < p.len() ==> p[a] < p[b],
        forall|k: int| 0 <= k < p.len() ==> lo <= #[trigger] p[k] < hi,
        forall|v: int| lo <= v < hi ==> p.contains(v),
    ensures
        p == Seq::new((hi - lo) as nat, |i: int| lo + i),
{
    assert(p.no_duplicates()) by {
        assert forall|a: int, b: int| 0 <= a < p.len() && 0 <= b < p.len() && a != b implies p[a] != p[b] by {
            if a < b {
                assert(p[a] < p[b]);
            } else {
                assert(p[b] < p[a]);
            }
        }
    }
    assert(p.to_set() =~= vstd::set_lib::set_int_range(lo, hi));
    p.unique_seq_to_set();
    vstd::set_lib::lemma_int_range(lo, hi);
    let n = p.len() as int;
    assert forall|k: int| 0 <= k < n implies #[trigger] p[k] == lo + k by {
        lemma_increasing_lower(p, lo, hi, k);
        lemma_increasing_upper(p, lo, hi, k);
    }
    assert(p =~= Seq::new((hi - lo) as nat, |i: int| lo + i));
}

proof fn lemma_increasing_lower(p: Seq<int>, lo: int, hi: int, k: int)
    requires
        forall|a: int, b: int| 0 <= a < b < p.len() ==> p[a] < p[b],
        forall|j: int| 0 <= j < p.len() ==> lo <= #[trigger] p[j] < hi,
        0 <= k < p.len(),
    ensures
        lo + k <= p[k],
    decreases k,
{
    if k > 0 {
        lemma_increasing_lower(p, lo, hi, k - 1);
    }
}

proof fn lemma_increasing_upper(p: Seq<int>, lo: int, hi: int, k: int)
    requires
        p.len() == hi - lo,
        forall|a: int, b: int| 0 <= a < b < p.len() ==> p[a] < p[b],
        forall|j: int| 0 <= j < p.len() ==> lo <= #[trigger] p[j] < hi,
        0 <= k < p.len(),
    ensures
        p[k] <= lo + k,
    decreases p.len() - k,
{
    if k < p.len() - 1 {
        lemma_increasing_upper(p, lo, hi, k + 1);
    }
}

/// Reordering only rearranges: the plan holds every old index exactly once.
pub proof fn lemma_reorder_is_permutation(names: Seq<Seq<char>>, order: Seq<Seq<char>>)
    ensures
        reorder_plan(names, order).len() == names.len(),
        reorder_plan(names, order).no_duplicates(),
        forall|k: int|
            0 <= k < reorder_plan(names, order).len() ==> 0 <= #[trigger] reorder_plan(names, order)[k]
                < names.len(),
        forall|i: int| 0 <= i < names.len() ==> reorder_plan(names, order).contains(i),
{
    let n = names.len() as int;
    lemma_front_plan(names, order);
    lemma_back_plan(names, order, n);
    let f = front_plan(names, order);
    let b = back_plan(names, order, n);
    let p = reorder_plan(names, order);
    assert forall|k: int| 0 <= k < p.len() implies 0 <= #[trigger] p[k] < n by {
        if k < f.len() {
            assert(p[k] == f[k]);
        } else {
            assert(p[k] == b[k - f.len()]);
        }
    }
    assert forall|x: int, y: int| 0 <= x < p.len() && 0 <= y < p.len() && x != y implies p[x] != p[y] by {
        if x < f.len() && y < f.len() {
            let (lo, hi) = if x < y { (x, y) } else { (y, x) };
            if names[f[lo]] != names[f[hi]] {
            } else {
                assert(f[lo] < f[hi]);
            }
        } else if x >= f.len() && y >= f.len() {
            if x < y {
                assert(b[x - f.len()] < b[y - f.len()]);
            } else {
                assert(b[y - f.len()] < b[x - f.len()]);
            }
        } else if x < f.len() {
            assert(!order.contains(names[b[y - f.len()]]));
            assert(order.contains(names[f[x]]));
        } else {
            assert(!order.contains(names[b[x - f.len()]]));
            assert(order.contains(names[f[y]]));
        }
    }
    assert forall|i: int| 0 <= i < n implies p.contains(i) by {
        if order.contains(names[i]) {
            let m = choose|m: int| 0 <= m < f.len() && f[m] == i;
            assert(p[m] == i);
        } else {
            let m = choose|m: int| 0 <= m < b.len() && b[m] == i;
            assert(p[f.len() + m] == i);
        }
    }
    assert(p.to_set() =~= vstd::set_lib::set_int_range(0, n));
    p.unique_seq_to_set();
    vstd::set_lib::lemma_int_range(0, n);
}

/// Rearranges `entries`, whose names are `names`, so that the entries whose
/// names appear in `order` come first, in the order of the first mention of
/// their names (entries of one name in their old order), followed by the
/// others in their old relative order. No entry is dropped.
pub fn reorder_by_names<T>(entries: &mut Vec<T>, names: &Vec<String>, order: &Vec<String>)
    requires
        old(entries)@.len() == names@.len(),
    ensures
        final(entries)@.len() == old(entries)@.len(),
        forall|k: int|
            0 <= k < final(entries)@.len() ==> #[trigger] final(entries)@[k] == old(entries)@[reorder_plan(
                name_views(names@),
                name_views(order@),
            )[k]],
{
    let plan = reorder_plan_of(names, order);
    let ghost p = reorder_plan(name_views(names@), name_views(order@));
    proof {
        lemma_reorder_is_permutation(name_views(names@), name_views(order@));
    }
    let ghost orig = entries@;
    let n = entries.len();
    let mut slots: Vec<Option<T>> = Vec::new();
    while entries.len() > 0
        invariant
            orig.len() == n,
            slots@.len() + entries@.len() == n,
            forall|j: int| 0 <= j < slots@.len() ==> slots@[j] == Some(orig[j]),
            entries@ == orig.skip(slots@.len() as int),
        decreases entries@.len(),
    {
        let e = entries.remove(0);
        slots.push(Some(e));
        assert(entries@ =~= orig.skip(slots@.len() as int));
    }
    let mut k: usize = 0;
    while k < plan.len()
        invariant
            orig.len() == n,
            n == names@.len(),
            slots@.len() == n,
            as_ints(plan@) == p,
            p.no_duplicates(),
            forall|j: int| 0 <= j < p.len() ==> 0 <= #[trigger] p[j] < n,
            k <= plan@.len(),
            entries@.len() == k,
            forall|j: int| 0 <= j < k ==> #[trigger] entries@[j] == orig[p[j]],
            forall|q: int|
                0 <= q < n ==> (#[trigger] slots@[q] is None <==> p.take(k as int).contains(q)),
            forall|q: int| 0 <= q < n && slots@[q] is Some ==> #[trigger] slots@[q] == Some(orig[q]),
        decreases plan@.len() - k,
    {
        let i = plan[k];
        assert(p[k as int] == i);
        assert(!p.take(k as int).contains(i as int));
        let e = slots[i].take();
        assert(p.take(k + 1) =~= p.take(k as int).push(i as int));
        assert forall|q: int| 0 <= q < n implies (#[trigger] slots@[q] is None <==> p.take(k + 1).contains(q)) by {
            if q != i as int {
                if p.take(k + 1).contains(q) {
                    let m = choose|m: int| 0 <= m < k + 1 && #[trigger] p.take(k + 1)[m] == q;
                    assert(p.take(k as int)[m] == q);
                }
                if p.take(k as int).contains(q) {
                    let m = choose|m: int| 0 <= m < k && #[trigger] p.take(k as int)[m] == q;
                    assert(p.take(k + 1)[m] == q);
                }
            } else {
                assert(p.take(k + 1)[k as int] == q);
            }
        }
        match e {
            Some(x) => {
                entries.push(x);
            },
            None => {
                assert(false);
            },
        }
        k = k + 1;
    }
}


/// Entries named in the order list come first, in the order of the first
/// mention of their names, entries of one name keeping their old order; the
/// others follow in their old relative order.
pub proof fn lemma_reorder_listed_first(names: Seq<Seq<char>>, order: Seq<Seq<char>>)
    ensures
        forall|a: int, b: int|
            0 <= a < b < reorder_plan(names, order).len() && order.contains(
                names[reorder_plan(names, order)[b]],
            ) ==> order.contains(names[reorder_plan(names, order)[a]]),
        forall|a: int, b: int|
            0 <= a < b < reorder_plan(names, order).len() && order.contains(
                names[reorder_plan(names, order)[b]],
            ) ==> {
                ||| first_index(order, names[reorder_plan(names, order)[a]]) < first_index(
                    order,
                    names[reorder_plan(names, order)[b]],
                )
                ||| names[reorder_plan(names, order)[a]] == names[reorder_plan(names, order)[b]]
                    && reorder_plan(names, order)[a] < reorder_plan(names, order)[b]
            },
        forall|a: int, b: int|
            0 <= a < b < reorder_plan(names, order).len() && !order.contains(
                names[reorder_plan(names, order)[a]],
            ) ==> reorder_plan(names, order)[a] < reorder_plan(names, order)[b],
{
    lemma_front_plan(names, order);
    lemma_back_plan(names, order, names.len() as int);
    let f = front_plan(names, order);
    let bp = back_plan(names, order, names.len() as int);
    let p = reorder_plan(names, order);
    assert forall|a: int, b: int| 0 <= a < b < p.len() && order.contains(names[p[b]]) implies order.contains(
        names[p[a]],
    ) && ({
        ||| first_index(order, names[p[a]]) < first_index(order, names[p[b]])
        ||| names[p[a]] == names[p[b]] && p[a] < p[b]
    }) by {
        if b >= f.len() {
            assert(p[b] == bp[b - f.len()]);
            assert(!order.contains(names[bp[b - f.len()]]));
        }
        assert(p[a] == f[a]);
        assert(p[b] == f[b]);
    }
    assert forall|a: int, b: int| 0 <= a < b < p.len() && !order.contains(names[p[a]]) implies p[a]
        < p[b] by {
        if a < f.len() {
            assert(p[a] == f[a]);
        }
        assert(p[a] == bp[a - f.len()]);
        assert(p[b] == bp[b - f.len()]);
    }
}

/// Names that are already in the order that `order` asks for: the first `f`
/// listed in `order`, by the order of the first mention of their names, the
/// others not listed.
pub open spec fn already_ordered(names: Seq<Seq<char>>, order: Seq<Seq<char>>, f: int) -> bool {
    &&& 0 <= f <= names.len()
    &&& forall|i: int| 0 <= i < f ==> order.contains(#[trigger] names[i])
    &&& forall|i: int| f <= i < names.len() ==> !order.contains(#[trigger] names[i])
    &&& forall|a: int, b: int| 0 <= a < b < f ==> first_index(order, names[a]) <= first_index(order, names[b])
}

/// Entries already in the asked order are left as they are.
pub proof fn lemma_reorder_ordered_is_identity(names: Seq<Seq<char>>, order: Seq<Seq<char>>, f: int)
    requires
        already_ordered(names, order, f),
    ensures
        reorder_plan(names, order) == Seq::new(names.len(), |i: int| i),
{
    let n = names.len() as int;
    lemma_front_plan(names, order);
    lemma_back_plan(names, order, n);
    let fp = front_plan(names, order);
    let bp = back_plan(names, order, n);
    assert forall|k: int| 0 <= k < fp.len() implies 0 <= #[trigger] fp[k] < f by {
        assert(order.contains(names[fp[k]]));
    }
    assert forall|v: int| 0 <= v < f implies fp.contains(v) by {
        assert(order.contains(names[v]));
    }
    assert forall|a: int, b: int| 0 <= a < b < fp.len() implies fp[a] < fp[b] by {
        assert(0 <= fp[a] < f);
        assert(0 <= fp[b] < f);
        if fp[b] < fp[a] {
            assert(first_index(order, names[fp[b]]) <= first_index(order, names[fp[a]]));
        }
        if fp[a] == fp[b] {
            assert(names[fp[a]] == names[fp[b]]);
        }
    }
    lemma_increasing_cover(fp, 0, f);
    assert forall|k: int| 0 <= k < bp.len() implies f <= #[trigger] bp[k] < n by {
        assert(!order.contains(names[bp[k]]));
    }
    assert forall|v: int| f <= v < n implies bp.contains(v) by {
        assert(!order.contains(names[v]));
    }
    lemma_increasing_cover(bp, f, n);
    assert(reorder_plan(names, order) =~= Seq::new(names.len(), |i: int| i));
}

/// Reordering the reordered entries by the same list changes nothing more.
pub proof fn lemma_reorder_idempotent(names: Seq<Seq<char>>, order: Seq<Seq<char>>)
    ensures
        ({
            let p = reorder_plan(names, order);
            let again = Seq::new(p.len(), |k: int| names[p[k]]);
            reorder_plan(again, order) == Seq::new(p.len(), |k: int| k)
        }),
{
    let p = reorder_plan(names, order);
    let again = Seq::new(p.len(), |k: int| names[p[k]]);
    let f = front_plan(names, order).len() as int;
    lemma_front_plan(names, order);
    lemma_back_plan(names, order, names.len() as int);
    lemma_reorder_is_permutation(names, order);
    let fp = front_plan(names, order);
    let bp = back_plan(names, order, names.len() as int);
    assert forall|i: int| 0 <= i < f implies order.contains(#[trigger] again[i]) by {
        assert(p[i] == fp[i]);
    }
    assert forall|i: int| f <= i < again.len() implies !order.contains(#[trigger] again[i]) by {
        assert(p[i] == bp[i - f]);
    }
    assert forall|a: int, b: int| 0 <= a < b < f implies first_index(order, again[a]) <= first_index(
        order,
        again[b],
    ) by {
        assert(p[a] == fp[a]);
        assert(p[b] == fp[b]);
    }
    lemma_reorder_ordered_is_identity(again, order, f);
}

/// With an empty order list, reordering leaves the entries as they are.
pub proof fn lemma_reorder_empty_order(names: Seq<Seq<char>>)
    ensures
        reorder_plan(names, seq![]) == Seq::new(names.len(), |i: int| i),
{
    lemma_reorder_ordered_is_identity(names, seq![], 0);
}

} // verus!
