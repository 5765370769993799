//! The plan of an effect chain: which registered effects it is made of, and
//! the parameters each one is built with after the program's settings.

use vstd::prelude::*;
use crate::config_builder::TomlEffectSection;
use crate::names::{last_index, lemma_last_index_absent, lemma_last_index_take, name_views};
use crate::config_value::{ConfigFloat, ConfigTable, ConfigValue};
use crate::params::{CcParam, ParamType, Parameterized, ParamsView};
use crate::text::same_text;

verus! {

/// The names of the registered effects.
pub open spec fn registry_names(reg: Seq<Parameterized>) -> Seq<Seq<char>> {
    reg.map_values(|p: Parameterized| p.name@)
}

/// The table that the effect section holds for effect `fx`, if any.
pub open spec fn fx_table(extras: ConfigTable, fx: Seq<char>) -> Option<ConfigTable> {
    match extras.lookup(fx) {
        Some(v) => v.spec_table(),
        None => None,
    }
}

/// The value that overrides the knob-driven parameters of effect `fx`: the
/// entry named `fx` in the effect's own table, the key `mapping` aside.
pub open spec fn fx_override(extras: ConfigTable, fx: Seq<char>) -> Option<ConfigValue> {
    if fx == "mapping"@ {
        None
    } else {
        match fx_table(extras, fx) {
            Some(t) => t.lookup(fx),
            None => None,
        }
    }
}

/// The knob index that the effect's `mapping` table gives under the name `fx`.
pub open spec fn fx_mapping(extras: ConfigTable, fx: Seq<char>) -> Option<i64> {
    match fx_table(extras, fx) {
        Some(t) => match t.lookup("mapping"@) {
            Some(m) => match m.spec_table() {
                Some(mt) => match mt.lookup(fx) {
                    Some(v) => v.spec_integer(),
                    None => None,
                },
                None => None,
            },
            None => None,
        },
        None => None,
    }
}

/// The settings of effect `fx` come from the table that the effect section
/// holds under its name: the override is that table's entry named `fx`
/// (never for an effect named `mapping`), the knob is the integer under `fx`
/// in that table's `mapping` table; without such a table there are neither.
pub proof fn lemma_fx_settings(extras: ConfigTable, fx: Seq<char>)
    ensures
        !(extras.lookup(fx) matches Some(ConfigValue::Table(_))) ==> fx_override(extras, fx) is None
            && fx_mapping(extras, fx) is None,
        extras.lookup(fx) matches Some(ConfigValue::Table(t)) ==> {
            &&& fx_override(extras, fx) == if fx == "mapping"@ { None } else { t.lookup(fx) }
            &&& fx_mapping(extras, fx) == match t.lookup("mapping"@) {
                Some(ConfigValue::Table(mt)) => match mt.lookup(fx) {
                    Some(ConfigValue::Integer(i)) => Some(i),
                    _ => None,
                },
                _ => None,
            }
        },
{
}

/// A parameter's value after a TOML float: a float parameter takes it narrowed
/// to `f32`, a unit float takes it clamped to `0.0..=1.0`, an integer
/// parameter takes it truncated to `usize`; a text parameter keeps its value.
pub open spec fn float_set(p: ParamType, f: ConfigFloat) -> ParamType {
    match p {
        ParamType::Float(_) => ParamType::Float(f.as_f32_bits),
        ParamType::Int(_) => ParamType::Int(f.as_usize),
        ParamType::ZeroToOneFloat(_) => ParamType::ZeroToOneFloat(f.as_unit_f32_bits),
        ParamType::String(_) => p,
    }
}

/// A knob-driven parameter of an effect after the effect's settings: the
/// mapping's integer, if any, gives its knob; a float override sets a number
/// parameter; a text override sets a text parameter.
pub open spec fn fx_cc_param(p: CcParam, mapping: Option<i64>, ov: Option<ConfigValue>) -> CcParam {
    let idx = match mapping {
        Some(i) => i as usize,
        None => p.cc_index,
    };
    let value = match ov {
        Some(ConfigValue::Float(f)) => float_set(p.value, f),
        Some(ConfigValue::Text(s)) => match p.value {
            ParamType::String(_) => ParamType::String(s),
            _ => p.value,
        },
        _ => p.value,
    };
    CcParam { value, cc_index: idx, name: p.name }
}

/// A knob-driven parameter of an effect keeps its name; its knob is the
/// mapping's integer, if any; its value depends on the override alone, not on
/// the mapping: a float sets a float, unit-float or integer parameter, a text
/// sets a text parameter, and anything else keeps the value.
pub proof fn lemma_fx_cc_param(p: CcParam, mapping: Option<i64>, ov: Option<ConfigValue>)
    ensures
        fx_cc_param(p, mapping, ov).name == p.name,
        fx_cc_param(p, mapping, ov).cc_index == match mapping {
            Some(i) => i as usize,
            None => p.cc_index,
        },
        forall|m2: Option<i64>| #[trigger] fx_cc_param(p, m2, ov).value == fx_cc_param(p, mapping, ov).value,
        ov matches Some(ConfigValue::Float(f)) ==> fx_cc_param(p, mapping, ov).value == match p.value {
            ParamType::Float(_) => ParamType::Float(f.as_f32_bits),
            ParamType::Int(_) => ParamType::Int(f.as_usize),
            ParamType::ZeroToOneFloat(_) => ParamType::ZeroToOneFloat(f.as_unit_f32_bits),
            ParamType::String(_) => p.value,
        },
        ov matches Some(ConfigValue::Text(s)) ==> fx_cc_param(p, mapping, ov).value == match p.value {
            ParamType::String(_) => ParamType::String(s),
            _ => p.value,
        },
        !(ov matches Some(ConfigValue::Float(_))) && !(ov matches Some(ConfigValue::Text(_)))
            ==> fx_cc_param(p, mapping, ov).value == p.value,
{
}

/// The parameters an effect is built with, from its registered parameters
/// and the effect section.
pub open spec fn fx_definition(def: ParamsView, extras: ConfigTable, fx: Seq<char>) -> ParamsView {
    ParamsView {
        name: def.name,
        cc_params: match def.cc_params {
            Some(s) => Some(
                s.map_values(|p: CcParam| fx_cc_param(p, fx_mapping(extras, fx), fx_override(extras, fx))),
            ),
            None => None,
        },
        non_cc_params: def.non_cc_params,
    }
}

/// A chain names an effect that is not registered.
#[derive(Debug)]
pub enum FxChainError {
    UnknownEffect(String),
}

/// The plan of an effect chain. `effect_indices[k]` is the registered effect
/// for the `k`-th effect of the chain, built with `definitions[k]`.
#[derive(Debug)]
pub struct FxChainPlan {
    pub effect_indices: Vec<usize>,
    pub definitions: Option<Vec<Parameterized>>,
    pub fx_names: Option<Vec<String>>,
}

/// The registered effect of name `name` (the last one, where two share it).
fn registered_effect(registry: &Vec<Parameterized>, name: &str) -> (found: Option<usize>)
    ensures
        match found {
            Some(i) => last_index(registry_names(registry@), name@) == i,
            None => last_index(registry_names(registry@), name@) == -1,
        },
{
    let ghost names = registry_names(registry@);
    let mut found: Option<usize> = None;
    let mut i: usize = 0;
    while i < registry.len()
        invariant
            i <= registry@.len(),
            names == registry_names(registry@),
            match found {
                Some(k) => last_index(names.take(i as int), name@) == k,
                None => last_index(names.take(i as int), name@) == -1,
            },
        decreases registry@.len() - i,
    {
        proof {
            lemma_last_index_take(names, name@, i as int);
        }
        if same_text(registry[i].name, name) {
            found = Some(i);
        }
        i = i + 1;
    }
    assert(names.take(registry@.len() as int) =~= names);
    found
}

/// A knob-driven parameter after the effect's settings.
fn fx_update_cc(p: &CcParam, mapping: Option<i64>, ov: Option<&ConfigValue>) -> (q: CcParam)
    ensures
        q == fx_cc_param(
            *p,
            mapping,
            match ov {
                Some(v) => Some(*v),
                None => None,
            },
        ),
{
    let idx = match mapping {
        Some(i) => i as usize,
        None => p.cc_index,
    };
    let value = match ov {
        Some(ConfigValue::Float(f)) => match &p.value {
            ParamType::Float(_) => ParamType::Float(f.as_f32_bits),
            ParamType::Int(_) => ParamType::Int(f.as_usize),
            ParamType::ZeroToOneFloat(_) => ParamType::ZeroToOneFloat(f.as_unit_f32_bits),
            ParamType::String(_) => p.value.clone(),
        },
        Some(ConfigValue::Text(s)) => match &p.value {
            ParamType::String(_) => ParamType::String(s.clone()),
            _ => p.value.clone(),
        },
        _ => p.value.clone(),
    };
    CcParam { value, cc_index: idx, name: p.name }
}

/// The parameters effect `fx` is built with, from its registered ones.
fn fx_params(def: &Parameterized, extras: &ConfigTable, fx: &str) -> (out: Parameterized)
    ensures
        out@ == fx_definition(def@, *extras, fx@),
{
    let fx_value = extras.get(fx);
    let fx_tab: Option<&ConfigTable> = match fx_value {
        Some(v) => v.as_table(),
        None => None,
    };
    let ov: Option<&ConfigValue> = if same_text(fx, "mapping") {
        None
    } else {
        match fx_tab {
            Some(t) => t.get(fx),
            None => None,
        }
    };
    let mapping: Option<i64> = match fx_tab {
        Some(t) => match t.get("mapping") {
            Some(m) => match m.as_table() {
                Some(mt) => match mt.get(fx) {
                    Some(v) => v.as_integer(),
                    None => None,
                },
                None => None,
            },
            None => None,
        },
        None => None,
    };
    let ghost ovs = fx_override(*extras, fx@);
    assert(ovs == match ov {
        Some(v) => Some(*v),
        None => None::<ConfigValue>,
    });
    assert(mapping == fx_mapping(*extras, fx@));
    let mut out = def.clone();
    let taken = out.cc_params.take();
    match taken {
        None => {},
        Some(v) => {
            let mut w: Vec<CcParam> = Vec::new();
            let mut i: usize = 0;
            while i < v.len()
                invariant
                    i <= v@.len(),
                    w@.len() == i,
                    forall|j: int| 0 <= j < i ==> #[trigger] w@[j] == fx_cc_param(v@[j], mapping, ovs),
                    ovs == match ov {
                        Some(v) => Some(*v),
                        None => None::<ConfigValue>,
                    },
                decreases v@.len() - i,
            {
                let q = fx_update_cc(&v[i], mapping, ov);
                w.push(q);
                i = i + 1;
            }
            assert(w@ =~= v@.map_values(|p: CcParam| fx_cc_param(p, mapping, ovs)));
            out.cc_params = Some(w);
        },
    }
    out
}

impl FxChainPlan {
    /// Plans the effect chain of a program from the registered effects
    /// (their parameters, by which they are named) and the program's effect
    /// section. Fails on the first effect of the chain that is not registered.
    pub fn new(registry: &Vec<Parameterized>, effects_config: Option<&TomlEffectSection>) -> (plan: Result<FxChainPlan, FxChainError>)
        ensures
            match effects_config {
                None => plan matches Ok(p) && p.effect_indices@.len() == 0 && p.definitions is None
                    && p.fx_names is None,
                Some(e) => {
                    let chain = name_views(e.chain@);
                    let reg = registry_names(registry@);
                    &&& (plan is Ok <==> forall|k: int| 0 <= k < chain.len() ==> last_index(reg, #[trigger] chain[k]) != -1)
                    &&& plan matches Err(FxChainError::UnknownEffect(n)) ==> exists|k: int|
                        0 <= k < chain.len() && n@ == #[trigger] chain[k] && last_index(reg, chain[k]) == -1
                            && forall|j: int| 0 <= j < k ==> last_index(reg, #[trigger] chain[j]) != -1
                    &&& plan matches Ok(p) ==> {
                        &&& p.effect_indices@.len() == chain.len()
                        &&& p.fx_names matches Some(f) && f@ == e.chain@
                        &&& forall|k: int| 0 <= k < chain.len() ==> #[trigger] p.effect_indices@[k] == last_index(reg, chain[k])
                        &&& p.definitions matches Some(d) && d@.len() == chain.len() && forall|k: int|
                            0 <= k < chain.len() ==> #[trigger] d@[k]@ == fx_definition(
                                registry@[last_index(reg, chain[k])]@,
                                e.extras,
                                chain[k],
                            )
                    }
                },
            },
    {
        let effects = match effects_config {
            None => {
                return Ok(FxChainPlan { effect_indices: Vec::new(), definitions: None, fx_names: None });
            },
            Some(e) => e,
        };
        let ghost chain = name_views(effects.chain@);
        let ghost reg = registry_names(registry@);
        let mut indices: Vec<usize> = Vec::new();
        let mut definitions: Vec<Parameterized> = Vec::new();
        let mut fx_names: Vec<String> = Vec::new();
        let mut k: usize = 0;
        while k < effects.chain.len()
            invariant
                effects_config == Some(effects),
                k <= effects.chain@.len(),
                chain == name_views(effects.chain@),
                reg == registry_names(registry@),
                indices@.len() == k,
                definitions@.len() == k,
                fx_names@ == effects.chain@.take(k as int),
                forall|j: int| 0 <= j < k ==> last_index(reg, #[trigger] chain[j]) != -1,
                forall|j: int| 0 <= j < k ==> #[trigger] indices@[j] == last_index(reg, chain[j]),
                forall|j: int|
                    0 <= j < k ==> #[trigger] definitions@[j]@ == fx_definition(
                        registry@[last_index(reg, chain[j])]@,
                        effects.extras,
                        chain[j],
                    ),
            decreases effects.chain@.len() - k,
        {
            let fx_name = &effects.chain[k];
            assert(chain[k as int] == fx_name@);
            match registered_effect(registry, fx_name.as_str()) {
                None => {
                    return Err(FxChainError::UnknownEffect(fx_name.clone()));
                },
                Some(idx) => {
                    proof {
                        lemma_last_index_absent(reg, chain[k as int]);
                    }
                    let def = fx_params(&registry[idx], &effects.extras, fx_name.as_str());
                    indices.push(idx);
                    definitions.push(def);
                    fx_names.push(fx_name.clone());
                    assert(fx_names@ =~= effects.chain@.take(k + 1));
                },
            }
            k = k + 1;
        }
        assert(fx_names@ =~= effects.chain@);
        Ok(FxChainPlan { effect_indices: indices, definitions: Some(definitions), fx_names: Some(fx_names) })
    }
}

} // verus!
