//! Sound and effect parameters, their lookup by name, and how a TOML
//! configuration overrides them.

use vstd::prelude::*;
use crate::config_value::{ConfigTable, ConfigValue};
use crate::text::{lowercase, same_text, to_lowercase};
use vstd::string::*;

verus! {

/// The value of a parameter. A float is held as the bit pattern of its `f32`.
#[derive(Debug)]
pub enum ParamType {
    Float(u32),
    Int(usize),
    String(String),
    /// A float that is read clamped to `0.0..=1.0`.
    ZeroToOneFloat(u32),
}

impl Clone for ParamType {
    fn clone(&self) -> (c: Self)
        ensures
            c == *self,
    {
        match self {
            ParamType::Float(v) => ParamType::Float(*v),
            ParamType::Int(v) => ParamType::Int(*v),
            ParamType::String(s) => ParamType::String(s.clone()),
            ParamType::ZeroToOneFloat(v) => ParamType::ZeroToOneFloat(*v),
        }
    }
}

/// The message of a failed oscillator name.
pub open spec fn unknown_oscillator_message() -> Seq<char> {
    "unknown oscillator type"@
}

/// The message of an oscillator read from a parameter that holds no text.
pub open spec fn not_text_message() -> Seq<char> {
    "parameter is not a string, cannot convert to oscillator type"@
}

impl ParamType {
    /// The oscillator that a text parameter names (compared in lower case).
    pub fn as_oscillator_type(&self) -> (osc: Result<OscillatorType, &'static str>)
        ensures
            match *self {
                ParamType::String(s) => match oscillator_named(lowercase(s@)) {
                    Some(o) => osc == Ok::<OscillatorType, &'static str>(o),
                    None => osc matches Err(e) && e@ == unknown_oscillator_message(),
                },
                _ => osc matches Err(e) && e@ == not_text_message(),
            },
    {
        match self {
            ParamType::String(s) => OscillatorType::parse(s.as_str()),
            _ => Err("parameter is not a string, cannot convert to oscillator type"),
        }
    }
}

/// A parameter that a MIDI control change (knob) drives.
#[derive(Debug)]
pub struct CcParam {
    pub value: ParamType,
    pub cc_index: usize,
    pub name: &'static str,
}

impl Clone for CcParam {
    fn clone(&self) -> (c: Self)
        ensures
            c == *self,
    {
        CcParam { value: self.value.clone(), cc_index: self.cc_index, name: self.name }
    }
}

/// A parameter that no knob drives.
#[derive(Debug)]
pub struct NonCcParam {
    pub value: ParamType,
    pub name: &'static str,
}

impl Clone for NonCcParam {
    fn clone(&self) -> (c: Self)
        ensures
            c == *self,
    {
        NonCcParam { value: self.value.clone(), name: self.name }
    }
}

/// The parameters of a sound or an effect.
#[derive(Debug)]
pub struct Parameterized {
    pub name: &'static str,
    pub cc_params: Option<Vec<CcParam>>,
    pub non_cc_params: Option<Vec<NonCcParam>>,
}

/// Why a parameter could not be had.
#[derive(Debug)]
pub enum ParamError {
    /// No knob-driven parameter has this name.
    CcParamNotFound(String),
    /// No other parameter has this name.
    NonCcParamNotFound(String),
    /// The oscillator parameter is missing.
    ParameterNotFound,
    /// The oscillator parameter names no oscillator; the message says why.
    InvalidOscillator(&'static str),
}

/// The message of a parameter error.
pub open spec fn error_message(e: ParamError) -> Seq<char> {
    match e {
        ParamError::CcParamNotFound(n) => "CC-Parameter "@ + n@ + " not found"@,
        ParamError::NonCcParamNotFound(n) => "Non-CC-Parameter "@ + n@ + " not found"@,
        ParamError::ParameterNotFound => "parameter not found"@,
        ParamError::InvalidOscillator(m) => m@,
    }
}

impl ParamError {
    /// The message that the error reports.
    pub fn message(&self) -> (m: String)
        ensures
            m@ == error_message(*self),
    {
        match self {
            ParamError::CcParamNotFound(n) => {
                let mut m = "CC-Parameter ".to_owned();
                m.append(n.as_str());
                m.append(" not found");
                m
            },
            ParamError::NonCcParamNotFound(n) => {
                let mut m = "Non-CC-Parameter ".to_owned();
                m.append(n.as_str());
                m.append(" not found");
                m
            },
            ParamError::ParameterNotFound => "parameter not found".to_owned(),
            ParamError::InvalidOscillator(e) => (*e).to_owned(),
        }
    }
}

/// `i` is the first position of `names` that holds `name`.
pub open spec fn is_first_named(names: Seq<Seq<char>>, name: Seq<char>, i: int) -> bool {
    &&& 0 <= i < names.len()
    &&& names[i] == name
    &&& forall|j: int| 0 <= j < i ==> names[j] != name
}

/// The names of knob-driven parameters.
pub open spec fn cc_names(ps: Seq<CcParam>) -> Seq<Seq<char>> {
    ps.map_values(|p: CcParam| p.name@)
}

/// The names of the other parameters.
pub open spec fn non_cc_names(ps: Seq<NonCcParam>) -> Seq<Seq<char>> {
    ps.map_values(|p: NonCcParam| p.name@)
}

/// What a set of parameters holds: its name and its two lists.
pub struct ParamsView {
    pub name: Seq<char>,
    pub cc_params: Option<Seq<CcParam>>,
    pub non_cc_params: Option<Seq<NonCcParam>>,
}

impl View for Parameterized {
    type V = ParamsView;

    open spec fn view(&self) -> ParamsView {
        ParamsView {
            name: self.name@,
            cc_params: match self.cc_params {
                Some(v) => Some(v@),
                None => None,
            },
            non_cc_params: match self.non_cc_params {
                Some(v) => Some(v@),
                None => None,
            },
        }
    }
}

impl Clone for Parameterized {
    fn clone(&self) -> (c: Self)
        ensures
            c@ == self@,
    {
        let cc = match &self.cc_params {
            Some(v) => {
                let w = v.clone();
                assert(w@ =~= v@);
                Some(w)
            },
            None => None,
        };
        let non_cc = match &self.non_cc_params {
            Some(v) => {
                let w = v.clone();
                assert(w@ =~= v@);
                Some(w)
            },
            None => None,
        };
        Parameterized { name: self.name, cc_params: cc, non_cc_params: non_cc }
    }
}

impl Parameterized {
    /// The first knob-driven parameter named `name`.
    pub fn get_cc_param(&self, name: &str) -> (found: Result<&CcParam, ParamError>)
        ensures
            match found {
                Ok(p) => self.cc_params matches Some(v) && exists|i: int|
                    is_first_named(cc_names(v@), name@, i) && *p == #[trigger] v@[i],
                Err(e) => (e matches ParamError::CcParamNotFound(n) && n@ == name@) && !(
                self.cc_params matches Some(v) && cc_names(v@).contains(name@)),
            },
    {
        if let Some(v) = &self.cc_params {
            let ghost names = cc_names(v@);
            let mut i: usize = 0;
            while i < v.len()
                invariant
                    i <= v@.len(),
                    names == cc_names(v@),
                    self.cc_params == Some(*v),
                    forall|j: int| 0 <= j < i ==> names[j] != name@,
                decreases v@.len() - i,
            {
                if same_text(v[i].name, name) {
                    assert(is_first_named(names, name@, i as int));
                    let p = &v[i];
                    assert(*p == v@[i as int]);
                    assert(self.cc_params matches Some(w) && exists|k: int|
                        is_first_named(cc_names(w@), name@, k) && *p == #[trigger] w@[k]);
                    return Ok(p);
                }
                i = i + 1;
            }
            assert(!names.contains(name@));
        }
        Err(ParamError::CcParamNotFound(name.to_owned()))
    }

    /// The first parameter named `name` among those that no knob drives.
    pub fn get_non_cc_param(&self, name: &str) -> (found: Result<&NonCcParam, ParamError>)
        ensures
            match found {
                Ok(p) => self.non_cc_params matches Some(v) && exists|i: int|
                    is_first_named(non_cc_names(v@), name@, i) && *p == #[trigger] v@[i],
                Err(e) => (e matches ParamError::NonCcParamNotFound(n) && n@ == name@) && !(
                self.non_cc_params matches Some(v) && non_cc_names(v@).contains(name@)),
            },
    {
        if let Some(v) = &self.non_cc_params {
            let ghost names = non_cc_names(v@);
            let mut i: usize = 0;
            while i < v.len()
                invariant
                    i <= v@.len(),
                    names == non_cc_names(v@),
                    self.non_cc_params == Some(*v),
                    forall|j: int| 0 <= j < i ==> names[j] != name@,
                decreases v@.len() - i,
            {
                if same_text(v[i].name, name) {
                    assert(is_first_named(names, name@, i as int));
                    let p = &v[i];
                    assert(*p == v@[i as int]);
                    assert(self.non_cc_params matches Some(w) && exists|k: int|
                        is_first_named(non_cc_names(w@), name@, k) && *p == #[trigger] w@[k]);
                    return Ok(p);
                }
                i = i + 1;
            }
            assert(!names.contains(name@));
        }
        Err(ParamError::NonCcParamNotFound(name.to_owned()))
    }

    /// The oscillator that the parameter `name` (one no knob drives) names.
    pub fn get_osc_type(&self, name: &str) -> (osc: Result<OscillatorType, ParamError>)
        ensures
            match self.non_cc_params {
                Some(v) if non_cc_names(v@).contains(name@) => forall|i: int|
                    is_first_named(non_cc_names(v@), name@, i) ==> match v@[i].value {
                        ParamType::String(s) => match oscillator_named(lowercase(s@)) {
                            Some(o) => osc == Ok::<OscillatorType, ParamError>(o),
                            None => osc matches Err(ParamError::InvalidOscillator(e)) && e@
                                == unknown_oscillator_message(),
                        },
                        _ => osc matches Err(ParamError::InvalidOscillator(e)) && e@ == not_text_message(),
                    },
                _ => osc matches Err(ParamError::ParameterNotFound),
            },
    {
        match self.get_non_cc_param(name) {
            Err(_) => Err(ParamError::ParameterNotFound),
            Ok(param) => {
                proof {
                    let v = self.non_cc_params.unwrap();
                    let i = choose|i: int| is_first_named(non_cc_names(v@), name@, i) && *param == #[trigger] v@[i];
                    assert(non_cc_names(v@)[i] == name@);
                    assert forall|j: int| is_first_named(non_cc_names(v@), name@, j) implies j == i by {
                        if j < i {
                            assert(non_cc_names(v@)[j] != name@);
                        }
                        if i < j {
                            assert(non_cc_names(v@)[i] != name@);
                        }
                    }
                }
                match param.value.as_oscillator_type() {
                    Ok(o) => Ok(o),
                    Err(e) => Err(ParamError::InvalidOscillator(e)),
                }
            },
        }
    }
}

/// The knob-driven parameter whose value knob `j` takes initially: the last
/// one with that knob, or -1 where there is none.
pub open spec fn knob_source(ps: Seq<CcParam>, j: int) -> int
    decreases ps.len(),
{
    if ps.len() == 0 {
        -1
    } else if ps.last().cc_index == j {
        ps.len() - 1
    } else {
        knob_source(ps.drop_last(), j)
    }
}

/// The knob source of knob `j` is the last parameter naming knob `j`, and
/// there is none exactly when no parameter names it.
pub proof fn lemma_knob_source(ps: Seq<CcParam>, j: int)
    ensures
        knob_source(ps, j) == -1 <==> forall|i: int| 0 <= i < ps.len() ==> #[trigger] ps[i].cc_index != j,
        knob_source(ps, j) != -1 ==> {
            &&& 0 <= knob_source(ps, j) < ps.len()
            &&& ps[knob_source(ps, j)].cc_index == j
            &&& forall|i: int| knob_source(ps, j) < i < ps.len() ==> #[trigger] ps[i].cc_index != j
        },
    decreases ps.len(),
{
    if ps.len() > 0 {
        let rest = ps.drop_last();
        lemma_knob_source(rest, j);
        if ps.last().cc_index != j {
            assert forall|i: int| 0 <= i < ps.len() - 1 implies #[trigger] ps[i].cc_index == rest[i].cc_index by {}
            if knob_source(rest, j) == -1 {
                assert forall|i: int| 0 <= i < ps.len() implies #[trigger] ps[i].cc_index != j by {
                    if i < ps.len() - 1 {
                        assert(rest[i].cc_index != j);
                    }
                }
            } else {
                let r = knob_source(rest, j);
                assert(ps[r] == rest[r]);
                assert forall|i: int| r < i < ps.len() implies #[trigger] ps[i].cc_index != j by {
                    if i < ps.len() - 1 {
                        assert(rest[i].cc_index != j);
                    }
                }
            }
        } else {
            assert(ps[ps.len() - 1].cc_index == j);
        }
    }
}

/// Every knob-driven parameter names one of `knobs` knobs and holds a number.
pub open spec fn cc_settable(ps: Seq<CcParam>, knobs: int) -> bool {
    forall|i: int| 0 <= i < ps.len() ==> #[trigger] ps[i].cc_index < knobs && !(ps[i].value is String)
}

impl Parameterized {
    /// For each of `knobs` knobs, the knob-driven parameter whose value the
    /// knob takes initially (the last one naming the knob), if any. Gives
    /// `None` where some knob-driven parameter names a knob out of range or
    /// holds text: such a parameter cannot set a knob.
    pub fn initial_cc_sources(&self, knobs: usize) -> (r: Option<Vec<Option<usize>>>)
        ensures
            match self.cc_params {
                None => r matches Some(v) && v@.len() == knobs && forall|j: int|
                    0 <= j < knobs ==> #[trigger] v@[j] is None,
                Some(ps) => {
                    &&& (r is Some <==> cc_settable(ps@, knobs as int))
                    &&& r matches Some(v) ==> v@.len() == knobs && forall|j: int|
                        0 <= j < knobs ==> match #[trigger] v@[j] {
                            Some(i) => knob_source(ps@, j) == i,
                            None => knob_source(ps@, j) == -1,
                        }
                    &&& r matches Some(v) ==> forall|j: int|
                        0 <= j < knobs ==> match #[trigger] v@[j] {
                            Some(i) => i < ps@.len() && ps@[i as int].cc_index == j && forall|k: int|
                                i < k < ps@.len() ==> ps@[k].cc_index != j,
                            None => forall|k: int| 0 <= k < ps@.len() ==> ps@[k].cc_index != j,
                        }
                },
            },
    {
        let mut v: Vec<Option<usize>> = Vec::new();
        let mut j: usize = 0;
        while j < knobs
            invariant
                j <= knobs,
                v@.len() == j,
                forall|k: int| 0 <= k < j ==> #[trigger] v@[k] is None,
            decreases knobs - j,
        {
            v.push(None);
            j = j + 1;
        }
        match &self.cc_params {
            None => Some(v),
            Some(ps) => {
                let mut i: usize = 0;
                while i < ps.len()
                    invariant
                        self.cc_params == Some(*ps),
                        i <= ps@.len(),
                        forall|k: int| 0 <= k < i ==> #[trigger] ps@[k].cc_index < knobs && !(ps@[k].value is String),
                    decreases ps@.len() - i,
                {
                    if ps[i].cc_index >= knobs {
                        assert(!cc_settable(ps@, knobs as int));
                        return None;
                    }
                    match &ps[i].value {
                        ParamType::String(_) => {
                            assert(!cc_settable(ps@, knobs as int));
                            return None;
                        },
                        _ => {},
                    }
                    i = i + 1;
                }
                let mut i: usize = 0;
                while i < ps.len()
                    invariant
                        self.cc_params == Some(*ps),
                        i <= ps@.len(),
                        v@.len() == knobs,
                        cc_settable(ps@, knobs as int),
                        forall|j: int|
                            0 <= j < knobs ==> match #[trigger] v@[j] {
                                Some(k) => knob_source(ps@.take(i as int), j) == k,
                                None => knob_source(ps@.take(i as int), j) == -1,
                            },
                    decreases ps@.len() - i,
                {
                    proof {
                        assert(ps@.take(i + 1).drop_last() =~= ps@.take(i as int));
                    }
                    let idx = ps[i].cc_index;
                    assert(ps@[i as int].cc_index < knobs);
                    v.set(idx, Some(i));
                    i = i + 1;
                }
                assert(ps@.take(ps@.len() as int) =~= ps@);
                proof {
                    assert forall|j: int| 0 <= j < knobs implies match #[trigger] v@[j] {
                        Some(i) => i < ps@.len() && ps@[i as int].cc_index == j && forall|k: int|
                            i < k < ps@.len() ==> ps@[k].cc_index != j,
                        None => forall|k: int| 0 <= k < ps@.len() ==> ps@[k].cc_index != j,
                    } by {
                        lemma_knob_source(ps@, j);
                    }
                }
                Some(v)
            },
        }
    }
}

/// The oscillator shapes a parameter can name.
#[derive(Debug, Clone, Copy, PartialEq, Eq, Structural)]
pub enum OscillatorType {
    Saw,
    Triangle,
    Sine,
    Pulse,
    Square,
    /// No oscillator: silence. Its name is `none`.
    Silent,
}

/// The oscillator that a lower-case name stands for.
pub open spec fn oscillator_named(s: Seq<char>) -> Option<OscillatorType> {
    if s == "saw"@ {
        Some(OscillatorType::Saw)
    } else if s == "triangle"@ {
        Some(OscillatorType::Triangle)
    } else if s == "sine"@ {
        Some(OscillatorType::Sine)
    } else if s == "pulse"@ {
        Some(OscillatorType::Pulse)
    } else if s == "square"@ {
        Some(OscillatorType::Square)
    } else if s == "none"@ {
        Some(OscillatorType::Silent)
    } else {
        None
    }
}

/// Each oscillator has exactly one lower-case name.
pub proof fn lemma_oscillator_named(s: Seq<char>, t: Seq<char>)
    ensures
        oscillator_named(s) is Some && oscillator_named(s) == oscillator_named(t) ==> s == t,
{
}

impl OscillatorType {
    /// The oscillator named by `s`, a name already in lower case.
    pub fn from_lowercase(s: &str) -> (osc: Result<OscillatorType, &'static str>)
        ensures
            match oscillator_named(s@) {
                Some(o) => osc == Ok::<OscillatorType, &'static str>(o),
                None => osc matches Err(e) && e@ == unknown_oscillator_message(),
            },
    {
        if same_text(s, "saw") {
            Ok(OscillatorType::Saw)
        } else if same_text(s, "triangle") {
            Ok(OscillatorType::Triangle)
        } else if same_text(s, "sine") {
            Ok(OscillatorType::Sine)
        } else if same_text(s, "pulse") {
            Ok(OscillatorType::Pulse)
        } else if same_text(s, "square") {
            Ok(OscillatorType::Square)
        } else if same_text(s, "none") {
            Ok(OscillatorType::Silent)
        } else {
            let e: &'static str = "unknown oscillator type";
            proof {
                reveal_strlit("unknown oscillator type");
            }
            Err(e)
        }
    }

    /// The oscillator named by `s`, in any case.
    pub fn parse(s: &str) -> (osc: Result<OscillatorType, &'static str>)
        ensures
            match oscillator_named(lowercase(s@)) {
                Some(o) => osc == Ok::<OscillatorType, &'static str>(o),
                None => osc matches Err(e) && e@ == unknown_oscillator_message(),
            },
    {
        let lower = to_lowercase(s);
        OscillatorType::from_lowercase(lower.as_str())
    }
}

impl std::str::FromStr for OscillatorType {
    type Err = &'static str;

    fn from_str(s: &str) -> (osc: Result<Self, Self::Err>)
        ensures
            match oscillator_named(lowercase(s@)) {
                Some(o) => osc == Ok::<OscillatorType, &'static str>(o),
                None => osc matches Err(e) && e@ == unknown_oscillator_message(),
            },
    {
        OscillatorType::parse(s)
    }
}

/// Whether a signal is taken as it is or inverted.
#[derive(Debug, Clone, Copy, PartialEq, Eq, Structural)]
pub enum Polarity {
    Positive,
    Negative,
}

/// The polarity that a lower-case name stands for.
pub open spec fn polarity_named(s: Seq<char>) -> Option<Polarity> {
    if s == "positive"@ {
        Some(Polarity::Positive)
    } else if s == "negative"@ {
        Some(Polarity::Negative)
    } else {
        None
    }
}

/// Each polarity has exactly one lower-case name.
pub proof fn lemma_polarity_named(s: Seq<char>, t: Seq<char>)
    ensures
        polarity_named(s) is Some && polarity_named(s) == polarity_named(t) ==> s == t,
{
}

impl Polarity {
    /// The polarity named by `s`, a name already in lower case.
    pub fn from_lowercase(s: &str) -> (p: Option<Polarity>)
        ensures
            p == polarity_named(s@),
    {
        if same_text(s, "positive") {
            Some(Polarity::Positive)
        } else if same_text(s, "negative") {
            Some(Polarity::Negative)
        } else {
            None
        }
    }

    /// The polarity named by `s`, in any case.
    pub fn parse(s: &str) -> (p: Option<Polarity>)
        ensures
            p == polarity_named(lowercase(s@)),
    {
        let lower = to_lowercase(s);
        Polarity::from_lowercase(lower.as_str())
    }
}


/// A parameter with a name and a value that a configuration can override.
pub trait ValuedParam: Sized {
    /// The parameter's name.
    spec fn param_name(&self) -> Seq<char>;

    /// The parameter's value.
    spec fn param_value(&self) -> ParamType;

    /// The parameter with its value replaced by `v`, all else kept.
    spec fn with_value(&self, v: ParamType) -> Self;

    /// The parameter's value, to change in place.
    fn get_mut(&mut self) -> (v: &mut ParamType)
        ensures
            *v == old(self).param_value(),
            *final(self) == old(self).with_value(*final(v)),
    ;

    /// The parameter's name.
    fn get_name(&self) -> (n: &str)
        ensures
            n@ == self.param_name(),
    ;

    /// Replacing the value keeps the name, holds the new value, and a second
    /// replacement undoes the first.
    proof fn lemma_with_value(&self, v: ParamType, w: ParamType)
        ensures
            self.with_value(v).param_name() == self.param_name(),
            self.with_value(v).param_value() == v,
            self.with_value(v).with_value(w) == self.with_value(w),
    ;
}

impl ValuedParam for CcParam {
    open spec fn param_name(&self) -> Seq<char> {
        self.name@
    }

    open spec fn param_value(&self) -> ParamType {
        self.value
    }

    open spec fn with_value(&self, v: ParamType) -> Self {
        CcParam { value: v, cc_index: self.cc_index, name: self.name }
    }

    fn get_mut(&mut self) -> (v: &mut ParamType) {
        &mut self.value
    }

    fn get_name(&self) -> (n: &str) {
        self.name
    }

    proof fn lemma_with_value(&self, v: ParamType, w: ParamType) {
    }
}

impl ValuedParam for NonCcParam {
    open spec fn param_name(&self) -> Seq<char> {
        self.name@
    }

    open spec fn param_value(&self) -> ParamType {
        self.value
    }

    open spec fn with_value(&self, v: ParamType) -> Self {
        NonCcParam { value: v, name: self.name }
    }

    fn get_mut(&mut self) -> (v: &mut ParamType) {
        &mut self.value
    }

    fn get_name(&self) -> (n: &str) {
        self.name
    }

    proof fn lemma_with_value(&self, v: ParamType, w: ParamType) {
    }
}

/// The value a parameter takes when the configuration gives `v` for it:
/// a float parameter takes a TOML float (narrowed to `f32`); an integer
/// parameter takes a TOML integer (cast to `usize`) or else a TOML float
/// (truncated to `usize`); a text parameter takes a TOML text. Any other
/// pairing leaves the value as it was.
pub open spec fn overridden(p: ParamType, v: ConfigValue) -> ParamType {
    match p {
        ParamType::Float(_) => match v {
            ConfigValue::Float(f) => ParamType::Float(f.as_f32_bits),
            _ => p,
        },
        ParamType::ZeroToOneFloat(_) => match v {
            ConfigValue::Float(f) => ParamType::ZeroToOneFloat(f.as_f32_bits),
            _ => p,
        },
        ParamType::Int(_) => match v {
            ConfigValue::Integer(i) => ParamType::Int(i as usize),
            ConfigValue::Float(f) => ParamType::Int(f.as_usize),
            _ => p,
        },
        ParamType::String(_) => match v {
            ConfigValue::Text(s) => ParamType::String(s),
            _ => p,
        },
    }
}

/// The value a parameter takes when the configuration gives `v` for it.
pub fn override_value(p: &ParamType, v: &ConfigValue) -> (r: ParamType)
    ensures
        r == overridden(*p, *v),
{
    match p {
        ParamType::Float(old) => match v.as_float() {
            Some(f) => ParamType::Float(f.as_f32_bits),
            None => ParamType::Float(*old),
        },
        ParamType::ZeroToOneFloat(old) => match v.as_float() {
            Some(f) => ParamType::ZeroToOneFloat(f.as_f32_bits),
            None => ParamType::ZeroToOneFloat(*old),
        },
        ParamType::Int(old) => match v.as_integer() {
            Some(i) => ParamType::Int(i as usize),
            None => match v.as_float() {
                Some(f) => ParamType::Int(f.as_usize),
                None => ParamType::Int(*old),
            },
        },
        ParamType::String(old) => match v {
            ConfigValue::Text(s) => ParamType::String(s.clone()),
            _ => ParamType::String(old.clone()),
        },
    }
}

/// A parameter after the configuration `table` has been applied to it: the
/// value under the parameter's name, if any, overrides its value.
pub open spec fn value_overridden<T: ValuedParam>(p: T, table: ConfigTable) -> T {
    match table.lookup(p.param_name()) {
        Some(v) => p.with_value(overridden(p.param_value(), v)),
        None => p,
    }
}

/// Applies the configuration `toml_overrides` to each parameter in turn.
pub fn apply_toml_values_overrides<T: ValuedParam>(params: &mut Vec<T>, toml_overrides: &ConfigTable)
    ensures
        final(params)@.len() == old(params)@.len(),
        forall|i: int|
            0 <= i < old(params)@.len() ==> #[trigger] final(params)@[i] == value_overridden(
                old(params)@[i],
                *toml_overrides,
            ),
        forall|i: int|
            0 <= i < old(params)@.len() ==> #[trigger] final(params)@[i].param_name() == old(
                params,
            )@[i].param_name(),
        forall|i: int|
            0 <= i < old(params)@.len() ==> #[trigger] final(params)@[i].param_value() == match toml_overrides.lookup(
                old(params)@[i].param_name(),
            ) {
                Some(v) => overridden(old(params)@[i].param_value(), v),
                None => old(params)@[i].param_value(),
            },
{
    let ghost orig = params@;
    let n = params.len();
    let mut i: usize = 0;
    while i < n
        invariant
            n == orig.len(),
            params@.len() == n,
            i <= n,
            forall|j: int| 0 <= j < i ==> #[trigger] params@[j] == value_overridden(orig[j], *toml_overrides),
            forall|j: int| i <= j < n ==> #[trigger] params@[j] == orig[j],
        decreases n - i,
    {
        let found = toml_overrides.get(params[i].get_name());
        match found {
            Some(cv) => {
                let cur = params[i].get_mut();
                let nv = override_value(cur, cv);
                *cur = nv;
            },
            None => {},
        }
        i = i + 1;
    }
    proof {
        assert forall|j: int| 0 <= j < n implies #[trigger] params@[j].param_name() == orig[j].param_name() by {
            lemma_value_overridden(orig[j], *toml_overrides);
        }
        assert forall|j: int| 0 <= j < n implies #[trigger] params@[j].param_value() == match toml_overrides.lookup(
            orig[j].param_name(),
        ) {
            Some(v) => overridden(orig[j].param_value(), v),
            None => orig[j].param_value(),
        } by {
            lemma_value_overridden(orig[j], *toml_overrides);
        }
    }
}

/// A knob-driven parameter after a knob mapping: an integer under its name
/// gives its new knob index (cast to `usize`).
pub open spec fn remapped(p: CcParam, mapping: ConfigTable) -> CcParam {
    match mapping.lookup(p.name@) {
        Some(v) => match v.spec_integer() {
            Some(i) => CcParam { value: p.value, cc_index: i as usize, name: p.name },
            None => p,
        },
        None => p,
    }
}

/// Applies a knob mapping to the knob-driven parameters.
pub fn apply_toml_mapping(params: &mut Parameterized, toml_mapping: &ConfigTable)
    ensures
        final(params).name == old(params).name,
        final(params).non_cc_params == old(params).non_cc_params,
        match old(params).cc_params {
            None => final(params).cc_params is None,
            Some(v) => final(params).cc_params matches Some(w) && w@.len() == v@.len() && forall|i: int|
                0 <= i < v@.len() ==> #[trigger] w@[i] == remapped(v@[i], *toml_mapping),
        },
{
    let taken = params.cc_params.take();
    match taken {
        None => {},
        Some(mut v) => {
            let ghost orig = v@;
            let n = v.len();
            let mut i: usize = 0;
            while i < n
                invariant
                    n == orig.len(),
                    v@.len() == n,
                    i <= n,
                    forall|j: int| 0 <= j < i ==> #[trigger] v@[j] == remapped(orig[j], *toml_mapping),
                    forall|j: int| i <= j < n ==> #[trigger] v@[j] == orig[j],
                decreases n - i,
            {
                let found = toml_mapping.get(v[i].name);
                match found {
                    Some(val) => match val.as_integer() {
                        Some(idx) => {
                            v[i].cc_index = idx as usize;
                        },
                        None => {},
                    },
                    None => {},
                }
                i = i + 1;
            }
            params.cc_params = Some(v);
        },
    }
}

/// A knob-driven parameter after a configuration and a knob mapping.
pub open spec fn cc_after(p: CcParam, config: Option<ConfigTable>, mapping: Option<ConfigTable>) -> CcParam {
    let q = match config {
        Some(c) => value_overridden(p, c),
        None => p,
    };
    match mapping {
        Some(m) => remapped(q, m),
        None => q,
    }
}

/// How a configuration value overrides a parameter's value, case by case.
pub proof fn lemma_overridden_cases(p: ParamType, v: ConfigValue)
    ensures
        p is Float && v is Float ==> overridden(p, v) == ParamType::Float(v->Float_0.as_f32_bits),
        p is ZeroToOneFloat && v is Float ==> overridden(p, v) == ParamType::ZeroToOneFloat(
            v->Float_0.as_f32_bits,
        ),
        p is Int && v is Integer ==> overridden(p, v) == ParamType::Int(v->Integer_0 as usize),
        p is Int && v is Float ==> overridden(p, v) == ParamType::Int(v->Float_0.as_usize),
        p is String && v is Text ==> overridden(p, v) == ParamType::String(v->Text_0),
        (p is Float || p is ZeroToOneFloat) && !(v is Float) ==> overridden(p, v) == p,
        p is Int && !(v is Integer || v is Float) ==> overridden(p, v) == p,
        p is String && !(v is Text) ==> overridden(p, v) == p,
{
}

/// After a configuration and a knob mapping, a knob-driven parameter keeps
/// its name; its knob is the integer that the mapping gives under its name,
/// whatever the configuration; its value is the override of the value that
/// the configuration gives under its name, whatever the mapping.
pub proof fn lemma_cc_after(p: CcParam, config: Option<ConfigTable>, mapping: Option<ConfigTable>)
    ensures
        cc_after(p, config, mapping).name == p.name,
        cc_after(p, config, mapping).cc_index == match mapping {
            Some(m) => match m.lookup(p.name@) {
                Some(ConfigValue::Integer(i)) => i as usize,
                _ => p.cc_index,
            },
            None => p.cc_index,
        },
        cc_after(p, config, mapping).value == match config {
            Some(c) => match c.lookup(p.name@) {
                Some(v) => overridden(p.value, v),
                None => p.value,
            },
            None => p.value,
        },
        cc_after(p, config, mapping).value == cc_after(p, config, None).value,
        cc_after(p, config, mapping).cc_index == cc_after(p, None, mapping).cc_index,
{
}

/// Another parameter after a configuration.
pub open spec fn non_cc_after(p: NonCcParam, config: Option<ConfigTable>) -> NonCcParam {
    match config {
        Some(c) => value_overridden(p, c),
        None => p,
    }
}

/// The table a reference points to, if any.
pub open spec fn opt_table(t: Option<&ConfigTable>) -> Option<ConfigTable> {
    match t {
        Some(t) => Some(*t),
        None => None,
    }
}

impl Parameterized {
    /// Applies a configuration (`config`) to all parameters, then a knob
    /// mapping (`mapping`) to the knob-driven ones.
    pub fn apply_toml_overrides(&mut self, config: Option<&ConfigTable>, mapping: Option<&ConfigTable>)
        ensures
            final(self).name == old(self).name,
            match old(self).cc_params {
                None => final(self).cc_params is None,
                Some(v) => final(self).cc_params matches Some(w) && w@.len() == v@.len() && forall|i: int|
                    0 <= i < v@.len() ==> #[trigger] w@[i] == cc_after(v@[i], opt_table(config), opt_table(mapping)),
            },
            match old(self).non_cc_params {
                None => final(self).non_cc_params is None,
                Some(v) => final(self).non_cc_params matches Some(w) && w@.len() == v@.len() && forall|i: int|
                    0 <= i < v@.len() ==> #[trigger] w@[i] == non_cc_after(v@[i], opt_table(config)),
            },
    {
        if let Some(cfg) = config {
            let cc = self.cc_params.take();
            match cc {
                Some(mut v) => {
                    apply_toml_values_overrides(&mut v, cfg);
                    self.cc_params = Some(v);
                },
                None => {},
            }
            let non_cc = self.non_cc_params.take();
            match non_cc {
                Some(mut v) => {
                    apply_toml_values_overrides(&mut v, cfg);
                    self.non_cc_params = Some(v);
                },
                None => {},
            }
        }
        if let Some(m) = mapping {
            apply_toml_mapping(self, m);
        }
    }
}

/// Overriding a parameter's value keeps the kind of the parameter.
pub proof fn lemma_override_keeps_kind(p: ParamType, v: ConfigValue)
    ensures
        (p is Float) == (overridden(p, v) is Float),
        (p is ZeroToOneFloat) == (overridden(p, v) is ZeroToOneFloat),
        (p is Int) == (overridden(p, v) is Int),
        (p is String) == (overridden(p, v) is String),
{
}

/// A parameter after a configuration keeps its name; its value is the
/// override of the value under its name, if any.
pub proof fn lemma_value_overridden<T: ValuedParam>(p: T, table: ConfigTable)
    ensures
        value_overridden(p, table).param_name() == p.param_name(),
        value_overridden(p, table).param_value() == match table.lookup(p.param_name()) {
            Some(v) => overridden(p.param_value(), v),
            None => p.param_value(),
        },
{
    if let Some(v) = table.lookup(p.param_name()) {
        p.lemma_with_value(overridden(p.param_value(), v), overridden(p.param_value(), v));
    }
}

/// Applying the same configuration twice to a parameter gives what applying
/// it once gives.
pub proof fn lemma_override_idempotent<T: ValuedParam>(p: T, table: ConfigTable)
    ensures
        value_overridden(value_overridden(p, table), table) == value_overridden(p, table),
{
    if let Some(v) = table.lookup(p.param_name()) {
        let w = overridden(p.param_value(), v);
        p.lemma_with_value(w, overridden(w, v));
        assert(overridden(w, v) == w);
    }
}

/// Applying the same configuration and knob mapping twice to a knob-driven
/// parameter gives what applying them once gives.
pub proof fn lemma_cc_overrides_idempotent(p: CcParam, config: Option<ConfigTable>, mapping: Option<ConfigTable>)
    ensures
        cc_after(cc_after(p, config, mapping), config, mapping) == cc_after(p, config, mapping),
{
    if let Some(c) = config {
        lemma_override_idempotent(p, c);
        let q = value_overridden(p, c);
        if let Some(m) = mapping {
            let r = remapped(q, m);
            assert(value_overridden(r, c) == remapped(value_overridden(q, c), m));
        }
    }
}

/// Applying the same configuration twice to a parameter that no knob drives
/// gives what applying it once gives.
pub proof fn lemma_non_cc_overrides_idempotent(p: NonCcParam, config: Option<ConfigTable>)
    ensures
        non_cc_after(non_cc_after(p, config), config) == non_cc_after(p, config),
{
    if let Some(c) = config {
        lemma_override_idempotent(p, c);
    }
}

} // verus!
