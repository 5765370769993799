//! The values of a TOML configuration, as the configuration logic reads them.
//!
//! A TOML document is parsed outside the library; what the logic reads of it
//! is held here as plain values. A float keeps its bit pattern together with
//! the results of the three conversions that the logic applies to it.

use vstd::prelude::*;
use crate::text::same_text;

verus! {

/// A TOML float. `bits` is the bit pattern of the `f64`; `as_f32_bits` is the
/// bit pattern of `value as f32`; `as_unit_f32_bits` is that of
/// `value.clamp(0.0, 1.0) as f32`; `as_usize` is `value as usize`.
#[derive(Debug, Clone, Copy, PartialEq, Eq, Structural)]
pub struct ConfigFloat {
    pub bits: u64,
    pub as_f32_bits: u32,
    pub as_unit_f32_bits: u32,
    pub as_usize: usize,
}

/// One TOML value.
#[derive(Debug)]
pub enum ConfigValue {
    Text(String),
    Integer(i64),
    Float(ConfigFloat),
    Boolean(bool),
    /// A date or time, kept in its written form.
    Datetime(String),
    Array(Vec<ConfigValue>),
    Table(ConfigTable),
}

/// A TOML table: its keys with their values, in the order the parser gave.
#[derive(Debug)]
pub struct ConfigTable {
    pub entries: Vec<(String, ConfigValue)>,
}

/// The value stored under `key` among `entries`: that of the first entry
/// with this key (a TOML table holds each key once).
pub open spec fn entry_lookup(entries: Seq<(String, ConfigValue)>, key: Seq<char>) -> Option<ConfigValue>
    decreases entries.len(),
{
    if entries.len() == 0 {
        None
    } else if entries[0].0@ == key {
        Some(entries[0].1)
    } else {
        entry_lookup(entries.drop_first(), key)
    }
}

/// The value under a key is that of the first entry with the key, and there
/// is none exactly when no entry has the key.
pub proof fn lemma_entry_lookup(entries: Seq<(String, ConfigValue)>, key: Seq<char>)
    ensures
        entry_lookup(entries, key) is None <==> forall|i: int| 0 <= i < entries.len() ==> #[trigger] entries[i].0@ != key,
        entry_lookup(entries, key) is Some ==> exists|i: int|
            0 <= i < entries.len() && #[trigger] entries[i].0@ == key && entry_lookup(entries, key) == Some(entries[i].1)
                && forall|j: int| 0 <= j < i ==> entries[j].0@ != key,
    decreases entries.len(),
{
    if entries.len() > 0 {
        let rest = entries.drop_first();
        lemma_entry_lookup(rest, key);
        if entries[0].0@ != key {
            assert forall|i: int| 1 <= i < entries.len() implies #[trigger] entries[i].0@ == rest[i - 1].0@ by {}
            if entry_lookup(rest, key) is None {
                assert forall|i: int| 0 <= i < entries.len() implies #[trigger] entries[i].0@ != key by {
                    if i > 0 {
                        assert(rest[i - 1].0@ != key);
                    }
                }
            } else {
                let i = choose|i: int| 0 <= i < rest.len() && #[trigger] rest[i].0@ == key && entry_lookup(rest, key)
                    == Some(rest[i].1) && forall|j: int| 0 <= j < i ==> rest[j].0@ != key;
                assert(entries[i + 1] == rest[i]);
                assert forall|j: int| 0 <= j < i + 1 implies entries[j].0@ != key by {
                    if j > 0 {
                        assert(entries[j] == rest[j - 1]);
                    }
                }
            }
        } else {
            assert(entries[0].0@ == key);
        }
    }
}

impl ConfigTable {
    /// The value under `key`.
    pub open spec fn lookup(self, key: Seq<char>) -> Option<ConfigValue> {
        entry_lookup(self.entries@, key)
    }

    /// An empty table.
    pub fn new() -> (table: ConfigTable)
        ensures
            table.entries@.len() == 0,
            forall|k: Seq<char>| table.lookup(k) is None,
    {
        ConfigTable { entries: Vec::new() }
    }

    /// The value under `key`, as `toml::Table::get` gives it.
    pub fn get(&self, key: &str) -> (found: Option<&ConfigValue>)
        ensures
            match found {
                Some(v) => self.lookup(key@) == Some(*v),
                None => self.lookup(key@) is None,
            },
    {
        let n = self.entries.len();
        let mut i: usize = 0;
        assert(self.entries@.skip(0) =~= self.entries@);
        while i < n
            invariant
                n == self.entries@.len(),
                i <= n,
                self.lookup(key@) == entry_lookup(self.entries@.skip(i as int), key@),
            decreases n - i,
        {
            assert(self.entries@.skip(i as int).drop_first() =~= self.entries@.skip(i + 1));
            if same_text(self.entries[i].0.as_str(), key) {
                return Some(&self.entries[i].1);
            }
            i = i + 1;
        }
        None
    }
}

impl ConfigValue {
    /// The integer this value holds, as `toml::Value::as_integer` gives it.
    pub open spec fn spec_integer(self) -> Option<i64> {
        match self {
            ConfigValue::Integer(i) => Some(i),
            _ => None,
        }
    }

    /// The float this value holds, as `toml::Value::as_float` gives it.
    pub open spec fn spec_float(self) -> Option<ConfigFloat> {
        match self {
            ConfigValue::Float(f) => Some(f),
            _ => None,
        }
    }

    /// The table this value holds, as `toml::Value::as_table` gives it.
    pub open spec fn spec_table(self) -> Option<ConfigTable> {
        match self {
            ConfigValue::Table(t) => Some(t),
            _ => None,
        }
    }

    /// The text this value holds, as `toml::Value::as_str` gives it.
    pub open spec fn spec_text(self) -> Option<Seq<char>> {
        match self {
            ConfigValue::Text(s) => Some(s@),
            _ => None,
        }
    }

    pub fn as_integer(&self) -> (i: Option<i64>)
        ensures
            i == self.spec_integer(),
    {
        match self {
            ConfigValue::Integer(i) => Some(*i),
            _ => None,
        }
    }

    pub fn as_float(&self) -> (f: Option<ConfigFloat>)
        ensures
            f == self.spec_float(),
    {
        match self {
            ConfigValue::Float(f) => Some(*f),
            _ => None,
        }
    }

    pub fn as_table(&self) -> (t: Option<&ConfigTable>)
        ensures
            match t {
                Some(t) => self.spec_table() == Some(*t),
                None => self.spec_table() is None,
            },
    {
        match self {
            ConfigValue::Table(t) => Some(t),
            _ => None,
        }
    }

    pub fn as_str(&self) -> (s: Option<&str>)
        ensures
            match s {
                Some(s) => self.spec_text() == Some(s@),
                None => self.spec_text() is None,
            },
    {
        match self {
            ConfigValue::Text(s) => Some(s.as_str()),
            _ => None,
        }
    }

    /// The value under `key` when this value is a table, as
    /// `toml::Value::get` gives it for a key.
    pub fn get(&self, key: &str) -> (found: Option<&ConfigValue>)
        ensures
            match found {
                Some(v) => self.spec_table() matches Some(t) && t.lookup(key@) == Some(*v),
                None => self.spec_table() matches Some(t) ==> t.lookup(key@) is None,
            },
    {
        match self {
            ConfigValue::Table(t) => t.get(key),
            _ => None,
        }
    }
}

} // verus!
