//! The value sources a resolver can query: the request's declared
//! variables, and a snapshot of the process environment that the caller
//! hands in, so that resolution itself stays a pure function of its
//! inputs.

use vstd::prelude::*;

use crate::table::spec_table_get;
use crate::table::Table;

verus! {

/// A source of values for placeholder keys.
pub trait ValuePicker {
    /// The value this source offers for a key, as a function of the
    /// source's own state.
    spec fn picks(&self, key: Seq<char>) -> Option<Seq<char>>;

    /// Offers a value for the placeholder key, or passes.
    fn pick_for(&self, placeholder: &str) -> (r: Option<String>)
        ensures
            r.deep_view() == self.picks(placeholder@),
    ;
}

/// Picks values from the request's declared variables.
pub struct VariablesPicker<'v> {
    pub vars: &'v Table<String>,
}

impl<'v> VariablesPicker<'v> {
    /// A picker over the given variables table, commonly the request's
    /// `variables` field.
    pub fn from(vars: &'v Table<String>) -> (r: VariablesPicker<'v>)
        ensures
            r.vars@ == vars@,
    {
        VariablesPicker { vars }
    }
}

impl<'v> ValuePicker for VariablesPicker<'v> {
    open spec fn picks(&self, key: Seq<char>) -> Option<Seq<char>> {
        spec_table_get(self.vars@, key)
    }

    fn pick_for(&self, placeholder: &str) -> (r: Option<String>)
        ensures
            r.deep_view() == self.picks(placeholder@),
    {
        match self.vars.get(placeholder) {
            Some(v) => Some(v.clone()),
            None => None,
        }
    }
}

/// Picks values from a snapshot of the process environment. The snapshot
/// is handed in by the caller: looking the environment up is the caller's
/// business, and resolution stays a function of the snapshot alone.
pub struct EnvVarPicker {
    pub vars: Table<String>,
}

impl EnvVarPicker {
    /// A picker over the given environment snapshot.
    pub fn new(pairs: Vec<(String, String)>) -> (r: EnvVarPicker)
        ensures
            r.vars@ == pairs.deep_view(),
    {
        EnvVarPicker { vars: Table::new(pairs) }
    }
}

impl ValuePicker for EnvVarPicker {
    open spec fn picks(&self, key: Seq<char>) -> Option<Seq<char>> {
        spec_table_get(self.vars@, key)
    }

    fn pick_for(&self, placeholder: &str) -> (r: Option<String>)
        ensures
            r.deep_view() == self.picks(placeholder@),
    {
        match self.vars.get(placeholder) {
            Some(v) => Some(v.clone()),
            None => None,
        }
    }
}

/// One slot of a mixed source chain: any of the library's pickers, or a
/// table of answers a caller collected itself (say, by asking the user).
pub enum Source<'v> {
    Env(EnvVarPicker),
    Variables(VariablesPicker<'v>),
    Answers(Table<String>),
}

impl<'v> ValuePicker for Source<'v> {
    open spec fn picks(&self, key: Seq<char>) -> Option<Seq<char>> {
        match self {
            Source::Env(p) => p.picks(key),
            Source::Variables(p) => p.picks(key),
            Source::Answers(t) => spec_table_get(t@, key),
        }
    }

    fn pick_for(&self, placeholder: &str) -> (r: Option<String>)
        ensures
            r.deep_view() == self.picks(placeholder@),
    {
        match self {
            Source::Env(p) => p.pick_for(placeholder),
            Source::Variables(p) => p.pick_for(placeholder),
            Source::Answers(t) => match t.get(placeholder) {
                Some(v) => Some(v.clone()),
                None => None,
            },
        }
    }
}

} // verus!
