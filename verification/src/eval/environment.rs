//! Environments of the evaluator: the variables of one scope.
//!
//! The evaluator keeps all environments in one list and names each by its
//! index there. An environment names the one around it by that index,
//! which is always smaller than its own.

use crate::object::{
    copy_entries, entries_view, hash_get, hash_insert, insert, lookup, HashKey, KeyView, Object,
    Value,
};
use vstd::prelude::*;

verus! {

#[derive(Debug, PartialEq)]
pub struct Environment {
    /// The variables, each under its name as a string key.
    pub values: Vec<(HashKey, Object)>,
    /// The index of the environment around this one.
    pub outer: Option<usize>,
}

/// An environment as a mathematical value.
#[verifier::ext_equal]
pub struct EnvView {
    pub values: Seq<(KeyView, Value)>,
    pub outer: Option<usize>,
}

impl View for Environment {
    type V = EnvView;

    open spec fn view(&self) -> EnvView {
        EnvView { values: entries_view(self.values@), outer: self.outer }
    }
}

impl EnvView {
    /// What the environment itself holds under `name`.
    pub open spec fn get(self, name: Seq<char>) -> Option<Value> {
        lookup(self.values, KeyView::Str(name))
    }

    /// The environment with `value` under `name`.
    pub open spec fn set(self, name: Seq<char>, value: Value) -> EnvView {
        EnvView { values: insert(self.values, KeyView::Str(name), value), ..self }
    }
}

impl Clone for Environment {
    fn clone(&self) -> (r: Environment)
        ensures
            r@ == self@,
    {
        Environment { values: copy_entries(&self.values), outer: self.outer }
    }
}

impl Default for Environment {
    /// An environment without variables and with none around it.
    fn default() -> (env: Environment)
        ensures
            env@ == (EnvView { values: Seq::empty(), outer: None }),
    {
        Environment::new(None)
    }
}

impl Environment {
    /// An environment without variables inside the one with index `outer`.
    pub fn new(outer: Option<usize>) -> (env: Environment)
        ensures
            env@ == (EnvView { values: Seq::empty(), outer }),
    {
        let env = Environment { values: Vec::new(), outer };
        assert(env@.values =~= Seq::empty());
        env
    }

    /// What this environment itself holds under `name`. The environments
    /// around it are the evaluator's to search.
    pub fn get(&self, name: &String) -> (r: Option<Object>)
        ensures
            match r {
                Some(value) => self@.get(name@) == Some(value@),
                None => self@.get(name@) is None,
            },
    {
        let key = HashKey::String(name.clone());
        hash_get(&self.values, &key)
    }

    /// Stores `value` under `name`.
    pub fn set(&mut self, name: &String, value: Object)
        ensures
            final(self)@ == old(self)@.set(name@, value@),
    {
        hash_insert(&mut self.values, HashKey::String(name.clone()), value);
    }
}

} // verus!
