//! Scopes and their names.

use vstd::prelude::*;
use crate::text::{is_name_char, name_char};

verus! {

/// A region of a text, by name.
pub enum Scope<'a> {
    /// What stands before any declaration. Every defined scope sees it too.
    Global,
    /// A scope that the text declares with `@` and this name.
    DefinedScope(&'a str),
}

/// The name of the global scope.
pub open spec fn global_name() -> Seq<char> {
    "global"@
}

/// A scope name is not empty and made of ASCII letters, ASCII digits, `_`
/// and `-`.
pub open spec fn valid_name(name: Seq<char>) -> bool {
    &&& name.len() > 0
    &&& forall|i: int| 0 <= i < name.len() ==> is_name_char(#[trigger] name[i])
}

impl<'a> Scope<'a> {
    /// The name under which a text declares this scope.
    pub open spec fn name(self) -> Seq<char> {
        match self {
            Scope::Global => global_name(),
            Scope::DefinedScope(name) => name@,
        }
    }
}

impl<'a> From<&'a str> for Scope<'a> {
    fn from(value: &'a str) -> (scope: Self) {
        Self::DefinedScope(value)
    }
}

impl<'a> vstd::std_specs::convert::FromSpecImpl<&'a str> for Scope<'a> {
    open spec fn obeys_from_spec() -> bool {
        true
    }

    open spec fn from_spec(value: &'a str) -> Self {
        Scope::DefinedScope(value)
    }
}

impl<'a> Into<&'a str> for Scope<'a> {
    fn into(self) -> (name: &'a str) {
        match self {
            Scope::Global => "global",
            Scope::DefinedScope(name) => name,
        }
    }
}

impl<'a> vstd::std_specs::convert::IntoSpecImpl<&'a str> for Scope<'a> {
    open spec fn obeys_into_spec() -> bool {
        true
    }

    open spec fn into_spec(self) -> &'a str {
        match self {
            Scope::Global => "global",
            Scope::DefinedScope(name) => name,
        }
    }
}

/// Whether `name` is a valid scope name.
pub fn valid_chars(name: &[char]) -> (valid: bool)
    ensures
        valid == valid_name(name@),
{
    if name.len() == 0 {
        return false;
    }
    let mut i: usize = 0;
    while i < name.len()
        invariant
            i <= name.len(),
            forall|j: int| 0 <= j < i ==> is_name_char(#[trigger] name@[j]),
        decreases name.len() - i,
    {
        if !name_char(name[i]) {
            return false;
        }
        i += 1;
    }
    true
}

/// Whether `name` is a valid scope name.
pub fn is_valid_scope_name(name: &str) -> (valid: bool)
    ensures
        valid == valid_name(name@),
{
    let mut empty = true;
    for c in it: name.chars()
        invariant
            it.seq() == name@,
            empty == (it.index() == 0),
            forall|j: int| 0 <= j < it.index() ==> is_name_char(#[trigger] name@[j]),
    {
        if !name_char(c) {
            return false;
        }
        empty = false;
    }
    !empty
}

/// The global scope's own name is a valid scope name.
pub proof fn lemma_global_name_is_valid()
    ensures
        valid_name(global_name()),
{
    reveal_strlit("global");
}

/// The name that `Into` hands out is the scope's name.
pub proof fn lemma_into_gives_name(scope: Scope<'_>)
    ensures
        vstd::std_specs::convert::IntoSpec::<&str>::into_spec(scope)@ == scope.name(),
{
}

} // verus!
