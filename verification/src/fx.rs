//! The hashed collections of `rustc_hash` that the checker keeps: sets of
//! scope identifiers and of error keys, and type-parameter substitutions.
//! Each is named by its contents; the wrappers below state what each call
//! does to them.
use vstd::prelude::*;

use rustc_hash::FxBuildHasher;
use std::collections::{HashMap, HashSet};

use crate::type_info::{TypeInfo, TypeModel};

verus! {

#[verifier::external_type_specification]
#[verifier::external_body]
pub struct ExFxBuildHasher(FxBuildHasher);

/// A set of scope identifiers.
pub type ScopeIdSet = HashSet<u32, FxBuildHasher>;

/// A set of strings.
pub type KeySet = HashSet<String, FxBuildHasher>;

/// A map from type-parameter names to types.
pub type Substitutions = HashMap<String, TypeInfo, FxBuildHasher>;

/// The identifiers in a scope-identifier set.
pub uninterp spec fn scope_set_contents(s: HashSet<u32, FxBuildHasher>) -> Set<u32>;

/// The strings in a key set, as character sequences.
pub uninterp spec fn key_set_contents(s: HashSet<String, FxBuildHasher>) -> Set<Seq<char>>;

/// The entries of a substitution map: names to the models of their types.
pub uninterp spec fn substitution_contents(m: HashMap<String, TypeInfo, FxBuildHasher>) -> Map<
    Seq<char>,
    TypeModel,
>;

/// `FxHashSet::default()`: a set that holds nothing.
#[verifier::external_body]
pub(crate) fn scope_set_new() -> (r: ScopeIdSet)
    ensures
        scope_set_contents(r) == Set::<u32>::empty(),
{
    HashSet::default()
}

/// `HashSet::contains` on a scope-identifier set: whether `id` is held.
#[verifier::external_body]
pub(crate) fn scope_set_contains(s: &ScopeIdSet, id: u32) -> (r: bool)
    ensures
        r == scope_set_contents(*s).contains(id),
{
    s.contains(&id)
}

/// `HashSet::insert` on a scope-identifier set: afterwards `id` is held as well.
#[verifier::external_body]
pub(crate) fn scope_set_insert(s: &mut ScopeIdSet, id: u32)
    ensures
        scope_set_contents(*final(s)) == scope_set_contents(*old(s)).insert(id),
{
    s.insert(id);
}

/// `HashSet::remove` on a scope-identifier set: afterwards `id` is no longer held.
#[verifier::external_body]
pub(crate) fn scope_set_remove(s: &mut ScopeIdSet, id: u32)
    ensures
        scope_set_contents(*final(s)) == scope_set_contents(*old(s)).remove(id),
{
    s.remove(&id);
}

/// `FxHashSet::default()` for strings: a set that holds nothing.
#[verifier::external_body]
pub(crate) fn key_set_new() -> (r: KeySet)
    ensures
        key_set_contents(r) == Set::<Seq<char>>::empty(),
{
    HashSet::default()
}

/// `HashSet::contains` on a key set: whether a string with the characters of `key` is held.
#[verifier::external_body]
pub(crate) fn key_set_contains(s: &KeySet, key: &String) -> (r: bool)
    ensures
        r == key_set_contents(*s).contains(key@),
{
    s.contains(key)
}

/// `HashSet::insert` on a key set: afterwards `key` is held as well.
#[verifier::external_body]
pub(crate) fn key_set_insert(s: &mut KeySet, key: String)
    ensures
        key_set_contents(*final(s)) == key_set_contents(*old(s)).insert(key@),
{
    s.insert(key);
}

/// `FxHashMap::default()`: a map with no entries.
#[verifier::external_body]
pub(crate) fn substitution_new() -> (r: Substitutions)
    ensures
        substitution_contents(r).dom() == Set::<Seq<char>>::empty(),
{
    HashMap::default()
}

/// `HashMap::get`: the type mapped from `name`, if any.
#[verifier::external_body]
pub(crate) fn substitution_get<'a>(m: &'a Substitutions, name: &String) -> (r: Option<&'a TypeInfo>)
    ensures
        match r {
            Some(t) => substitution_contents(*m).contains_key(name@) && t@ == substitution_contents(
                *m,
            )[name@],
            None => !substitution_contents(*m).contains_key(name@),
        },
{
    m.get(name)
}

/// `HashMap::contains_key`: whether `name` is mapped.
#[verifier::external_body]
pub(crate) fn substitution_contains_key(m: &Substitutions, name: &String) -> (r: bool)
    ensures
        r == substitution_contents(*m).contains_key(name@),
{
    m.contains_key(name)
}

/// `HashMap::insert`: afterwards `name` maps to `t`, every other entry unchanged.
#[verifier::external_body]
pub(crate) fn substitution_insert(m: &mut Substitutions, name: String, t: TypeInfo)
    ensures
        substitution_contents(*final(m)) == substitution_contents(*old(m)).insert(name@, t@),
{
    m.insert(name, t);
}

/// `HashMap::is_empty`: whether the map has no entries.
#[verifier::external_body]
pub(crate) fn substitution_is_empty(m: &Substitutions) -> (r: bool)
    ensures
        r == (substitution_contents(*m).dom() == Set::<Seq<char>>::empty()),
{
    m.is_empty()
}

} // verus!
