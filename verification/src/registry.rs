//! The index of the repository: a concurrent map from the name of each
//! database to the slot that holds it.
//!
//! What the map holds is named by [`index_contents`]; the functions of this
//! module say what each call does to that and what it hands back. None of
//! them is proved: they state what the map's own documentation promises.
//! None keeps a reference into the map once it has returned.

use crate::outcome::name_views;
use vstd::prelude::*;

verus! {

/// `dashmap::DashMap`: the concurrent map.
#[verifier::external_type_specification]
#[verifier::external_body]
#[verifier::reject_recursive_types(K)]
#[verifier::reject_recursive_types(V)]
#[verifier::reject_recursive_types(S)]
pub struct ExDashMap<K, V, S>(dashmap::DashMap<K, V, S>);

/// The slot that the index holds for each name.
pub uninterp spec fn index_contents(m: dashmap::DashMap<String, usize>) -> Map<Seq<char>, usize>;

/// `DashMap::new`: an empty map.
#[verifier::external_body]
pub(crate) fn index_new() -> (m: dashmap::DashMap<String, usize>)
    ensures
        forall|name: Seq<char>| !index_contents(m).contains_key(name),
{
    dashmap::DashMap::new()
}

/// `DashMap::get`: the slot under `name`, if the map holds one.
#[verifier::external_body]
pub(crate) fn index_get(m: &dashmap::DashMap<String, usize>, name: &str) -> (r: Option<usize>)
    ensures
        r == if index_contents(*m).contains_key(name@) {
            Some(index_contents(*m)[name@])
        } else {
            None
        },
{
    m.get(name).map(|slot| *slot)
}

/// `DashMap::insert`: puts `slot` under `name` and returns the slot that
/// was there before, if there was one.
#[verifier::external_body]
pub(crate) fn index_insert(m: &mut dashmap::DashMap<String, usize>, name: String, slot: usize) -> (r:
    Option<usize>)
    ensures
        index_contents(*final(m)) == index_contents(*old(m)).insert(name@, slot),
        r == if index_contents(*old(m)).contains_key(name@) {
            Some(index_contents(*old(m))[name@])
        } else {
            None
        },
{
    m.insert(name, slot)
}

/// `DashMap::remove`: takes out what is under `name` and returns the slot
/// that was there, if there was one.
#[verifier::external_body]
pub(crate) fn index_remove(m: &mut dashmap::DashMap<String, usize>, name: &str) -> (r: Option<
    usize,
>)
    ensures
        index_contents(*final(m)) == index_contents(*old(m)).remove(name@),
        r == if index_contents(*old(m)).contains_key(name@) {
            Some(index_contents(*old(m))[name@])
        } else {
            None
        },
{
    m.remove(name).map(|(_, slot)| slot)
}

/// `DashMap::is_empty`: whether the map holds nothing.
#[verifier::external_body]
pub(crate) fn index_is_empty(m: &dashmap::DashMap<String, usize>) -> (r: bool)
    ensures
        r == (forall|name: Seq<char>| !index_contents(*m).contains_key(name)),
{
    m.is_empty()
}

/// `DashMap::clear`: takes everything out.
#[verifier::external_body]
pub(crate) fn index_clear(m: &mut dashmap::DashMap<String, usize>)
    ensures
        forall|name: Seq<char>| !index_contents(*final(m)).contains_key(name),
{
    m.clear()
}

/// `DashMap::iter`: every name that the map holds, once each, in the order
/// in which the map happens to walk them.
#[verifier::external_body]
pub(crate) fn index_names(m: &dashmap::DashMap<String, usize>) -> (r: Vec<String>)
    ensures
        name_views(r@).no_duplicates(),
        name_views(r@).to_set() == index_contents(*m).dom(),
{
    m.iter().map(|entry| entry.key().clone()).collect()
}

} // verus!
