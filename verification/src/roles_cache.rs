//! A cache of the roles each user holds, keyed by the user's id.
use std::collections::HashMap;

use vstd::prelude::*;

use crate::types::StoresRole;

verus! {

broadcast use vstd::std_specs::hash::group_hash_axioms;

/// The roles that a cache whose entries are `entries` hands out for user
/// `id`: the stored ones, or none when the user has no entry.
pub open spec fn cached_roles(entries: Map<i32, Seq<StoresRole>>, id: i32) -> Seq<StoresRole> {
    if entries.contains_key(id) {
        entries[id]
    } else {
        Seq::empty()
    }
}

/// The cached roles of users, by user id.
pub struct RolesCacheImpl {
    roles_cache: HashMap<i32, Vec<StoresRole>>,
}

/// A copy of `roles`.
fn copy_roles(roles: &Vec<StoresRole>) -> (r: Vec<StoresRole>)
    ensures
        r@ == roles@,
{
    let mut r: Vec<StoresRole> = Vec::new();
    for i in 0..roles.len()
        invariant
            r@ == roles@.subrange(0, i as int),
    {
        r.push(roles[i]);
    }
    assert(r@ =~= roles@);
    r
}

impl RolesCacheImpl {
    /// The entries of the cache: for each user id with an entry, its roles.
    pub closed spec fn entries(&self) -> Map<i32, Seq<StoresRole>> {
        self.roles_cache@.map_values(|v: Vec<StoresRole>| v@)
    }

    /// The roles cached for user `user_id`; none when the user has no entry.
    pub fn get(&self, user_id: i32) -> (r: Vec<StoresRole>)
        ensures
            r@ == cached_roles(self.entries(), user_id),
    {
        match self.roles_cache.get(&user_id) {
            Some(roles) => copy_roles(roles),
            None => Vec::new(),
        }
    }

    /// Drops every entry.
    pub fn clear(&mut self)
        ensures
            final(self).entries() == Map::<i32, Seq<StoresRole>>::empty(),
    {
        self.roles_cache.clear();
        assert(self.entries() =~= Map::<i32, Seq<StoresRole>>::empty());
    }

    /// Drops the entry of user `id`, if there is one.
    pub fn remove(&mut self, id: i32)
        ensures
            final(self).entries() == old(self).entries().remove(id),
    {
        let ghost before = self.roles_cache@;
        self.roles_cache.remove(&id);
        assert(self.entries() =~= before.map_values(|v: Vec<StoresRole>| v@).remove(id));
    }

    /// Whether user `id` has an entry.
    pub fn contains(&self, id: i32) -> (r: bool)
        ensures
            r == self.entries().contains_key(id),
    {
        self.roles_cache.contains_key(&id)
    }

    /// Stores `roles` as the entry of user `id`, replacing any earlier one.
    pub fn add_roles(&mut self, id: i32, roles: &Vec<StoresRole>)
        ensures
            final(self).entries() == old(self).entries().insert(id, roles@),
    {
        let ghost before = self.roles_cache@;
        let copy = copy_roles(roles);
        self.roles_cache.insert(id, copy);
        assert(self.entries() =~= before.map_values(|v: Vec<StoresRole>| v@).insert(id, roles@));
    }
}

impl Default for RolesCacheImpl {
    /// An empty cache.
    fn default() -> (r: Self)
        ensures
            r.entries() == Map::<i32, Seq<StoresRole>>::empty(),
    {
        let r = RolesCacheImpl { roles_cache: HashMap::new() };
        assert(r.entries() =~= Map::<i32, Seq<StoresRole>>::empty());
        r
    }
}

/// A read after a write gives back what was written: after `add_roles(id,
/// roles)` the cache hands out `roles` for `id`.
pub proof fn lemma_get_after_add(entries: Map<i32, Seq<StoresRole>>, id: i32, roles: Seq<StoresRole>)
    ensures
        cached_roles(entries.insert(id, roles), id) == roles,
{
}

/// Writing the entry of one user leaves what the cache hands out for every
/// other user unchanged.
pub proof fn lemma_add_keeps_others(
    entries: Map<i32, Seq<StoresRole>>,
    id: i32,
    other: i32,
    roles: Seq<StoresRole>,
)
    requires
        other != id,
    ensures
        cached_roles(entries.insert(id, roles), other) == cached_roles(entries, other),
{
}

/// After `remove(id)` the user has no entry and no roles are handed out for
/// them; every other user keeps theirs.
pub proof fn lemma_get_after_remove(entries: Map<i32, Seq<StoresRole>>, id: i32, other: i32)
    ensures
        !entries.remove(id).contains_key(id),
        cached_roles(entries.remove(id), id) == Seq::<StoresRole>::empty(),
        other != id ==> cached_roles(entries.remove(id), other) == cached_roles(entries, other),
{
}

/// After `clear` no user has an entry or roles.
pub proof fn lemma_get_after_clear(id: i32)
    ensures
        !Map::<i32, Seq<StoresRole>>::empty().contains_key(id),
        cached_roles(Map::<i32, Seq<StoresRole>>::empty(), id) == Seq::<StoresRole>::empty(),
{
}

} // verus!
