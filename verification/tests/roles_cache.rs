use stores::roles_cache::RolesCacheImpl;
use stores::types::StoresRole;

#[test]
fn empty_cache_has_nothing() {
    let cache = RolesCacheImpl::default();
    assert!(!cache.contains(1));
    assert_eq!(cache.get(1), vec![]);
}

#[test]
fn read_after_write() {
    let mut cache = RolesCacheImpl::default();
    cache.add_roles(1, &vec![StoresRole::User, StoresRole::Moderator]);
    assert!(cache.contains(1));
    assert_eq!(cache.get(1), vec![StoresRole::User, StoresRole::Moderator]);
    assert!(!cache.contains(2));
    assert_eq!(cache.get(2), vec![]);
}

#[test]
fn later_write_replaces_earlier() {
    let mut cache = RolesCacheImpl::default();
    cache.add_roles(1, &vec![StoresRole::User]);
    cache.add_roles(1, &vec![StoresRole::Superuser]);
    assert_eq!(cache.get(1), vec![StoresRole::Superuser]);
}

#[test]
fn remove_drops_one_entry() {
    let mut cache = RolesCacheImpl::default();
    cache.add_roles(1, &vec![StoresRole::User]);
    cache.add_roles(2, &vec![StoresRole::Moderator]);
    cache.remove(1);
    assert!(!cache.contains(1));
    assert_eq!(cache.get(1), vec![]);
    assert_eq!(cache.get(2), vec![StoresRole::Moderator]);
    cache.remove(7);
    assert_eq!(cache.get(2), vec![StoresRole::Moderator]);
}

#[test]
fn clear_drops_everything() {
    let mut cache = RolesCacheImpl::default();
    cache.add_roles(1, &vec![StoresRole::User]);
    cache.add_roles(2, &vec![StoresRole::PlatformAdmin]);
    cache.clear();
    assert!(!cache.contains(1));
    assert!(!cache.contains(2));
    assert_eq!(cache.get(2), vec![]);
}

#[test]
fn empty_role_list_is_an_entry() {
    let mut cache = RolesCacheImpl::default();
    cache.add_roles(3, &vec![]);
    assert!(cache.contains(3));
    assert_eq!(cache.get(3), vec![]);
}
