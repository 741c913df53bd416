use stores::acl::{check, check_with_rule, Acl, AclError, Action, ApplicationAcl, OwnerScope, PublicScope, Resource, Rule, UnauthorizedAcl};
use stores::types::{ModerationStatus, StoresRole, UserId};

#[test]
fn test_super_user_for_stores() {
    let acl = ApplicationAcl::new(vec![StoresRole::Superuser], UserId(1232));
    let s = OwnerScope;
    let resource = UserId(1);

    assert_eq!(
        acl.allows(Resource::Stores, Action::All, &s, Some(Rule::Any), Some(&resource)).unwrap(),
        true,
        "ACL does not allow all actions on store for superuser."
    );
    assert_eq!(
        acl.allows(Resource::Stores, Action::Read, &s, Some(Rule::Any), Some(&resource)).unwrap(),
        true,
        "ACL does not allow read action on store for superuser."
    );
    assert_eq!(
        acl.allows(Resource::Stores, Action::Create, &s, Some(Rule::Any), Some(&resource)).unwrap(),
        true,
        "ACL does not allow  create actions on store for superuser."
    );
    assert_eq!(
        acl.allows(Resource::Stores, Action::Update, &s, Some(Rule::Any), Some(&resource)).unwrap(),
        true,
        "ACL does not allow update actions on store for superuser."
    );
    assert_eq!(
        acl.allows(Resource::Stores, Action::Delete, &s, Some(Rule::Any), Some(&resource)).unwrap(),
        true,
        "ACL does not allow  delete actions on store for superuser."
    );
    assert_eq!(
        acl.allows(Resource::Stores, Action::Moderate, &s, Some(Rule::Any), Some(&resource)).unwrap(),
        true,
        "ACL does not allow moderate actions on store for superuser."
    );
}

#[test]
fn test_ordinary_user_for_stores() {
    let user_id = UserId(2);
    let acl = ApplicationAcl::new(vec![StoresRole::User], user_id);
    let s = OwnerScope;
    let resource = user_id;

    assert_eq!(
        acl.allows(Resource::Stores, Action::All, &s, Some(Rule::Any), Some(&resource)).unwrap(),
        false,
        "ACL allows all actions on store for ordinary_user."
    );
    assert_eq!(
        acl.allows(Resource::Stores, Action::Read, &s, Some(Rule::Any), Some(&resource)).unwrap(),
        true,
        "ACL does not allow read action on store for ordinary_user."
    );
    assert_eq!(
        acl.allows(Resource::Stores, Action::Create, &s, Some(Rule::Any), Some(&resource)).unwrap(),
        true,
        "ACL does not allow create actions on store for ordinary_user."
    );
    assert_eq!(
        acl.allows(
            Resource::Stores,
            Action::Update,
            &s,
            Some(Rule::ModerationStatus(ModerationStatus::Draft)),
            Some(&resource)
        )
        .unwrap(),
        true,
        "ACL does not allow update actions on store for ordinary_user."
    );
    assert_eq!(
        acl.allows(Resource::Stores, Action::Delete, &s, Some(Rule::Any), Some(&resource)).unwrap(),
        true,
        "ACL does not allow delete actions on store for ordinary_user."
    );
    assert_eq!(
        acl.allows(Resource::Stores, Action::Moderate, &s, Some(Rule::Any), Some(&resource)).unwrap(),
        false,
        "ACL allows moderate actions on store for ordinary_user."
    );
}

#[test]
fn test_moderator_for_stores() {
    let acl = ApplicationAcl::new(vec![StoresRole::Moderator], UserId(32));
    let s = OwnerScope;
    let resource = UserId(1);

    assert_eq!(
        acl.allows(Resource::Stores, Action::All, &s, Some(Rule::Any), Some(&resource)).unwrap(),
        false,
        "ACL allows all actions on store for moderator."
    );
    assert_eq!(
        acl.allows(
            Resource::Stores,
            Action::Read,
            &s,
            Some(Rule::ModerationStatus(ModerationStatus::Moderation)),
            Some(&resource)
        )
        .unwrap(),
        true,
        "ACL does not allow read action on store for moderator."
    );
    assert_eq!(
        acl.allows(Resource::Stores, Action::Create, &s, Some(Rule::Any), Some(&resource)).unwrap(),
        false,
        "ACL allows create actions on store for moderator."
    );
    assert_eq!(
        acl.allows(Resource::Stores, Action::Update, &s, Some(Rule::Any), Some(&resource)).unwrap(),
        false,
        "ACL allows update actions on store for moderator."
    );
    assert_eq!(
        acl.allows(Resource::Stores, Action::Delete, &s, Some(Rule::Any), Some(&resource)).unwrap(),
        false,
        "ACL allows delete actions on store for moderator."
    );
    assert_eq!(
        acl.allows(Resource::Stores, Action::Moderate, &s, Some(Rule::Any), Some(&resource)).unwrap(),
        true,
        "ACL does not allow moderate actions on store for moderator."
    );
}

#[test]
fn mod_test_super_user_for_user_roles() {
    let acl = ApplicationAcl::new(vec![StoresRole::Superuser], UserId(1232));
    let s = OwnerScope;
    let resource = UserId(1);

    assert_eq!(acl.allows(Resource::UserRoles, Action::All, &s, Some(Rule::Any), Some(&resource)).unwrap(), true);
    assert_eq!(acl.allows(Resource::UserRoles, Action::Read, &s, Some(Rule::Any), Some(&resource)).unwrap(), true);
    assert_eq!(acl.allows(Resource::UserRoles, Action::Create, &s, Some(Rule::Any), Some(&resource)).unwrap(), true);
}

#[test]
fn mod_test_user_for_user_roles() {
    let acl = ApplicationAcl::new(vec![StoresRole::User], UserId(2));
    let s = OwnerScope;
    let resource = UserId(1);

    assert_eq!(acl.allows(Resource::UserRoles, Action::All, &s, Some(Rule::Any), Some(&resource)).unwrap(), false);
    assert_eq!(acl.allows(Resource::UserRoles, Action::Read, &s, Some(Rule::Any), Some(&resource)).unwrap(), false);
    assert_eq!(acl.allows(Resource::UserRoles, Action::Create, &s, Some(Rule::Any), Some(&resource)).unwrap(), false);
}

#[test]
fn user_cannot_update_someone_elses_store() {
    let acl = ApplicationAcl::new(vec![StoresRole::User], UserId(2));
    let s = OwnerScope;
    let other = UserId(3);
    let rule = Some(Rule::ModerationStatus(ModerationStatus::Draft));
    assert_eq!(acl.allows(Resource::Stores, Action::Update, &s, rule, Some(&other)).unwrap(), false);
    assert_eq!(acl.allows(Resource::Stores, Action::Update, &s, rule, None).unwrap(), false);
}

#[test]
fn user_cannot_update_own_store_in_moderation() {
    let acl = ApplicationAcl::new(vec![StoresRole::User], UserId(2));
    let rule = Some(Rule::ModerationStatus(ModerationStatus::Moderation));
    assert_eq!(acl.allows(Resource::Stores, Action::Update, &OwnerScope, rule, Some(&UserId(2))).unwrap(), false);
}

#[test]
fn no_roles_allow_nothing() {
    let acl = ApplicationAcl::new(vec![], UserId(5));
    assert_eq!(acl.allows(Resource::Stores, Action::Read, &OwnerScope, Some(Rule::Any), Some(&UserId(5))).unwrap(), false);
    assert_eq!(acl.allows(Resource::Categories, Action::Read, &PublicScope, None, Some(&())).unwrap(), false);
}

#[test]
fn more_roles_allow_more() {
    let acl = ApplicationAcl::new(vec![StoresRole::Moderator, StoresRole::User], UserId(2));
    assert_eq!(acl.allows(Resource::Stores, Action::Moderate, &OwnerScope, Some(Rule::Any), Some(&UserId(1))).unwrap(), true);
    assert_eq!(acl.allows(Resource::Stores, Action::Create, &OwnerScope, Some(Rule::Any), Some(&UserId(2))).unwrap(), true);
}

#[test]
fn superuser_may_touch_any_resource() {
    let acl = ApplicationAcl::new(vec![StoresRole::Superuser], UserId(1));
    for resource in [Resource::Attributes, Resource::Categories, Resource::Coupons, Resource::UsedCoupons] {
        assert_eq!(acl.allows(resource, Action::Delete, &PublicScope, None, Some(&())).unwrap(), true);
    }
}

#[test]
fn unauthorized_reads_only_public_data() {
    let acl = UnauthorizedAcl;
    let s = OwnerScope;
    let owner = UserId(1);
    assert_eq!(acl.allows(Resource::Categories, Action::Read, &s, None, Some(&owner)).unwrap(), true);
    assert_eq!(acl.allows(Resource::Stores, Action::Read, &s, None, Some(&owner)).unwrap(), true);
    assert_eq!(
        acl.allows(Resource::Stores, Action::Read, &s, Some(Rule::ModerationStatus(ModerationStatus::Published)), Some(&owner)).unwrap(),
        true
    );
    assert_eq!(
        acl.allows(Resource::Stores, Action::Read, &s, Some(Rule::ModerationStatus(ModerationStatus::Draft)), Some(&owner)).unwrap(),
        false
    );
    assert_eq!(acl.allows(Resource::UserRoles, Action::Read, &s, None, Some(&owner)).unwrap(), false);
    assert_eq!(acl.allows(Resource::Categories, Action::Create, &s, None, Some(&owner)).unwrap(), false);
}

#[test]
fn check_names_the_refused_request() {
    let acl = ApplicationAcl::new(vec![StoresRole::User], UserId(2));
    assert_eq!(check(&acl, Resource::Stores, Action::Read, &OwnerScope, Some(&UserId(2))), Ok(()));
    assert_eq!(
        check(&acl, Resource::Stores, Action::Moderate, &OwnerScope, Some(&UserId(2))),
        Err(AclError { resource: Resource::Stores, action: Action::Moderate, rule: None })
    );
    let rule = Rule::ModerationStatus(ModerationStatus::Blocked);
    assert_eq!(
        check_with_rule(&acl, Resource::Stores, Action::Update, &OwnerScope, rule, Some(&UserId(2))),
        Err(AclError { resource: Resource::Stores, action: Action::Update, rule: Some(rule) })
    );
    assert_eq!(
        check_with_rule(&acl, Resource::Stores, Action::Update, &OwnerScope, Rule::ModerationStatus(ModerationStatus::Draft), Some(&UserId(2))),
        Ok(())
    );
}
