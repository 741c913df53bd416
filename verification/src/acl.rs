//! Access control: which role may perform which action on which resource,
//! under which scope and moderation rule.
use vstd::prelude::*;

use crate::types::{ModerationStatus, StoresRole, UserId};

verus! {

/// A kind of entity that access is controlled for.
#[derive(Debug, PartialEq, Eq, Structural, Clone, Copy, Hash)]
pub enum Resource {
    Attributes,
    AttributeValues,
    BaseProducts,
    Categories,
    CategoryAttrs,
    CurrencyExchange,
    CustomAttributes,
    ModeratorProductComments,
    ModeratorStoreComments,
    ProductAttrs,
    Products,
    Stores,
    UserRoles,
    WizardStores,
    Coupons,
    CouponScopeBaseProducts,
    CouponScopeCategories,
    UsedCoupons,
}

/// An operation on a resource; `All` in a permission grants every action.
#[derive(Debug, PartialEq, Eq, Structural, Clone, Copy, Hash)]
pub enum Action {
    All,
    Read,
    Create,
    Update,
    Delete,
    Moderate,
}

/// Which objects a permission covers: every object, or only the user's own.
#[derive(Debug, PartialEq, Eq, Structural, Clone, Copy, Hash)]
pub enum Scope {
    All,
    Owned,
}

/// An extra condition on a request: any state, or a given moderation status.
#[derive(Debug, PartialEq, Eq, Structural, Clone, Copy, Hash)]
pub enum Rule {
    Any,
    ModerationStatus(ModerationStatus),
}

/// One entry of the access table.
#[derive(Debug, PartialEq, Eq, Structural, Clone, Copy)]
pub struct Permission {
    pub resource: Resource,
    pub action: Action,
    pub scope: Scope,
    pub rule: Option<Rule>,
}

/// Decides, for a kind of object, whether a user may act on an object under a
/// scope.
pub trait CheckScope<T> {
    /// Whether `obj` is within `scope` for `user_id`.
    spec fn spec_is_in_scope(&self, user_id: UserId, scope: Scope, obj: Option<&T>) -> bool;

    fn is_in_scope(&self, user_id: UserId, scope: &Scope, obj: Option<&T>) -> (r: bool)
        ensures
            r == self.spec_is_in_scope(user_id, *scope, obj),
    ;
}

/// Scope checker for data no user owns (categories, attributes, currency
/// rates): every object is in `Scope::All`, none is owned.
#[derive(Debug, Clone, Copy)]
pub struct PublicScope;

impl<T> CheckScope<T> for PublicScope {
    open spec fn spec_is_in_scope(&self, user_id: UserId, scope: Scope, obj: Option<&T>) -> bool {
        scope == Scope::All
    }

    fn is_in_scope(&self, user_id: UserId, scope: &Scope, obj: Option<&T>) -> (r: bool) {
        match scope {
            Scope::All => true,
            Scope::Owned => false,
        }
    }
}

/// Scope checker over the owner of an object (stores, wizard stores,
/// moderator comments): the object is given by the id of the user owning it,
/// and is owned by the requesting user when the ids agree.
#[derive(Debug, Clone, Copy)]
pub struct OwnerScope;

impl CheckScope<UserId> for OwnerScope {
    open spec fn spec_is_in_scope(&self, user_id: UserId, scope: Scope, obj: Option<&UserId>) -> bool {
        match scope {
            Scope::All => true,
            Scope::Owned => match obj {
                Some(owner) => *owner == user_id,
                None => false,
            },
        }
    }

    fn is_in_scope(&self, user_id: UserId, scope: &Scope, obj: Option<&UserId>) -> (r: bool) {
        match scope {
            Scope::All => true,
            Scope::Owned => match obj {
                Some(owner) => *owner == user_id,
                None => false,
            },
        }
    }
}

/// The permissions each role holds.
pub open spec fn role_permissions(role: StoresRole) -> Seq<Permission> {
    match role {
        StoresRole::Superuser => seq![
            Permission { resource: Resource::Attributes, action: Action::All, scope: Scope::All, rule: None },
            Permission { resource: Resource::AttributeValues, action: Action::All, scope: Scope::All, rule: None },
            Permission { resource: Resource::BaseProducts, action: Action::All, scope: Scope::All, rule: None },
            Permission { resource: Resource::Categories, action: Action::All, scope: Scope::All, rule: None },
            Permission { resource: Resource::CategoryAttrs, action: Action::All, scope: Scope::All, rule: None },
            Permission { resource: Resource::CurrencyExchange, action: Action::All, scope: Scope::All, rule: None },
            Permission { resource: Resource::CustomAttributes, action: Action::All, scope: Scope::All, rule: None },
            Permission { resource: Resource::ModeratorProductComments, action: Action::All, scope: Scope::All, rule: None },
            Permission { resource: Resource::ModeratorStoreComments, action: Action::All, scope: Scope::All, rule: None },
            Permission { resource: Resource::ProductAttrs, action: Action::All, scope: Scope::All, rule: None },
            Permission { resource: Resource::Products, action: Action::All, scope: Scope::All, rule: None },
            Permission { resource: Resource::Stores, action: Action::All, scope: Scope::All, rule: None },
            Permission { resource: Resource::UserRoles, action: Action::All, scope: Scope::All, rule: None },
            Permission { resource: Resource::WizardStores, action: Action::All, scope: Scope::All, rule: None },
            Permission { resource: Resource::Coupons, action: Action::All, scope: Scope::All, rule: None },
            Permission { resource: Resource::CouponScopeBaseProducts, action: Action::All, scope: Scope::All, rule: None },
            Permission { resource: Resource::CouponScopeCategories, action: Action::All, scope: Scope::All, rule: None },
            Permission { resource: Resource::UsedCoupons, action: Action::All, scope: Scope::All, rule: None },
        ],
        StoresRole::User => seq![
            Permission { resource: Resource::Attributes, action: Action::Read, scope: Scope::All, rule: None },
            Permission { resource: Resource::AttributeValues, action: Action::Read, scope: Scope::All, rule: None },
            Permission { resource: Resource::BaseProducts, action: Action::Create, scope: Scope::Owned, rule: None },
            Permission { resource: Resource::BaseProducts, action: Action::Delete, scope: Scope::Owned, rule: None },
            Permission { resource: Resource::BaseProducts, action: Action::Read, scope: Scope::All, rule: Some(Rule::ModerationStatus(ModerationStatus::Published)) },
            Permission { resource: Resource::BaseProducts, action: Action::Read, scope: Scope::Owned, rule: Some(Rule::Any) },
            Permission { resource: Resource::BaseProducts, action: Action::Update, scope: Scope::Owned, rule: Some(Rule::ModerationStatus(ModerationStatus::Draft)) },
            Permission { resource: Resource::BaseProducts, action: Action::Update, scope: Scope::Owned, rule: Some(Rule::ModerationStatus(ModerationStatus::Decline)) },
            Permission { resource: Resource::BaseProducts, action: Action::Update, scope: Scope::Owned, rule: Some(Rule::ModerationStatus(ModerationStatus::Published)) },
            Permission { resource: Resource::Categories, action: Action::Read, scope: Scope::All, rule: None },
            Permission { resource: Resource::CategoryAttrs, action: Action::Read, scope: Scope::All, rule: None },
            Permission { resource: Resource::CurrencyExchange, action: Action::Read, scope: Scope::All, rule: None },
            Permission { resource: Resource::CustomAttributes, action: Action::All, scope: Scope::Owned, rule: None },
            Permission { resource: Resource::CustomAttributes, action: Action::Read, scope: Scope::All, rule: None },
            Permission { resource: Resource::ModeratorProductComments, action: Action::All, scope: Scope::Owned, rule: None },
            Permission { resource: Resource::ModeratorProductComments, action: Action::Read, scope: Scope::All, rule: None },
            Permission { resource: Resource::ModeratorStoreComments, action: Action::All, scope: Scope::Owned, rule: None },
            Permission { resource: Resource::ModeratorStoreComments, action: Action::Read, scope: Scope::All, rule: None },
            Permission { resource: Resource::ProductAttrs, action: Action::All, scope: Scope::Owned, rule: None },
            Permission { resource: Resource::ProductAttrs, action: Action::Read, scope: Scope::All, rule: None },
            Permission { resource: Resource::Products, action: Action::All, scope: Scope::Owned, rule: None },
            Permission { resource: Resource::Products, action: Action::Read, scope: Scope::All, rule: None },
            Permission { resource: Resource::Stores, action: Action::Create, scope: Scope::Owned, rule: None },
            Permission { resource: Resource::Stores, action: Action::Delete, scope: Scope::Owned, rule: None },
            Permission { resource: Resource::Stores, action: Action::Read, scope: Scope::All, rule: Some(Rule::ModerationStatus(ModerationStatus::Published)) },
            Permission { resource: Resource::Stores, action: Action::Read, scope: Scope::Owned, rule: Some(Rule::Any) },
            Permission { resource: Resource::Stores, action: Action::Update, scope: Scope::Owned, rule: Some(Rule::ModerationStatus(ModerationStatus::Draft)) },
            Permission { resource: Resource::Stores, action: Action::Update, scope: Scope::Owned, rule: Some(Rule::ModerationStatus(ModerationStatus::Decline)) },
            Permission { resource: Resource::Stores, action: Action::Update, scope: Scope::Owned, rule: Some(Rule::ModerationStatus(ModerationStatus::Published)) },
            Permission { resource: Resource::UserRoles, action: Action::Read, scope: Scope::Owned, rule: None },
            Permission { resource: Resource::WizardStores, action: Action::All, scope: Scope::Owned, rule: None },
            Permission { resource: Resource::WizardStores, action: Action::Read, scope: Scope::All, rule: None },
            Permission { resource: Resource::Coupons, action: Action::All, scope: Scope::Owned, rule: None },
            Permission { resource: Resource::Coupons, action: Action::Read, scope: Scope::All, rule: None },
            Permission { resource: Resource::CouponScopeBaseProducts, action: Action::All, scope: Scope::Owned, rule: None },
            Permission { resource: Resource::CouponScopeBaseProducts, action: Action::Read, scope: Scope::All, rule: None },
            Permission { resource: Resource::CouponScopeCategories, action: Action::All, scope: Scope::Owned, rule: None },
            Permission { resource: Resource::CouponScopeCategories, action: Action::Read, scope: Scope::All, rule: None },
            Permission { resource: Resource::UsedCoupons, action: Action::Read, scope: Scope::All, rule: None },
        ],
        StoresRole::Moderator => seq![
            Permission { resource: Resource::BaseProducts, action: Action::Moderate, scope: Scope::All, rule: None },
            Permission { resource: Resource::BaseProducts, action: Action::Read, scope: Scope::All, rule: Some(Rule::ModerationStatus(ModerationStatus::Moderation)) },
            Permission { resource: Resource::BaseProducts, action: Action::Read, scope: Scope::All, rule: Some(Rule::ModerationStatus(ModerationStatus::Published)) },
            Permission { resource: Resource::BaseProducts, action: Action::Read, scope: Scope::All, rule: Some(Rule::ModerationStatus(ModerationStatus::Decline)) },
            Permission { resource: Resource::BaseProducts, action: Action::Read, scope: Scope::All, rule: Some(Rule::ModerationStatus(ModerationStatus::Blocked)) },
            Permission { resource: Resource::ModeratorProductComments, action: Action::All, scope: Scope::All, rule: None },
            Permission { resource: Resource::ModeratorStoreComments, action: Action::All, scope: Scope::All, rule: None },
            Permission { resource: Resource::Stores, action: Action::Moderate, scope: Scope::All, rule: None },
            Permission { resource: Resource::Stores, action: Action::Read, scope: Scope::All, rule: Some(Rule::ModerationStatus(ModerationStatus::Moderation)) },
            Permission { resource: Resource::Stores, action: Action::Read, scope: Scope::All, rule: Some(Rule::ModerationStatus(ModerationStatus::Published)) },
            Permission { resource: Resource::Stores, action: Action::Read, scope: Scope::All, rule: Some(Rule::ModerationStatus(ModerationStatus::Decline)) },
            Permission { resource: Resource::Stores, action: Action::Read, scope: Scope::All, rule: Some(Rule::ModerationStatus(ModerationStatus::Blocked)) },
        ],
        StoresRole::PlatformAdmin => seq![
            Permission { resource: Resource::Attributes, action: Action::All, scope: Scope::All, rule: None },
            Permission { resource: Resource::Categories, action: Action::All, scope: Scope::All, rule: None },
            Permission { resource: Resource::CategoryAttrs, action: Action::All, scope: Scope::All, rule: None },
        ],
    }
}

/// Builds the permission list of `role`.
pub fn permissions_for(role: StoresRole) -> (v: Vec<Permission>)
    ensures
        v@ == role_permissions(role),
{
    let v = match role {
        StoresRole::Superuser => vec![
            Permission { resource: Resource::Attributes, action: Action::All, scope: Scope::All, rule: None },
            Permission { resource: Resource::AttributeValues, action: Action::All, scope: Scope::All, rule: None },
            Permission { resource: Resource::BaseProducts, action: Action::All, scope: Scope::All, rule: None },
            Permission { resource: Resource::Categories, action: Action::All, scope: Scope::All, rule: None },
            Permission { resource: Resource::CategoryAttrs, action: Action::All, scope: Scope::All, rule: None },
            Permission { resource: Resource::CurrencyExchange, action: Action::All, scope: Scope::All, rule: None },
            Permission { resource: Resource::CustomAttributes, action: Action::All, scope: Scope::All, rule: None },
            Permission { resource: Resource::ModeratorProductComments, action: Action::All, scope: Scope::All, rule: None },
            Permission { resource: Resource::ModeratorStoreComments, action: Action::All, scope: Scope::All, rule: None },
            Permission { resource: Resource::ProductAttrs, action: Action::All, scope: Scope::All, rule: None },
            Permission { resource: Resource::Products, action: Action::All, scope: Scope::All, rule: None },
            Permission { resource: Resource::Stores, action: Action::All, scope: Scope::All, rule: None },
            Permission { resource: Resource::UserRoles, action: Action::All, scope: Scope::All, rule: None },
            Permission { resource: Resource::WizardStores, action: Action::All, scope: Scope::All, rule: None },
            Permission { resource: Resource::Coupons, action: Action::All, scope: Scope::All, rule: None },
            Permission { resource: Resource::CouponScopeBaseProducts, action: Action::All, scope: Scope::All, rule: None },
            Permission { resource: Resource::CouponScopeCategories, action: Action::All, scope: Scope::All, rule: None },
            Permission { resource: Resource::UsedCoupons, action: Action::All, scope: Scope::All, rule: None },
        ],
        StoresRole::User => vec![
            Permission { resource: Resource::Attributes, action: Action::Read, scope: Scope::All, rule: None },
            Permission { resource: Resource::AttributeValues, action: Action::Read, scope: Scope::All, rule: None },
            Permission { resource: Resource::BaseProducts, action: Action::Create, scope: Scope::Owned, rule: None },
            Permission { resource: Resource::BaseProducts, action: Action::Delete, scope: Scope::Owned, rule: None },
            Permission { resource: Resource::BaseProducts, action: Action::Read, scope: Scope::All, rule: Some(Rule::ModerationStatus(ModerationStatus::Published)) },
            Permission { resource: Resource::BaseProducts, action: Action::Read, scope: Scope::Owned, rule: Some(Rule::Any) },
            Permission { resource: Resource::BaseProducts, action: Action::Update, scope: Scope::Owned, rule: Some(Rule::ModerationStatus(ModerationStatus::Draft)) },
            Permission { resource: Resource::BaseProducts, action: Action::Update, scope: Scope::Owned, rule: Some(Rule::ModerationStatus(ModerationStatus::Decline)) },
            Permission { resource: Resource::BaseProducts, action: Action::Update, scope: Scope::Owned, rule: Some(Rule::ModerationStatus(ModerationStatus::Published)) },
            Permission { resource: Resource::Categories, action: Action::Read, scope: Scope::All, rule: None },
            Permission { resource: Resource::CategoryAttrs, action: Action::Read, scope: Scope::All, rule: None },
            Permission { resource: Resource::CurrencyExchange, action: Action::Read, scope: Scope::All, rule: None },
            Permission { resource: Resource::CustomAttributes, action: Action::All, scope: Scope::Owned, rule: None },
            Permission { resource: Resource::CustomAttributes, action: Action::Read, scope: Scope::All, rule: None },
            Permission { resource: Resource::ModeratorProductComments, action: Action::All, scope: Scope::Owned, rule: None },
            Permission { resource: Resource::ModeratorProductComments, action: Action::Read, scope: Scope::All, rule: None },
            Permission { resource: Resource::ModeratorStoreComments, action: Action::All, scope: Scope::Owned, rule: None },
            Permission { resource: Resource::ModeratorStoreComments, action: Action::Read, scope: Scope::All, rule: None },
            Permission { resource: Resource::ProductAttrs, action: Action::All, scope: Scope::Owned, rule: None },
            Permission { resource: Resource::ProductAttrs, action: Action::Read, scope: Scope::All, rule: None },
            Permission { resource: Resource::Products, action: Action::All, scope: Scope::Owned, rule: None },
            Permission { resource: Resource::Products, action: Action::Read, scope: Scope::All, rule: None },
            Permission { resource: Resource::Stores, action: Action::Create, scope: Scope::Owned, rule: None },
            Permission { resource: Resource::Stores, action: Action::Delete, scope: Scope::Owned, rule: None },
            Permission { resource: Resource::Stores, action: Action::Read, scope: Scope::All, rule: Some(Rule::ModerationStatus(ModerationStatus::Published)) },
            Permission { resource: Resource::Stores, action: Action::Read, scope: Scope::Owned, rule: Some(Rule::Any) },
            Permission { resource: Resource::Stores, action: Action::Update, scope: Scope::Owned, rule: Some(Rule::ModerationStatus(ModerationStatus::Draft)) },
            Permission { resource: Resource::Stores, action: Action::Update, scope: Scope::Owned, rule: Some(Rule::ModerationStatus(ModerationStatus::Decline)) },
            Permission { resource: Resource::Stores, action: Action::Update, scope: Scope::Owned, rule: Some(Rule::ModerationStatus(ModerationStatus::Published)) },
            Permission { resource: Resource::UserRoles, action: Action::Read, scope: Scope::Owned, rule: None },
            Permission { resource: Resource::WizardStores, action: Action::All, scope: Scope::Owned, rule: None },
            Permission { resource: Resource::WizardStores, action: Action::Read, scope: Scope::All, rule: None },
            Permission { resource: Resource::Coupons, action: Action::All, scope: Scope::Owned, rule: None },
            Permission { resource: Resource::Coupons, action: Action::Read, scope: Scope::All, rule: None },
            Permission { resource: Resource::CouponScopeBaseProducts, action: Action::All, scope: Scope::Owned, rule: None },
            Permission { resource: Resource::CouponScopeBaseProducts, action: Action::Read, scope: Scope::All, rule: None },
            Permission { resource: Resource::CouponScopeCategories, action: Action::All, scope: Scope::Owned, rule: None },
            Permission { resource: Resource::CouponScopeCategories, action: Action::Read, scope: Scope::All, rule: None },
            Permission { resource: Resource::UsedCoupons, action: Action::Read, scope: Scope::All, rule: None },
        ],
        StoresRole::Moderator => vec![
            Permission { resource: Resource::BaseProducts, action: Action::Moderate, scope: Scope::All, rule: None },
            Permission { resource: Resource::BaseProducts, action: Action::Read, scope: Scope::All, rule: Some(Rule::ModerationStatus(ModerationStatus::Moderation)) },
            Permission { resource: Resource::BaseProducts, action: Action::Read, scope: Scope::All, rule: Some(Rule::ModerationStatus(ModerationStatus::Published)) },
            Permission { resource: Resource::BaseProducts, action: Action::Read, scope: Scope::All, rule: Some(Rule::ModerationStatus(ModerationStatus::Decline)) },
            Permission { resource: Resource::BaseProducts, action: Action::Read, scope: Scope::All, rule: Some(Rule::ModerationStatus(ModerationStatus::Blocked)) },
            Permission { resource: Resource::ModeratorProductComments, action: Action::All, scope: Scope::All, rule: None },
            Permission { resource: Resource::ModeratorStoreComments, action: Action::All, scope: Scope::All, rule: None },
            Permission { resource: Resource::Stores, action: Action::Moderate, scope: Scope::All, rule: None },
            Permission { resource: Resource::Stores, action: Action::Read, scope: Scope::All, rule: Some(Rule::ModerationStatus(ModerationStatus::Moderation)) },
            Permission { resource: Resource::Stores, action: Action::Read, scope: Scope::All, rule: Some(Rule::ModerationStatus(ModerationStatus::Published)) },
            Permission { resource: Resource::Stores, action: Action::Read, scope: Scope::All, rule: Some(Rule::ModerationStatus(ModerationStatus::Decline)) },
            Permission { resource: Resource::Stores, action: Action::Read, scope: Scope::All, rule: Some(Rule::ModerationStatus(ModerationStatus::Blocked)) },
        ],
        StoresRole::PlatformAdmin => vec![
            Permission { resource: Resource::Attributes, action: Action::All, scope: Scope::All, rule: None },
            Permission { resource: Resource::Categories, action: Action::All, scope: Scope::All, rule: None },
            Permission { resource: Resource::CategoryAttrs, action: Action::All, scope: Scope::All, rule: None },
        ],
    };
    assert(v@ =~= role_permissions(role));
    v
}

/// Whether a permission's rule admits the rule of a request: a request
/// without a rule, or a permission without one, always matches; otherwise the
/// permission must name the same rule or `Rule::Any`.
pub open spec fn rule_admits(rule: Option<Rule>, permission_rule: Option<Rule>) -> bool {
    match (rule, permission_rule) {
        (Some(r), Some(pr)) => pr == r || pr == Rule::Any,
        _ => true,
    }
}

/// Whether permission `p` covers `action` on `resource` under `rule`
/// (its scope aside).
pub open spec fn grants(p: Permission, resource: Resource, action: Action, rule: Option<Rule>) -> bool {
    &&& p.resource == resource
    &&& (p.action == action || p.action == Action::All)
    &&& rule_admits(rule, p.rule)
}

/// Whether some permission of some role in `roles` covers the request and
/// has a scope that `in_scope` accepts.
pub open spec fn roles_allow(
    roles: Seq<StoresRole>,
    resource: Resource,
    action: Action,
    rule: Option<Rule>,
    in_scope: spec_fn(Scope) -> bool,
) -> bool {
    exists|i: int, j: int|
        #![trigger role_permissions(roles[i])[j]]
        0 <= i < roles.len() && 0 <= j < role_permissions(roles[i]).len() && grants(
            role_permissions(roles[i])[j],
            resource,
            action,
            rule,
        ) && in_scope(role_permissions(roles[i])[j].scope)
}

/// A refused request.
#[derive(Debug, PartialEq, Eq, Structural, Clone, Copy)]
pub struct AclError {
    pub resource: Resource,
    pub action: Action,
    pub rule: Option<Rule>,
}

/// An access-control policy for objects of type `T`.
pub trait Acl<T> {
    /// Whether the policy admits the request, given which (user, scope)
    /// pairs the scope checker accepts for the object at hand.
    spec fn spec_allows(
        &self,
        resource: Resource,
        action: Action,
        rule: Option<Rule>,
        in_scope: spec_fn(UserId, Scope) -> bool,
    ) -> bool;

    /// Decides a request; never fails.
    fn allows<C: CheckScope<T>>(
        &self,
        resource: Resource,
        action: Action,
        scope_checker: &C,
        rule: Option<Rule>,
        obj: Option<&T>,
    ) -> (r: Result<bool, AclError>)
        ensures
            r == Ok::<bool, AclError>(
                self.spec_allows(
                    resource,
                    action,
                    rule,
                    |u: UserId, s: Scope| scope_checker.spec_is_in_scope(u, s, obj),
                ),
            ),
    ;
}

/// The policy for an authenticated user: the union of the permissions of
/// the user's roles.
#[derive(Debug, Clone)]
pub struct ApplicationAcl {
    roles: Vec<StoresRole>,
    user_id: UserId,
}

impl ApplicationAcl {
    /// The roles the policy was built for.
    pub closed spec fn spec_roles(&self) -> Seq<StoresRole> {
        self.roles@
    }

    /// The user the policy was built for.
    pub closed spec fn spec_user_id(&self) -> UserId {
        self.user_id
    }

    /// The policy of user `user_id` holding `roles`.
    pub fn new(roles: Vec<StoresRole>, user_id: UserId) -> (acl: ApplicationAcl)
        ensures
            acl.spec_roles() == roles@,
            acl.spec_user_id() == user_id,
    {
        ApplicationAcl { roles, user_id }
    }
}

impl<T> Acl<T> for ApplicationAcl {
    open spec fn spec_allows(
        &self,
        resource: Resource,
        action: Action,
        rule: Option<Rule>,
        in_scope: spec_fn(UserId, Scope) -> bool,
    ) -> bool {
        roles_allow(self.spec_roles(), resource, action, rule, |s: Scope| in_scope(self.spec_user_id(), s))
    }

    fn allows<C: CheckScope<T>>(
        &self,
        resource: Resource,
        action: Action,
        scope_checker: &C,
        rule: Option<Rule>,
        obj: Option<&T>,
    ) -> (r: Result<bool, AclError>) {
        let ghost in_scope = |s: Scope| scope_checker.spec_is_in_scope(self.user_id, s, obj);
        let n = self.roles.len();
        let mut i: usize = 0;
        while i < n
            invariant
                n == self.roles@.len(),
                i <= n,
                in_scope == (|s: Scope| scope_checker.spec_is_in_scope(self.user_id, s, obj)),
                forall|a: int, b: int|
                    #![trigger role_permissions(self.roles@[a])[b]]
                    0 <= a < i && 0 <= b < role_permissions(self.roles@[a]).len() ==> !(grants(
                        role_permissions(self.roles@[a])[b],
                        resource,
                        action,
                        rule,
                    ) && in_scope(role_permissions(self.roles@[a])[b].scope)),
            decreases n - i,
        {
            let perms = permissions_for(self.roles[i]);
            let m = perms.len();
            let mut j: usize = 0;
            while j < m
                invariant
                    n == self.roles@.len(),
                    i < n,
                    in_scope == (|s: Scope| scope_checker.spec_is_in_scope(self.user_id, s, obj)),
                    m == perms@.len(),
                    perms@ == role_permissions(self.roles@[i as int]),
                    j <= m,
                    forall|b: int|
                        0 <= b < j ==> !(grants(#[trigger] perms@[b], resource, action, rule) && in_scope(
                            perms@[b].scope,
                        )),
                decreases m - j,
            {
                let p = perms[j];
                let rule_ok = match (rule, p.rule) {
                    (Some(r), Some(pr)) => pr == r || pr == Rule::Any,
                    _ => true,
                };
                assert(rule_ok == rule_admits(rule, p.rule));
                if p.resource == resource && (p.action == action || p.action == Action::All) && rule_ok {
                    let in_scope_now = scope_checker.is_in_scope(self.user_id, &p.scope, obj);
                    assert(in_scope_now == in_scope(p.scope));
                    if in_scope_now {
                        assert(grants(role_permissions(self.roles@[i as int])[j as int], resource, action, rule));
                        return Ok(true);
                    }
                }
                assert(!(grants(perms@[j as int], resource, action, rule) && in_scope(perms@[j as int].scope)));
                j = j + 1;
            }
            i = i + 1;
        }
        Ok(false)
    }
}

/// Whether a visitor without an account may perform the request: reading
/// public catalogue data, and reading stores and base products unless the
/// request names a moderation status other than `Published`.
pub open spec fn unauthorized_allows(resource: Resource, action: Action, rule: Option<Rule>) -> bool {
    action == Action::Read && match resource {
        Resource::Categories | Resource::Products | Resource::ProductAttrs | Resource::Attributes
        | Resource::AttributeValues | Resource::CurrencyExchange | Resource::WizardStores
        | Resource::ModeratorProductComments | Resource::ModeratorStoreComments
        | Resource::CategoryAttrs => true,
        Resource::Stores | Resource::BaseProducts => match rule {
            Some(Rule::ModerationStatus(status)) => status == ModerationStatus::Published,
            _ => true,
        },
        _ => false,
    }
}

/// The policy for requests without an authenticated user.
#[derive(Debug, Clone, Copy)]
pub struct UnauthorizedAcl;

impl<T> Acl<T> for UnauthorizedAcl {
    open spec fn spec_allows(
        &self,
        resource: Resource,
        action: Action,
        rule: Option<Rule>,
        in_scope: spec_fn(UserId, Scope) -> bool,
    ) -> bool {
        unauthorized_allows(resource, action, rule)
    }

    fn allows<C: CheckScope<T>>(
        &self,
        resource: Resource,
        action: Action,
        scope_checker: &C,
        rule: Option<Rule>,
        obj: Option<&T>,
    ) -> (r: Result<bool, AclError>) {
        if action == Action::Read {
            match resource {
                Resource::Categories | Resource::Products | Resource::ProductAttrs | Resource::Attributes
                | Resource::AttributeValues | Resource::CurrencyExchange | Resource::WizardStores
                | Resource::ModeratorProductComments | Resource::ModeratorStoreComments
                | Resource::CategoryAttrs => Ok(true),
                Resource::Stores | Resource::BaseProducts => match rule {
                    Some(Rule::ModerationStatus(status)) => Ok(status == ModerationStatus::Published),
                    _ => Ok(true),
                },
                _ => Ok(false),
            }
        } else {
            Ok(false)
        }
    }
}

/// Admits the request or refuses it with an [`AclError`].
pub fn check<T, A: Acl<T>, C: CheckScope<T>>(
    acl: &A,
    resource: Resource,
    action: Action,
    scope_checker: &C,
    obj: Option<&T>,
) -> (r: Result<(), AclError>)
    ensures
        r is Ok <==> acl.spec_allows(
            resource,
            action,
            None,
            |u: UserId, s: Scope| scope_checker.spec_is_in_scope(u, s, obj),
        ),
        r is Err ==> r == Err::<(), AclError>(AclError { resource, action, rule: None }),
{
    let allowed = acl.allows(resource, action, scope_checker, None, obj);
    match allowed {
        Ok(true) => Ok(()),
        _ => Err(AclError { resource, action, rule: None }),
    }
}

/// Admits the request under `rule` or refuses it with an [`AclError`] that
/// names the rule.
pub fn check_with_rule<T, A: Acl<T>, C: CheckScope<T>>(
    acl: &A,
    resource: Resource,
    action: Action,
    scope_checker: &C,
    rule: Rule,
    obj: Option<&T>,
) -> (r: Result<(), AclError>)
    ensures
        r is Ok <==> acl.spec_allows(
            resource,
            action,
            Some(rule),
            |u: UserId, s: Scope| scope_checker.spec_is_in_scope(u, s, obj),
        ),
        r is Err ==> r == Err::<(), AclError>(AclError { resource, action, rule: Some(rule) }),
{
    let allowed = acl.allows(resource, action, scope_checker, Some(rule), obj);
    match allowed {
        Ok(true) => Ok(()),
        _ => Err(AclError { resource, action, rule: Some(rule) }),
    }
}

/// A superuser may do anything on any resource, under any rule, provided the
/// scope checker accepts `Scope::All` for them.
pub proof fn lemma_superuser_allowed_everything(
    roles: Seq<StoresRole>,
    k: int,
    resource: Resource,
    action: Action,
    rule: Option<Rule>,
    in_scope: spec_fn(Scope) -> bool,
)
    requires
        0 <= k < roles.len(),
        roles[k] == StoresRole::Superuser,
        in_scope(Scope::All),
    ensures
        roles_allow(roles, resource, action, rule, in_scope),
{
    let perms = role_permissions(StoresRole::Superuser);
    let j: int = match resource {
        Resource::Attributes => 0,
        Resource::AttributeValues => 1,
        Resource::BaseProducts => 2,
        Resource::Categories => 3,
        Resource::CategoryAttrs => 4,
        Resource::CurrencyExchange => 5,
        Resource::CustomAttributes => 6,
        Resource::ModeratorProductComments => 7,
        Resource::ModeratorStoreComments => 8,
        Resource::ProductAttrs => 9,
        Resource::Products => 10,
        Resource::Stores => 11,
        Resource::UserRoles => 12,
        Resource::WizardStores => 13,
        Resource::Coupons => 14,
        Resource::CouponScopeBaseProducts => 15,
        Resource::CouponScopeCategories => 16,
        Resource::UsedCoupons => 17,
    };
    assert(grants(role_permissions(roles[k])[j], resource, action, rule));
}

/// Granting a user more roles never takes a permission away.
pub proof fn lemma_more_roles_allow_more(
    roles: Seq<StoresRole>,
    extra: Seq<StoresRole>,
    resource: Resource,
    action: Action,
    rule: Option<Rule>,
    in_scope: spec_fn(Scope) -> bool,
)
    requires
        roles_allow(roles, resource, action, rule, in_scope),
    ensures
        roles_allow(roles + extra, resource, action, rule, in_scope),
        roles_allow(extra + roles, resource, action, rule, in_scope),
{
    let (i, j) = choose|i: int, j: int|
        #![trigger role_permissions(roles[i])[j]]
        0 <= i < roles.len() && 0 <= j < role_permissions(roles[i]).len() && grants(
            role_permissions(roles[i])[j],
            resource,
            action,
            rule,
        ) && in_scope(role_permissions(roles[i])[j].scope);
    assert((roles + extra)[i] == roles[i]);
    assert(role_permissions((roles + extra)[i])[j] == role_permissions(roles[i])[j]);
    let i2 = i + extra.len();
    assert((extra + roles)[i2] == roles[i]);
    assert(role_permissions((extra + roles)[i2])[j] == role_permissions(roles[i])[j]);
}

/// A user without roles may do nothing.
pub proof fn lemma_no_roles_allow_nothing(
    resource: Resource,
    action: Action,
    rule: Option<Rule>,
    in_scope: spec_fn(Scope) -> bool,
)
    ensures
        !roles_allow(Seq::empty(), resource, action, rule, in_scope),
{
}

/// A visitor without an account may only read.
pub proof fn lemma_unauthorized_only_reads(resource: Resource, action: Action, rule: Option<Rule>)
    ensures
        unauthorized_allows(resource, action, rule) ==> action == Action::Read,
{
}

/// Every permission of an ordinary user other than reading is limited to the
/// user's own objects.
proof fn lemma_user_table_changes_are_owned()
    ensures
        forall|j: int|
            0 <= j < role_permissions(StoresRole::User).len() && #[trigger] role_permissions(
                StoresRole::User,
            )[j].action != Action::Read ==> role_permissions(StoresRole::User)[j].scope == Scope::Owned,
{
    assert forall|j: int|
        0 <= j < role_permissions(StoresRole::User).len() && #[trigger] role_permissions(
            StoresRole::User,
        )[j].action != Action::Read implies role_permissions(StoresRole::User)[j].scope
        == Scope::Owned by {
        if j == 0 {} else if j == 1 {} else if j == 2 {} else if j == 3 {} else if j == 4 {} else if j == 5 {} else if j == 6 {} else if j == 7 {} else if j == 8 {} else if j == 9 {} else if j == 10 {} else if j == 11 {} else if j == 12 {} else if j == 13 {} else if j == 14 {} else if j == 15 {} else if j == 16 {} else if j == 17 {} else if j == 18 {} else if j == 19 {} else if j == 20 {} else if j == 21 {} else if j == 22 {} else if j == 23 {} else if j == 24 {} else if j == 25 {} else if j == 26 {} else if j == 27 {} else if j == 28 {} else if j == 29 {} else if j == 30 {} else if j == 31 {} else if j == 32 {} else if j == 33 {} else if j == 34 {} else if j == 35 {} else if j == 36 {} else if j == 37 {} else if j == 38 {}
    }
}

/// A user holding only the ordinary `User` role can change (create, update,
/// delete, moderate) only objects the scope checker counts as their own.
pub proof fn lemma_user_changes_only_own(
    roles: Seq<StoresRole>,
    resource: Resource,
    action: Action,
    rule: Option<Rule>,
    in_scope: spec_fn(Scope) -> bool,
)
    requires
        forall|i: int| 0 <= i < roles.len() ==> roles[i] == StoresRole::User,
        action != Action::Read,
        !in_scope(Scope::Owned),
    ensures
        !roles_allow(roles, resource, action, rule, in_scope),
{
    lemma_user_table_changes_are_owned();
    if roles_allow(roles, resource, action, rule, in_scope) {
        let (i, j) = choose|i: int, j: int|
            #![trigger role_permissions(roles[i])[j]]
            0 <= i < roles.len() && 0 <= j < role_permissions(roles[i]).len() && grants(
                role_permissions(roles[i])[j],
                resource,
                action,
                rule,
            ) && in_scope(role_permissions(roles[i])[j].scope);
        assert(roles[i] == StoresRole::User);
        assert(role_permissions(StoresRole::User)[j].scope == Scope::Owned);
    }
}

/// The moderator's permissions on stores and base products are reading and
/// moderating only.
proof fn lemma_moderator_table_on_listings()
    ensures
        forall|j: int|
            0 <= j < role_permissions(StoresRole::Moderator).len() && (#[trigger] role_permissions(
                StoresRole::Moderator,
            )[j].resource == Resource::Stores || role_permissions(StoresRole::Moderator)[j].resource
                == Resource::BaseProducts) ==> role_permissions(StoresRole::Moderator)[j].action
                == Action::Read || role_permissions(StoresRole::Moderator)[j].action == Action::Moderate,
{
    assert forall|j: int|
        0 <= j < role_permissions(StoresRole::Moderator).len() && (#[trigger] role_permissions(
            StoresRole::Moderator,
        )[j].resource == Resource::Stores || role_permissions(StoresRole::Moderator)[j].resource
            == Resource::BaseProducts) implies role_permissions(StoresRole::Moderator)[j].action
        == Action::Read || role_permissions(StoresRole::Moderator)[j].action == Action::Moderate by {
        if j == 0 {} else if j == 1 {} else if j == 2 {} else if j == 3 {} else if j == 4 {} else if j == 5 {} else if j == 6 {} else if j == 7 {} else if j == 8 {} else if j == 9 {} else if j == 10 {} else if j == 11 {}
    }
}

/// A user holding only the `Moderator` role can never create, update or
/// delete stores or base products.
pub proof fn lemma_moderator_never_edits_listings(
    roles: Seq<StoresRole>,
    resource: Resource,
    action: Action,
    rule: Option<Rule>,
    in_scope: spec_fn(Scope) -> bool,
)
    requires
        forall|i: int| 0 <= i < roles.len() ==> roles[i] == StoresRole::Moderator,
        resource == Resource::Stores || resource == Resource::BaseProducts,
        action == Action::Create || action == Action::Update || action == Action::Delete,
    ensures
        !roles_allow(roles, resource, action, rule, in_scope),
{
    lemma_moderator_table_on_listings();
    if roles_allow(roles, resource, action, rule, in_scope) {
        let (i, j) = choose|i: int, j: int|
            #![trigger role_permissions(roles[i])[j]]
            0 <= i < roles.len() && 0 <= j < role_permissions(roles[i]).len() && grants(
                role_permissions(roles[i])[j],
                resource,
                action,
                rule,
            ) && in_scope(role_permissions(roles[i])[j].scope);
        assert(roles[i] == StoresRole::Moderator);
    }
}

/// Whether a permission rule naming moderation status `status` admits the
/// rule of a request: a request without a rule always, a request for any
/// status never, a request naming a status when it is `status`.
pub open spec fn status_admits(rule: Option<Rule>, status: ModerationStatus) -> bool {
    match rule {
        None => true,
        Some(Rule::Any) => false,
        Some(Rule::ModerationStatus(s)) => s == status,
    }
}

/// What each role may do, written out resource by resource: a request for
/// `action` on `resource` under `rule`, given the scopes the scope checker
/// accepts for the object.
/// - A superuser may do everything on every resource, in scope `All`.
/// - A platform administrator manages attributes, categories and their
///   links, in scope `All`.
/// - A moderator moderates and reads (in the moderation, published, declined
///   and blocked states) stores and base products, and handles moderator
///   comments, in scope `All`.
/// - An ordinary user reads the public catalogue; does anything with their
///   own custom attributes, comments, product attributes, products, wizard
///   stores and coupons and reads everyone's; creates, deletes and reads
///   their own stores and base products, reads published ones, and updates
///   their own when draft, declined or published; reads their own roles.
pub open spec fn expected_grant(
    role: StoresRole,
    resource: Resource,
    action: Action,
    rule: Option<Rule>,
    in_scope: spec_fn(Scope) -> bool,
) -> bool {
    match role {
        StoresRole::Superuser => in_scope(Scope::All),
        StoresRole::PlatformAdmin => in_scope(Scope::All) && (resource == Resource::Attributes || resource
            == Resource::Categories || resource == Resource::CategoryAttrs),
        StoresRole::Moderator => in_scope(Scope::All) && match resource {
            Resource::BaseProducts | Resource::Stores => action == Action::Moderate || (action == Action::Read && (
            status_admits(rule, ModerationStatus::Moderation) || status_admits(rule, ModerationStatus::Published)
                || status_admits(rule, ModerationStatus::Decline) || status_admits(rule, ModerationStatus::Blocked))),
            Resource::ModeratorProductComments | Resource::ModeratorStoreComments => true,
            _ => false,
        },
        StoresRole::User => match resource {
            Resource::Attributes | Resource::AttributeValues | Resource::Categories | Resource::CategoryAttrs
            | Resource::CurrencyExchange | Resource::UsedCoupons => action == Action::Read && in_scope(Scope::All),
            Resource::CustomAttributes | Resource::ModeratorProductComments | Resource::ModeratorStoreComments
            | Resource::ProductAttrs | Resource::Products | Resource::WizardStores | Resource::Coupons
            | Resource::CouponScopeBaseProducts | Resource::CouponScopeCategories => in_scope(Scope::Owned) || (action
                == Action::Read && in_scope(Scope::All)),
            Resource::BaseProducts | Resource::Stores => ((action == Action::Create || action == Action::Delete)
                && in_scope(Scope::Owned)) || (action == Action::Read && in_scope(Scope::All) && status_admits(
                rule,
                ModerationStatus::Published,
            )) || (action == Action::Read && in_scope(Scope::Owned)) || (action == Action::Update && in_scope(
                Scope::Owned,
            ) && (status_admits(rule, ModerationStatus::Draft) || status_admits(rule, ModerationStatus::Decline)
                || status_admits(rule, ModerationStatus::Published))),
            Resource::UserRoles => action == Action::Read && in_scope(Scope::Owned),
        },
    }
}

/// The permission table of the `Superuser` role grants exactly what
/// [`expected_grant`] says.
proof fn lemma_superuser_table(resource: Resource, action: Action, rule: Option<Rule>, in_scope: spec_fn(Scope) -> bool)
    ensures
        roles_allow(seq![StoresRole::Superuser], resource, action, rule, in_scope) == expected_grant(
            StoresRole::Superuser,
            resource,
            action,
            rule,
            in_scope,
        ),
{
    let roles = seq![StoresRole::Superuser];
    assert(roles[0] == StoresRole::Superuser);
    let t = role_permissions(roles[0]);
    assert(t.len() == 18);
    if roles_allow(roles, resource, action, rule, in_scope) {
        let (i, j) = choose|i: int, j: int|
            #![trigger role_permissions(roles[i])[j]]
            0 <= i < roles.len() && 0 <= j < role_permissions(roles[i]).len() && grants(
                role_permissions(roles[i])[j],
                resource,
                action,
                rule,
            ) && in_scope(role_permissions(roles[i])[j].scope);
        assert(i == 0);
        if j == 0 {} else if j == 1 {} else if j == 2 {} else if j == 3 {} else if j == 4 {} else if j == 5 {} else if j == 6 {} else if j == 7 {} else if j == 8 {} else if j == 9 {} else if j == 10 {} else if j == 11 {} else if j == 12 {} else if j == 13 {} else if j == 14 {} else if j == 15 {} else if j == 16 {} else if j == 17 {}
    }
    if expected_grant(StoresRole::Superuser, resource, action, rule, in_scope) && !roles_allow(
        roles,
        resource,
        action,
        rule,
        in_scope,
    ) {
        assert(t[0] == t[0]);
        assert(t[1] == t[1]);
        assert(t[2] == t[2]);
        assert(t[3] == t[3]);
        assert(t[4] == t[4]);
        assert(t[5] == t[5]);
        assert(t[6] == t[6]);
        assert(t[7] == t[7]);
        assert(t[8] == t[8]);
        assert(t[9] == t[9]);
        assert(t[10] == t[10]);
        assert(t[11] == t[11]);
        assert(t[12] == t[12]);
        assert(t[13] == t[13]);
        assert(t[14] == t[14]);
        assert(t[15] == t[15]);
        assert(t[16] == t[16]);
        assert(t[17] == t[17]);
        assert(false);
    }
}

/// The permission table of the `User` role grants exactly what
/// [`expected_grant`] says.
proof fn lemma_user_table(resource: Resource, action: Action, rule: Option<Rule>, in_scope: spec_fn(Scope) -> bool)
    ensures
        roles_allow(seq![StoresRole::User], resource, action, rule, in_scope) == expected_grant(
            StoresRole::User,
            resource,
            action,
            rule,
            in_scope,
        ),
{
    let roles = seq![StoresRole::User];
    assert(roles[0] == StoresRole::User);
    let t = role_permissions(roles[0]);
    assert(t.len() == 39);
    if roles_allow(roles, resource, action, rule, in_scope) {
        let (i, j) = choose|i: int, j: int|
            #![trigger role_permissions(roles[i])[j]]
            0 <= i < roles.len() && 0 <= j < role_permissions(roles[i]).len() && grants(
                role_permissions(roles[i])[j],
                resource,
                action,
                rule,
            ) && in_scope(role_permissions(roles[i])[j].scope);
        assert(i == 0);
        if j == 0 {} else if j == 1 {} else if j == 2 {} else if j == 3 {} else if j == 4 {} else if j == 5 {} else if j == 6 {} else if j == 7 {} else if j == 8 {} else if j == 9 {} else if j == 10 {} else if j == 11 {} else if j == 12 {} else if j == 13 {} else if j == 14 {} else if j == 15 {} else if j == 16 {} else if j == 17 {} else if j == 18 {} else if j == 19 {} else if j == 20 {} else if j == 21 {} else if j == 22 {} else if j == 23 {} else if j == 24 {} else if j == 25 {} else if j == 26 {} else if j == 27 {} else if j == 28 {} else if j == 29 {} else if j == 30 {} else if j == 31 {} else if j == 32 {} else if j == 33 {} else if j == 34 {} else if j == 35 {} else if j == 36 {} else if j == 37 {} else if j == 38 {}
    }
    if expected_grant(StoresRole::User, resource, action, rule, in_scope) && !roles_allow(
        roles,
        resource,
        action,
        rule,
        in_scope,
    ) {
        assert(t[0] == t[0]);
        assert(t[1] == t[1]);
        assert(t[2] == t[2]);
        assert(t[3] == t[3]);
        assert(t[4] == t[4]);
        assert(t[5] == t[5]);
        assert(t[6] == t[6]);
        assert(t[7] == t[7]);
        assert(t[8] == t[8]);
        assert(t[9] == t[9]);
        assert(t[10] == t[10]);
        assert(t[11] == t[11]);
        assert(t[12] == t[12]);
        assert(t[13] == t[13]);
        assert(t[14] == t[14]);
        assert(t[15] == t[15]);
        assert(t[16] == t[16]);
        assert(t[17] == t[17]);
        assert(t[18] == t[18]);
        assert(t[19] == t[19]);
        assert(t[20] == t[20]);
        assert(t[21] == t[21]);
        assert(t[22] == t[22]);
        assert(t[23] == t[23]);
        assert(t[24] == t[24]);
        assert(t[25] == t[25]);
        assert(t[26] == t[26]);
        assert(t[27] == t[27]);
        assert(t[28] == t[28]);
        assert(t[29] == t[29]);
        assert(t[30] == t[30]);
        assert(t[31] == t[31]);
        assert(t[32] == t[32]);
        assert(t[33] == t[33]);
        assert(t[34] == t[34]);
        assert(t[35] == t[35]);
        assert(t[36] == t[36]);
        assert(t[37] == t[37]);
        assert(t[38] == t[38]);
        assert(false);
    }
}

/// The permission table of the `Moderator` role grants exactly what
/// [`expected_grant`] says.
proof fn lemma_moderator_table(resource: Resource, action: Action, rule: Option<Rule>, in_scope: spec_fn(Scope) -> bool)
    ensures
        roles_allow(seq![StoresRole::Moderator], resource, action, rule, in_scope) == expected_grant(
            StoresRole::Moderator,
            resource,
            action,
            rule,
            in_scope,
        ),
{
    let roles = seq![StoresRole::Moderator];
    assert(roles[0] == StoresRole::Moderator);
    let t = role_permissions(roles[0]);
    assert(t.len() == 12);
    if roles_allow(roles, resource, action, rule, in_scope) {
        let (i, j) = choose|i: int, j: int|
            #![trigger role_permissions(roles[i])[j]]
            0 <= i < roles.len() && 0 <= j < role_permissions(roles[i]).len() && grants(
                role_permissions(roles[i])[j],
                resource,
                action,
                rule,
            ) && in_scope(role_permissions(roles[i])[j].scope);
        assert(i == 0);
        if j == 0 {} else if j == 1 {} else if j == 2 {} else if j == 3 {} else if j == 4 {} else if j == 5 {} else if j == 6 {} else if j == 7 {} else if j == 8 {} else if j == 9 {} else if j == 10 {} else if j == 11 {}
    }
    if expected_grant(StoresRole::Moderator, resource, action, rule, in_scope) && !roles_allow(
        roles,
        resource,
        action,
        rule,
        in_scope,
    ) {
        assert(t[0] == t[0]);
        assert(t[1] == t[1]);
        assert(t[2] == t[2]);
        assert(t[3] == t[3]);
        assert(t[4] == t[4]);
        assert(t[5] == t[5]);
        assert(t[6] == t[6]);
        assert(t[7] == t[7]);
        assert(t[8] == t[8]);
        assert(t[9] == t[9]);
        assert(t[10] == t[10]);
        assert(t[11] == t[11]);
        assert(false);
    }
}

/// The permission table of the `PlatformAdmin` role grants exactly what
/// [`expected_grant`] says.
proof fn lemma_platformadmin_table(resource: Resource, action: Action, rule: Option<Rule>, in_scope: spec_fn(Scope) -> bool)
    ensures
        roles_allow(seq![StoresRole::PlatformAdmin], resource, action, rule, in_scope) == expected_grant(
            StoresRole::PlatformAdmin,
            resource,
            action,
            rule,
            in_scope,
        ),
{
    let roles = seq![StoresRole::PlatformAdmin];
    assert(roles[0] == StoresRole::PlatformAdmin);
    let t = role_permissions(roles[0]);
    assert(t.len() == 3);
    if roles_allow(roles, resource, action, rule, in_scope) {
        let (i, j) = choose|i: int, j: int|
            #![trigger role_permissions(roles[i])[j]]
            0 <= i < roles.len() && 0 <= j < role_permissions(roles[i]).len() && grants(
                role_permissions(roles[i])[j],
                resource,
                action,
                rule,
            ) && in_scope(role_permissions(roles[i])[j].scope);
        assert(i == 0);
        if j == 0 {} else if j == 1 {} else if j == 2 {}
    }
    if expected_grant(StoresRole::PlatformAdmin, resource, action, rule, in_scope) && !roles_allow(
        roles,
        resource,
        action,
        rule,
        in_scope,
    ) {
        assert(t[0] == t[0]);
        assert(t[1] == t[1]);
        assert(t[2] == t[2]);
        assert(false);
    }
}

/// What a signed-in user may do: a request is granted exactly when one of
/// the user's roles grants it, as [`expected_grant`] spells out role by
/// role. In particular a moderator may moderate any store or base product,
/// and a superuser may do anything, whenever the scope checker accepts
/// `Scope::All`.
pub proof fn lemma_roles_allow_expected(
    roles: Seq<StoresRole>,
    resource: Resource,
    action: Action,
    rule: Option<Rule>,
    in_scope: spec_fn(Scope) -> bool,
)
    ensures
        roles_allow(roles, resource, action, rule, in_scope) <==> exists|i: int|
            0 <= i < roles.len() && expected_grant(#[trigger] roles[i], resource, action, rule, in_scope),
{
    lemma_superuser_table(resource, action, rule, in_scope);
    lemma_user_table(resource, action, rule, in_scope);
    lemma_moderator_table(resource, action, rule, in_scope);
    lemma_platformadmin_table(resource, action, rule, in_scope);
    if roles_allow(roles, resource, action, rule, in_scope) {
        let (i, j) = choose|i: int, j: int|
            #![trigger role_permissions(roles[i])[j]]
            0 <= i < roles.len() && 0 <= j < role_permissions(roles[i]).len() && grants(
                role_permissions(roles[i])[j],
                resource,
                action,
                rule,
            ) && in_scope(role_permissions(roles[i])[j].scope);
        let one = seq![roles[i]];
        assert(one[0] == roles[i]);
        assert(grants(role_permissions(one[0])[j], resource, action, rule));
        assert(roles_allow(one, resource, action, rule, in_scope));
    }
    if exists|i: int| 0 <= i < roles.len() && expected_grant(#[trigger] roles[i], resource, action, rule, in_scope) {
        let i = choose|i: int| 0 <= i < roles.len() && expected_grant(#[trigger] roles[i], resource, action, rule, in_scope);
        let one = seq![roles[i]];
        assert(one[0] == roles[i]);
        assert(roles_allow(one, resource, action, rule, in_scope));
        let (i1, j) = choose|i1: int, j: int|
            #![trigger role_permissions(one[i1])[j]]
            0 <= i1 < one.len() && 0 <= j < role_permissions(one[i1]).len() && grants(
                role_permissions(one[i1])[j],
                resource,
                action,
                rule,
            ) && in_scope(role_permissions(one[i1])[j].scope);
        assert(i1 == 0);
        assert(grants(role_permissions(roles[i])[j], resource, action, rule));
    }
}

/// A moderator may moderate every base product and every store, under any
/// rule, whenever the scope checker accepts `Scope::All`.
pub proof fn lemma_moderator_moderates(
    roles: Seq<StoresRole>,
    k: int,
    rule: Option<Rule>,
    in_scope: spec_fn(Scope) -> bool,
)
    requires
        0 <= k < roles.len(),
        roles[k] == StoresRole::Moderator,
        in_scope(Scope::All),
    ensures
        roles_allow(roles, Resource::BaseProducts, Action::Moderate, rule, in_scope),
        roles_allow(roles, Resource::Stores, Action::Moderate, rule, in_scope),
{
    lemma_roles_allow_expected(roles, Resource::BaseProducts, Action::Moderate, rule, in_scope);
    lemma_roles_allow_expected(roles, Resource::Stores, Action::Moderate, rule, in_scope);
    assert(expected_grant(roles[k], Resource::BaseProducts, Action::Moderate, rule, in_scope));
    assert(expected_grant(roles[k], Resource::Stores, Action::Moderate, rule, in_scope));
}

/// A visitor without an account may read every resource of the public
/// catalogue (categories, products, product attributes, attributes and their
/// values, currency rates, wizard stores, moderator comments, category
/// attributes), under any rule.
pub proof fn lemma_visitor_reads_catalogue(resource: Resource, rule: Option<Rule>)
    requires
        resource == Resource::Categories || resource == Resource::Products || resource == Resource::ProductAttrs
            || resource == Resource::Attributes || resource == Resource::AttributeValues || resource
            == Resource::CurrencyExchange || resource == Resource::WizardStores || resource
            == Resource::ModeratorProductComments || resource == Resource::ModeratorStoreComments || resource
            == Resource::CategoryAttrs,
    ensures
        unauthorized_allows(resource, Action::Read, rule),
{
}

/// A visitor may read stores and base products unless the request names a
/// moderation status other than `Published`.
pub proof fn lemma_visitor_reads_published_listings(resource: Resource, rule: Option<Rule>)
    requires
        resource == Resource::Stores || resource == Resource::BaseProducts,
    ensures
        unauthorized_allows(resource, Action::Read, rule) <==> match rule {
            Some(Rule::ModerationStatus(s)) => s == ModerationStatus::Published,
            _ => true,
        },
{
}

/// A visitor may read nothing private: user roles, custom attributes,
/// coupons and their scopes, used coupons.
pub proof fn lemma_visitor_reads_nothing_private(resource: Resource, action: Action, rule: Option<Rule>)
    requires
        resource == Resource::UserRoles || resource == Resource::CustomAttributes || resource == Resource::Coupons
            || resource == Resource::CouponScopeBaseProducts || resource == Resource::CouponScopeCategories
            || resource == Resource::UsedCoupons,
    ensures
        !unauthorized_allows(resource, action, rule),
{
}

} // verus!
