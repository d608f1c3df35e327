//! Access control lists: which roles may do what on which resources.
use vstd::prelude::*;
use crate::models::authorization::{Action, Permission, Resource, Scope};
use crate::types::{DeliveryRole, StoreId, UserId};

verus! {

/// Decides whether an object lies in a scope for a user; each kind of
/// stored object has its own rule.
pub trait CheckScope<T> {
    /// The decision, as a function of the user, the scope and the object.
    spec fn in_scope(&self, user_id: UserId, scope: Scope, obj: Option<T>) -> bool;

    fn is_in_scope(&self, user_id: UserId, scope: &Scope, obj: Option<&T>) -> (res: bool)
        ensures
            res == self.in_scope(
                user_id,
                *scope,
                match obj {
                    Some(o) => Some(*o),
                    None => None,
                },
            ),
    ;
}

/// An access control list.
pub trait Acl<T, C: CheckScope<T>> {
    /// Whether `action` on `resource` is allowed, given the scope rule of the
    /// object.
    spec fn allowed(
        &self,
        resource: Resource,
        action: Action,
        scope_checker: C,
        obj: Option<T>,
    ) -> bool;

    fn allows(
        &self,
        resource: Resource,
        action: Action,
        scope_checker: &C,
        obj: Option<&T>,
    ) -> (res: bool)
        ensures
            res == self.allowed(
                resource,
                action,
                *scope_checker,
                match obj {
                    Some(o) => Some(*o),
                    None => None,
                },
            ),
    ;
}

/// The object in an optional reference.
pub open spec fn deref_opt<T>(obj: Option<&T>) -> Option<T> {
    match obj {
        Some(o) => Some(*o),
        None => None,
    }
}

/// A permission in the scope of all objects.
pub open spec fn perm(resource: Resource, action: Action, scope: Scope) -> Permission {
    Permission { resource, action, scope }
}

/// The permissions that each role grants.
pub open spec fn role_permissions(role: DeliveryRole) -> Seq<Permission> {
    match role {
        DeliveryRole::Superuser => seq![
            perm(Resource::Companies, Action::All, Scope::All),
            perm(Resource::CompaniesPackages, Action::All, Scope::All),
            perm(Resource::Countries, Action::All, Scope::All),
            perm(Resource::Packages, Action::All, Scope::All),
            perm(Resource::Pickups, Action::All, Scope::All),
            perm(Resource::Products, Action::All, Scope::All),
            perm(Resource::UserAddresses, Action::All, Scope::All),
            perm(Resource::UserRoles, Action::All, Scope::All),
        ],
        DeliveryRole::User => seq![
            perm(Resource::Companies, Action::Read, Scope::All),
            perm(Resource::CompaniesPackages, Action::Read, Scope::All),
            perm(Resource::Countries, Action::Read, Scope::All),
            perm(Resource::Packages, Action::Read, Scope::All),
            perm(Resource::Pickups, Action::Read, Scope::All),
            perm(Resource::Products, Action::Read, Scope::All),
            perm(Resource::UserAddresses, Action::All, Scope::Owned),
            perm(Resource::UserRoles, Action::Read, Scope::Owned),
        ],
        DeliveryRole::StoreManager => seq![
            perm(Resource::Pickups, Action::All, Scope::Owned),
            perm(Resource::Products, Action::All, Scope::Owned),
        ],
    }
}

/// The permissions that a role grants.
pub fn permissions_for(role: DeliveryRole) -> (res: Vec<Permission>)
    ensures
        res@ == role_permissions(role),
{
    let res = match role {
        DeliveryRole::Superuser => vec![
            Permission { resource: Resource::Companies, action: Action::All, scope: Scope::All },
            Permission {
                resource: Resource::CompaniesPackages,
                action: Action::All,
                scope: Scope::All,
            },
            Permission { resource: Resource::Countries, action: Action::All, scope: Scope::All },
            Permission { resource: Resource::Packages, action: Action::All, scope: Scope::All },
            Permission { resource: Resource::Pickups, action: Action::All, scope: Scope::All },
            Permission { resource: Resource::Products, action: Action::All, scope: Scope::All },
            Permission { resource: Resource::UserAddresses, action: Action::All, scope: Scope::All },
            Permission { resource: Resource::UserRoles, action: Action::All, scope: Scope::All },
        ],
        DeliveryRole::User => vec![
            Permission { resource: Resource::Companies, action: Action::Read, scope: Scope::All },
            Permission {
                resource: Resource::CompaniesPackages,
                action: Action::Read,
                scope: Scope::All,
            },
            Permission { resource: Resource::Countries, action: Action::Read, scope: Scope::All },
            Permission { resource: Resource::Packages, action: Action::Read, scope: Scope::All },
            Permission { resource: Resource::Pickups, action: Action::Read, scope: Scope::All },
            Permission { resource: Resource::Products, action: Action::Read, scope: Scope::All },
            Permission {
                resource: Resource::UserAddresses,
                action: Action::All,
                scope: Scope::Owned,
            },
            Permission { resource: Resource::UserRoles, action: Action::Read, scope: Scope::Owned },
        ],
        DeliveryRole::StoreManager => vec![
            Permission { resource: Resource::Pickups, action: Action::All, scope: Scope::Owned },
            Permission { resource: Resource::Products, action: Action::All, scope: Scope::Owned },
        ],
    };
    assert(res@ =~= role_permissions(role));
    res
}

/// Whether a permission covers `action` on `resource`.
pub open spec fn covers(p: Permission, resource: Resource, action: Action) -> bool {
    p.resource == resource && (p.action == action || p.action == Action::All)
}

/// The access control list of a signed-in user: the union of the
/// permissions of the user's roles.
#[derive(Debug)]
pub struct ApplicationAcl {
    pub roles: Vec<DeliveryRole>,
    pub user_id: UserId,
}

impl ApplicationAcl {
    /// The list of a user with the given roles.
    pub fn new(roles: Vec<DeliveryRole>, user_id: UserId) -> (res: Self)
        ensures
            res.roles@ == roles@,
            res.user_id == user_id,
    {
        ApplicationAcl { roles, user_id }
    }
}

/// The `j`-th permission of the `i`-th role covers the action on the
/// resource and its scope holds the object.
pub open spec fn grants<T, C: CheckScope<T>>(
    roles: Seq<DeliveryRole>,
    user_id: UserId,
    i: int,
    j: int,
    resource: Resource,
    action: Action,
    scope_checker: C,
    obj: Option<T>,
) -> bool {
    &&& 0 <= i < roles.len()
    &&& 0 <= j < role_permissions(roles[i]).len()
    &&& covers(role_permissions(roles[i])[j], resource, action)
    &&& scope_checker.in_scope(user_id, role_permissions(roles[i])[j].scope, obj)
}

impl<T, C: CheckScope<T>> Acl<T, C> for ApplicationAcl {
    /// Some role of the user grants a permission that covers the action on
    /// the resource and whose scope holds the object.
    open spec fn allowed(
        &self,
        resource: Resource,
        action: Action,
        scope_checker: C,
        obj: Option<T>,
    ) -> bool {
        exists|i: int, j: int|
            #[trigger] grants(self.roles@, self.user_id, i, j, resource, action, scope_checker, obj)
    }

    fn allows(
        &self,
        resource: Resource,
        action: Action,
        scope_checker: &C,
        obj: Option<&T>,
    ) -> (res: bool) {
        let ghost roles = self.roles@;
        let ghost o = deref_opt(obj);
        let mut found = false;
        let mut i: usize = 0;
        while i < self.roles.len()
            invariant
                i <= roles.len(),
                roles == self.roles@,
                o == deref_opt(obj),
                found == exists|i2: int, j2: int|
                    i2 < i && #[trigger] grants(
                        roles,
                        self.user_id,
                        i2,
                        j2,
                        resource,
                        action,
                        *scope_checker,
                        o,
                    ),
            decreases self.roles.len() - i,
        {
            let permissions = permissions_for(self.roles[i]);
            let mut j: usize = 0;
            while j < permissions.len()
                invariant
                    i < roles.len(),
                    roles == self.roles@,
                    o == deref_opt(obj),
                    j <= permissions@.len(),
                    permissions@ == role_permissions(roles[i as int]),
                    found == exists|i2: int, j2: int|
                        (i2 < i || (i2 == i && j2 < j)) && #[trigger] grants(
                            roles,
                            self.user_id,
                            i2,
                            j2,
                            resource,
                            action,
                            *scope_checker,
                            o,
                        ),
                decreases permissions.len() - j,
            {
                let permission = permissions[j];
                let ghost g = grants(
                    roles,
                    self.user_id,
                    i as int,
                    j as int,
                    resource,
                    action,
                    *scope_checker,
                    o,
                );
                if permission.resource == resource && (permission.action == action
                    || permission.action == Action::All) {
                    if scope_checker.is_in_scope(self.user_id, &permission.scope, obj) {
                        found = true;
                    }
                }
                assert(found == exists|i2: int, j2: int|
                    (i2 < i || (i2 == i && j2 < j + 1)) && #[trigger] grants(
                        roles,
                        self.user_id,
                        i2,
                        j2,
                        resource,
                        action,
                        *scope_checker,
                        o,
                    )) by {
                    if g {
                        assert(grants(
                            roles,
                            self.user_id,
                            i as int,
                            j as int,
                            resource,
                            action,
                            *scope_checker,
                            o,
                        ));
                    }
                }
                j = j + 1;
            }
            assert(found == exists|i2: int, j2: int|
                i2 < i + 1 && #[trigger] grants(
                    roles,
                    self.user_id,
                    i2,
                    j2,
                    resource,
                    action,
                    *scope_checker,
                    o,
                )) by {
                if exists|i2: int, j2: int|
                    i2 < i + 1 && #[trigger] grants(
                        roles,
                        self.user_id,
                        i2,
                        j2,
                        resource,
                        action,
                        *scope_checker,
                        o,
                    ) {
                    let (i2, j2) = choose|i2: int, j2: int|
                        i2 < i + 1 && #[trigger] grants(
                            roles,
                            self.user_id,
                            i2,
                            j2,
                            resource,
                            action,
                            *scope_checker,
                            o,
                        );
                    assert(i2 < i || (i2 == i && j2 < j));
                }
            }
            i = i + 1;
        }
        found
    }
}

/// The access control list of a request without a signed-in user: reading
/// the public resources only.
#[derive(Clone, Copy, Debug, Default)]
pub struct UnauthorizedAcl;

/// The resources that anyone may read.
pub open spec fn is_public(resource: Resource) -> bool {
    match resource {
        Resource::Companies
        | Resource::CompaniesPackages
        | Resource::Countries
        | Resource::Packages
        | Resource::Pickups
        | Resource::Products => true,
        Resource::UserAddresses | Resource::UserRoles => false,
    }
}

impl<T, C: CheckScope<T>> Acl<T, C> for UnauthorizedAcl {
    /// Reading a public resource.
    open spec fn allowed(
        &self,
        resource: Resource,
        action: Action,
        scope_checker: C,
        obj: Option<T>,
    ) -> bool {
        action == Action::Read && is_public(resource)
    }

    fn allows(
        &self,
        resource: Resource,
        action: Action,
        scope_checker: &C,
        obj: Option<&T>,
    ) -> (res: bool) {
        if action == Action::Read {
            match resource {
                Resource::Companies => true,
                Resource::CompaniesPackages => true,
                Resource::Countries => true,
                Resource::Packages => true,
                Resource::Pickups => true,
                Resource::Products => true,
                _ => false,
            }
        } else {
            false
        }
    }
}

/// The access control list of a request: the list of the signed-in user,
/// or the list of anonymous requests.
#[derive(Debug)]
pub enum RequestAcl {
    Application(ApplicationAcl),
    Unauthorized(UnauthorizedAcl),
}

impl<T, C: CheckScope<T>> Acl<T, C> for RequestAcl {
    /// What the list in use allows.
    open spec fn allowed(
        &self,
        resource: Resource,
        action: Action,
        scope_checker: C,
        obj: Option<T>,
    ) -> bool {
        match self {
            RequestAcl::Application(acl) => <ApplicationAcl as Acl<T, C>>::allowed(
                acl,
                resource,
                action,
                scope_checker,
                obj,
            ),
            RequestAcl::Unauthorized(acl) => <UnauthorizedAcl as Acl<T, C>>::allowed(
                acl,
                resource,
                action,
                scope_checker,
                obj,
            ),
        }
    }

    fn allows(
        &self,
        resource: Resource,
        action: Action,
        scope_checker: &C,
        obj: Option<&T>,
    ) -> (res: bool) {
        match self {
            RequestAcl::Application(acl) => acl.allows(resource, action, scope_checker, obj),
            RequestAcl::Unauthorized(acl) => acl.allows(resource, action, scope_checker, obj),
        }
    }
}

/// The list of a request: anonymous without a user, else the list of the
/// user with the roles `roles` (those the user has).
pub fn get_acl(user_id: Option<UserId>, roles: Vec<DeliveryRole>) -> (res: RequestAcl)
    ensures
        match user_id {
            None => res matches RequestAcl::Unauthorized(_),
            Some(id) => res matches RequestAcl::Application(acl) && acl.user_id == id && acl.roles@
                == roles@,
        },
{
    match user_id {
        None => RequestAcl::Unauthorized(UnauthorizedAcl),
        Some(id) => RequestAcl::Application(ApplicationAcl::new(roles, id)),
    }
}

/// A request that the access control list refuses.
#[derive(Clone, Copy, PartialEq, Eq, Debug, Structural)]
pub struct Forbidden {
    pub action: Action,
    pub resource: Resource,
}

/// Succeeds when the list allows `action` on `resource` for the object;
/// otherwise names the refused action and resource.
pub fn check<T, C: CheckScope<T>, A: Acl<T, C>>(
    acl: &A,
    resource: Resource,
    action: Action,
    scope_checker: &C,
    obj: Option<&T>,
) -> (res: Result<(), Forbidden>)
    ensures
        res is Ok <==> acl.allowed(resource, action, *scope_checker, deref_opt(obj)),
        res matches Err(e) ==> e == (Forbidden { action, resource }),
{
    if acl.allows(resource, action, scope_checker, obj) {
        Ok(())
    } else {
        Err(Forbidden { action, resource })
    }
}

/// Succeeds when the list allows `action` on `resource` for every object
/// of `objs`; otherwise names the refused action and resource.
pub fn check_all<T, C: CheckScope<T>, A: Acl<T, C>>(
    acl: &A,
    resource: Resource,
    action: Action,
    scope_checker: &C,
    objs: &Vec<T>,
) -> (res: Result<(), Forbidden>)
    ensures
        res is Ok <==> forall|i: int|
            0 <= i < objs@.len() ==> acl.allowed(resource, action, *scope_checker, Some(#[trigger] objs@[i])),
        res matches Err(e) ==> e == (Forbidden { action, resource }),
{
    let mut i: usize = 0;
    while i < objs.len()
        invariant
            0 <= i <= objs@.len(),
            forall|j: int|
                0 <= j < i ==> acl.allowed(resource, action, *scope_checker, Some(#[trigger] objs@[j])),
        decreases objs.len() - i,
    {
        match check(acl, resource, action, scope_checker, Some(&objs[i])) {
            Ok(()) => {},
            Err(e) => {
                return Err(e);
            },
        }
        i = i + 1;
    }
    Ok(())
}

/// The scope rule of objects that have no owner: any object lies in the
/// scope of all objects, none in the scope of owned ones.
#[derive(Clone, Copy, Debug)]
pub struct UnownedScope;

impl<T> CheckScope<T> for UnownedScope {
    open spec fn in_scope(&self, user_id: UserId, scope: Scope, obj: Option<T>) -> bool {
        scope == Scope::All
    }

    fn is_in_scope(&self, user_id: UserId, scope: &Scope, obj: Option<&T>) -> (res: bool) {
        match scope {
            Scope::All => true,
            Scope::Owned => false,
        }
    }
}

/// The scope rule of shipping rates: every object lies in every scope.
#[derive(Clone, Copy, Debug)]
pub struct AnyScope;

impl<T> CheckScope<T> for AnyScope {
    open spec fn in_scope(&self, user_id: UserId, scope: Scope, obj: Option<T>) -> bool {
        true
    }

    fn is_in_scope(&self, user_id: UserId, scope: &Scope, obj: Option<&T>) -> (res: bool) {
        true
    }
}

/// The scope rule of objects owned by a user (addresses, roles); the object
/// is given by the id of its owner.
#[derive(Clone, Copy, Debug)]
pub struct UserOwnedScope;

impl CheckScope<UserId> for UserOwnedScope {
    open spec fn in_scope(&self, user_id: UserId, scope: Scope, obj: Option<UserId>) -> bool {
        match scope {
            Scope::All => true,
            Scope::Owned => obj == Some(user_id),
        }
    }

    fn is_in_scope(&self, user_id: UserId, scope: &Scope, obj: Option<&UserId>) -> (res: bool) {
        match scope {
            Scope::All => true,
            Scope::Owned => match obj {
                Some(owner) => *owner == user_id,
                None => false,
            },
        }
    }
}

/// Whether some entry of `ids` is `Some(wanted)`.
pub fn ids_contain(ids: &Vec<Option<i64>>, wanted: i64) -> (res: bool)
    ensures
        res == exists|k: int| 0 <= k < ids@.len() && #[trigger] ids@[k] == Some(wanted),
{
    let mut k: usize = 0;
    while k < ids.len()
        invariant
            k <= ids@.len(),
            forall|k2: int| 0 <= k2 < k ==> #[trigger] ids@[k2] != Some(wanted),
        decreases ids.len() - k,
    {
        match ids[k] {
            Some(id) => {
                if id == wanted {
                    assert(ids@[k as int] == Some(wanted));
                    return true;
                }
            },
            None => {},
        }
        k = k + 1;
    }
    false
}

/// The scope rule of objects that belong to a store (products, pickups,
/// shipping): the object is given by its store, and it is owned by the user
/// when one of the user's roles carries that store's id as its data.
#[derive(Debug)]
pub struct StoreOwnedScope {
    /// The data of each role of the user, as a number where it is one.
    pub role_store_ids: Vec<Option<i64>>,
}

impl CheckScope<StoreId> for StoreOwnedScope {
    open spec fn in_scope(&self, user_id: UserId, scope: Scope, obj: Option<StoreId>) -> bool {
        match scope {
            Scope::All => true,
            Scope::Owned => match obj {
                Some(store) => exists|k: int|
                    0 <= k < self.role_store_ids@.len() && #[trigger] self.role_store_ids@[k]
                        == Some(store.0 as i64),
                None => false,
            },
        }
    }

    fn is_in_scope(&self, user_id: UserId, scope: &Scope, obj: Option<&StoreId>) -> (res: bool) {
        match scope {
            Scope::All => true,
            Scope::Owned => match obj {
                Some(store) => ids_contain(&self.role_store_ids, store.0 as i64),
                None => false,
            },
        }
    }
}

/// A superuser may do anything on any resource, provided the scope rule
/// accepts the object in the scope of all objects.
pub proof fn lemma_superuser_allows_all<T, C: CheckScope<T>>(
    acl: ApplicationAcl,
    resource: Resource,
    action: Action,
    scope_checker: C,
    obj: Option<T>,
)
    requires
        acl.roles@.contains(DeliveryRole::Superuser),
        scope_checker.in_scope(acl.user_id, Scope::All, obj),
    ensures
        <ApplicationAcl as Acl<T, C>>::allowed(&acl, resource, action, scope_checker, obj),
{
    let i = choose|i: int| 0 <= i < acl.roles@.len() && acl.roles@[i] == DeliveryRole::Superuser;
    let j: int = match resource {
        Resource::Companies => 0,
        Resource::CompaniesPackages => 1,
        Resource::Countries => 2,
        Resource::Packages => 3,
        Resource::Pickups => 4,
        Resource::Products => 5,
        Resource::UserAddresses => 6,
        Resource::UserRoles => 7,
    };
    assert(grants(acl.roles@, acl.user_id, i, j, resource, action, scope_checker, obj));
}

/// Exactly what a list holding only the superuser role allows: every action
/// on every resource, on the objects that the scope rule accepts in the
/// scope of all objects, and nothing on the others.
pub proof fn lemma_superuser_exact<T, C: CheckScope<T>>(
    acl: ApplicationAcl,
    resource: Resource,
    action: Action,
    scope_checker: C,
    obj: Option<T>,
)
    requires
        acl.roles@ == seq![DeliveryRole::Superuser],
    ensures
        <ApplicationAcl as Acl<T, C>>::allowed(&acl, resource, action, scope_checker, obj)
            <==> scope_checker.in_scope(acl.user_id, Scope::All, obj),
{
    if scope_checker.in_scope(acl.user_id, Scope::All, obj) {
        assert(acl.roles@[0] == DeliveryRole::Superuser);
        assert(acl.roles@.contains(DeliveryRole::Superuser));
        lemma_superuser_allows_all(acl, resource, action, scope_checker, obj);
    }
    if <ApplicationAcl as Acl<T, C>>::allowed(&acl, resource, action, scope_checker, obj) {
        let (i2, j2) = choose|i2: int, j2: int|
            #[trigger] grants(acl.roles@, acl.user_id, i2, j2, resource, action, scope_checker, obj);
        assert(i2 == 0);
        assert(0 <= j2 < 8);
    }
}

/// A plain user may read the public resources (when the scope rule accepts
/// the object in the scope of all objects), and may change nothing but
/// user addresses.
pub proof fn lemma_user_role_rights<T, C: CheckScope<T>>(
    acl: ApplicationAcl,
    resource: Resource,
    action: Action,
    scope_checker: C,
    obj: Option<T>,
)
    requires
        acl.roles@ == seq![DeliveryRole::User],
    ensures
        is_public(resource) && scope_checker.in_scope(acl.user_id, Scope::All, obj) ==> <ApplicationAcl as Acl<
            T,
            C,
        >>::allowed(&acl, resource, Action::Read, scope_checker, obj),
        <ApplicationAcl as Acl<T, C>>::allowed(&acl, resource, action, scope_checker, obj)
            && action != Action::Read ==> resource == Resource::UserAddresses,
{
    if is_public(resource) && scope_checker.in_scope(acl.user_id, Scope::All, obj) {
        let j: int = match resource {
            Resource::Companies => 0,
            Resource::CompaniesPackages => 1,
            Resource::Countries => 2,
            Resource::Packages => 3,
            Resource::Pickups => 4,
            Resource::Products => 5,
            Resource::UserAddresses => 6,
            Resource::UserRoles => 7,
        };
        assert(grants(acl.roles@, acl.user_id, 0, j, resource, Action::Read, scope_checker, obj));
    }
}

/// Exactly what a plain user may do: read companies, company packages,
/// countries, package kinds, pickups and products where the scope rule
/// accepts the object in the scope of all objects; do anything (create,
/// read, update, delete, all) on the user addresses that the scope rule
/// counts as the user's own; and read the user's own roles. Nothing else.
pub proof fn lemma_user_role_exact<T, C: CheckScope<T>>(
    acl: ApplicationAcl,
    resource: Resource,
    action: Action,
    scope_checker: C,
    obj: Option<T>,
)
    requires
        acl.roles@ == seq![DeliveryRole::User],
    ensures
        <ApplicationAcl as Acl<T, C>>::allowed(&acl, resource, action, scope_checker, obj) <==> {
            ||| (action == Action::Read && (resource == Resource::Companies
                || resource == Resource::CompaniesPackages || resource == Resource::Countries
                || resource == Resource::Packages || resource == Resource::Pickups
                || resource == Resource::Products) && scope_checker.in_scope(acl.user_id, Scope::All, obj))
            ||| (resource == Resource::UserAddresses && scope_checker.in_scope(acl.user_id, Scope::Owned, obj))
            ||| (resource == Resource::UserRoles && action == Action::Read && scope_checker.in_scope(
                acl.user_id,
                Scope::Owned,
                obj,
            ))
        },
{
    let j: int = match resource {
        Resource::Companies => 0,
        Resource::CompaniesPackages => 1,
        Resource::Countries => 2,
        Resource::Packages => 3,
        Resource::Pickups => 4,
        Resource::Products => 5,
        Resource::UserAddresses => 6,
        Resource::UserRoles => 7,
    };
    if <ApplicationAcl as Acl<T, C>>::allowed(&acl, resource, action, scope_checker, obj) {
        let (i2, j2) = choose|i2: int, j2: int|
            #[trigger] grants(acl.roles@, acl.user_id, i2, j2, resource, action, scope_checker, obj);
        assert(i2 == 0);
        assert(0 <= j2 < 8);
    } else {
        assert(!grants(acl.roles@, acl.user_id, 0, j, resource, action, scope_checker, obj));
    }
}

/// A store manager may only work on pickups and products, and only on
/// objects that the scope rule counts as owned.
pub proof fn lemma_store_manager_rights<T, C: CheckScope<T>>(
    acl: ApplicationAcl,
    resource: Resource,
    action: Action,
    scope_checker: C,
    obj: Option<T>,
)
    requires
        acl.roles@ == seq![DeliveryRole::StoreManager],
    ensures
        <ApplicationAcl as Acl<T, C>>::allowed(&acl, resource, action, scope_checker, obj) <==> (
        (resource == Resource::Pickups || resource == Resource::Products)
            && scope_checker.in_scope(acl.user_id, Scope::Owned, obj)),
{
    if (resource == Resource::Pickups || resource == Resource::Products) && scope_checker.in_scope(
        acl.user_id,
        Scope::Owned,
        obj,
    ) {
        let j: int = if resource == Resource::Pickups {
            0
        } else {
            1
        };
        assert(grants(acl.roles@, acl.user_id, 0, j, resource, action, scope_checker, obj));
    }
}

/// Without a signed-in user nothing but reading the public resources is
/// allowed.
pub proof fn lemma_unauthorized_reads_only<T, C: CheckScope<T>>(
    resource: Resource,
    action: Action,
    scope_checker: C,
    obj: Option<T>,
)
    ensures
        <UnauthorizedAcl as Acl<T, C>>::allowed(&UnauthorizedAcl, resource, action, scope_checker, obj)
            <==> action == Action::Read && is_public(resource),
{
}

/// A list without roles allows nothing.
pub proof fn lemma_no_roles_no_rights<T, C: CheckScope<T>>(
    acl: ApplicationAcl,
    resource: Resource,
    action: Action,
    scope_checker: C,
    obj: Option<T>,
)
    requires
        acl.roles@.len() == 0,
    ensures
        !<ApplicationAcl as Acl<T, C>>::allowed(&acl, resource, action, scope_checker, obj),
{
}

/// Roles only add rights: what a list allows, the list of the same user
/// with more roles allows too.
pub proof fn lemma_more_roles_more_rights<T, C: CheckScope<T>>(
    acl: ApplicationAcl,
    more: ApplicationAcl,
    resource: Resource,
    action: Action,
    scope_checker: C,
    obj: Option<T>,
)
    requires
        more.user_id == acl.user_id,
        forall|i: int| 0 <= i < acl.roles@.len() ==> more.roles@.contains(#[trigger] acl.roles@[i]),
        <ApplicationAcl as Acl<T, C>>::allowed(&acl, resource, action, scope_checker, obj),
    ensures
        <ApplicationAcl as Acl<T, C>>::allowed(&more, resource, action, scope_checker, obj),
{
    let (i, j) = choose|i: int, j: int|
        #[trigger] grants(acl.roles@, acl.user_id, i, j, resource, action, scope_checker, obj);
    assert(more.roles@.contains(acl.roles@[i]));
    let k = choose|k: int| 0 <= k < more.roles@.len() && more.roles@[k] == acl.roles@[i];
    assert(grants(more.roles@, more.user_id, k, j, resource, action, scope_checker, obj));
}

} // verus!
