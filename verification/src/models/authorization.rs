//! Access control vocabulary: resources, actions on them and the scope in
//! which a permission holds.
use vstd::prelude::*;

verus! {

/// What a permission lets a user do; `All` stands for every action.
#[derive(Clone, Copy, PartialEq, Eq, Debug, Structural)]
pub enum Action {
    All,
    Read,
    Create,
    Update,
    Delete,
}

/// The kinds of stored objects that access rules speak of.
#[derive(Clone, Copy, PartialEq, Eq, Debug, Structural)]
pub enum Resource {
    Companies,
    CompaniesPackages,
    Countries,
    Packages,
    Pickups,
    Products,
    UserAddresses,
    UserRoles,
}

/// Which objects a permission covers.
#[derive(Clone, Copy, PartialEq, Eq, Debug, Structural)]
pub enum Scope {
    /// Objects with any id.
    All,
    /// Objects owned by the current user.
    Owned,
}

/// A resource, an action on it and the scope in which it is allowed.
#[derive(Clone, Copy, PartialEq, Eq, Debug, Structural)]
pub struct Permission {
    pub resource: Resource,
    pub action: Action,
    pub scope: Scope,
}

/// The name under which an action is shown.
pub open spec fn action_name(a: Action) -> Seq<char> {
    match a {
        Action::All => "all"@,
        Action::Read => "read"@,
        Action::Create => "create"@,
        Action::Update => "update"@,
        Action::Delete => "delete"@,
    }
}

/// The name under which a resource is shown.
pub open spec fn resource_name(r: Resource) -> Seq<char> {
    match r {
        Resource::Companies => "companies"@,
        Resource::CompaniesPackages => "companies_packages"@,
        Resource::Countries => "countries"@,
        Resource::Packages => "packages"@,
        Resource::Pickups => "pickups"@,
        Resource::Products => "products"@,
        Resource::UserAddresses => "user addresses"@,
        Resource::UserRoles => "user roles"@,
    }
}

impl Action {
    /// The name under which the action is shown.
    pub fn to_string(&self) -> (res: String)
        ensures
            res@ == action_name(*self),
    {
        let s = match self {
            Action::All => "all",
            Action::Read => "read",
            Action::Create => "create",
            Action::Update => "update",
            Action::Delete => "delete",
        };
        String::from_str(s)
    }
}

impl Resource {
    /// The name under which the resource is shown.
    pub fn to_string(&self) -> (res: String)
        ensures
            res@ == resource_name(*self),
    {
        let s = match self {
            Resource::Companies => "companies",
            Resource::CompaniesPackages => "companies_packages",
            Resource::Countries => "countries",
            Resource::Packages => "packages",
            Resource::Pickups => "pickups",
            Resource::Products => "products",
            Resource::UserAddresses => "user addresses",
            Resource::UserRoles => "user roles",
        };
        String::from_str(s)
    }
}

} // verus!
