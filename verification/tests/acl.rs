use delivery_lib::models::authorization::{Action, Resource, Scope};
use delivery_lib::repos::acl::{
    check, check_all, get_acl, permissions_for, AnyScope, ApplicationAcl, Forbidden, StoreOwnedScope, RequestAcl, UnauthorizedAcl,
    UnownedScope, UserOwnedScope,
};
use delivery_lib::types::{DeliveryRole, StoreId, UserId};

const ALL_RESOURCES: [Resource; 8] = [
    Resource::Companies,
    Resource::CompaniesPackages,
    Resource::Countries,
    Resource::Packages,
    Resource::Pickups,
    Resource::Products,
    Resource::UserAddresses,
    Resource::UserRoles,
];

const ALL_ACTIONS: [Action; 5] = [Action::All, Action::Read, Action::Create, Action::Update, Action::Delete];

#[test]
fn superuser_is_allowed_everything() {
    let acl = ApplicationAcl::new(vec![DeliveryRole::Superuser], UserId(1));
    for resource in ALL_RESOURCES.iter() {
        for action in ALL_ACTIONS.iter() {
            assert_eq!(check::<u8, _, _>(&acl, *resource, *action, &UnownedScope, None), Ok(()));
        }
    }
}

#[test]
fn user_reads_public_resources_and_owns_addresses() {
    let acl = ApplicationAcl::new(vec![DeliveryRole::User], UserId(1));
    assert_eq!(check::<u8, _, _>(&acl, Resource::Products, Action::Read, &UnownedScope, None), Ok(()));
    assert_eq!(
        check::<u8, _, _>(&acl, Resource::Products, Action::Create, &UnownedScope, None),
        Err(Forbidden { action: Action::Create, resource: Resource::Products })
    );
    assert_eq!(check(&acl, Resource::UserAddresses, Action::Update, &UserOwnedScope, Some(&UserId(1))), Ok(()));
    assert_eq!(
        check(&acl, Resource::UserAddresses, Action::Update, &UserOwnedScope, Some(&UserId(2))),
        Err(Forbidden { action: Action::Update, resource: Resource::UserAddresses })
    );
    assert_eq!(check(&acl, Resource::UserRoles, Action::Read, &UserOwnedScope, Some(&UserId(1))), Ok(()));
    assert!(check(&acl, Resource::UserRoles, Action::Delete, &UserOwnedScope, Some(&UserId(1))).is_err());
}

#[test]
fn store_manager_manages_own_store_products() {
    let acl = ApplicationAcl::new(vec![DeliveryRole::StoreManager], UserId(3));
    let scope = StoreOwnedScope { role_store_ids: vec![None, Some(10)] };
    assert_eq!(check(&acl, Resource::Products, Action::Update, &scope, Some(&StoreId(10))), Ok(()));
    assert!(check(&acl, Resource::Products, Action::Update, &scope, Some(&StoreId(11))).is_err());
    assert!(check(&acl, Resource::Products, Action::Update, &scope, None).is_err());
    assert!(check(&acl, Resource::Companies, Action::Read, &scope, Some(&StoreId(10))).is_err());
    assert_eq!(check(&acl, Resource::Pickups, Action::Delete, &scope, Some(&StoreId(10))), Ok(()));
}

#[test]
fn unauthorized_reads_only_public_resources() {
    let acl = UnauthorizedAcl;
    for resource in ALL_RESOURCES.iter() {
        let public = !matches!(resource, Resource::UserAddresses | Resource::UserRoles);
        assert_eq!(check::<u8, _, _>(&acl, *resource, Action::Read, &AnyScope, None).is_ok(), public);
        for action in [Action::All, Action::Create, Action::Update, Action::Delete].iter() {
            assert!(check::<u8, _, _>(&acl, *resource, *action, &AnyScope, None).is_err());
        }
    }
}

#[test]
fn no_roles_no_rights() {
    let acl = ApplicationAcl::new(vec![], UserId(1));
    for resource in ALL_RESOURCES.iter() {
        for action in ALL_ACTIONS.iter() {
            assert!(check::<u8, _, _>(&acl, *resource, *action, &AnyScope, None).is_err());
        }
    }
}

#[test]
fn role_permission_tables() {
    assert_eq!(permissions_for(DeliveryRole::Superuser).len(), 8);
    assert_eq!(permissions_for(DeliveryRole::User).len(), 8);
    let manager = permissions_for(DeliveryRole::StoreManager);
    assert_eq!(manager.len(), 2);
    assert!(manager.iter().all(|p| p.scope == Scope::Owned && p.action == Action::All));
}

#[test]
fn names_of_actions_and_resources() {
    assert_eq!(Action::Read.to_string(), "read");
    assert_eq!(Resource::CompaniesPackages.to_string(), "companies_packages");
}

#[test]
fn request_list_follows_the_user() {
    let anonymous = get_acl(None, vec![DeliveryRole::Superuser]);
    assert!(matches!(anonymous, RequestAcl::Unauthorized(_)));
    assert!(check::<u8, _, _>(&anonymous, Resource::Companies, Action::Create, &AnyScope, None).is_err());
    assert_eq!(check::<u8, _, _>(&anonymous, Resource::Companies, Action::Read, &AnyScope, None), Ok(()));
    let signed_in = get_acl(Some(UserId(5)), vec![DeliveryRole::Superuser]);
    match &signed_in {
        RequestAcl::Application(acl) => {
            assert_eq!(acl.user_id, UserId(5));
            assert_eq!(acl.roles, vec![DeliveryRole::Superuser]);
        }
        other => panic!("unexpected {:?}", other),
    }
    assert_eq!(check::<u8, _, _>(&signed_in, Resource::Companies, Action::Create, &AnyScope, None), Ok(()));
}

#[test]
fn every_object_must_be_allowed() {
    let acl = ApplicationAcl::new(vec![DeliveryRole::User], UserId(1));
    assert_eq!(check_all(&acl, Resource::UserAddresses, Action::Read, &UserOwnedScope, &vec![UserId(1), UserId(1)]), Ok(()));
    assert_eq!(
        check_all(&acl, Resource::UserAddresses, Action::Read, &UserOwnedScope, &vec![UserId(1), UserId(2)]),
        Err(Forbidden { action: Action::Read, resource: Resource::UserAddresses })
    );
    assert_eq!(check_all(&acl, Resource::UserAddresses, Action::Read, &UserOwnedScope, &vec![]), Ok(()));
}

#[test]
fn more_roles_never_take_rights_away() {
    let user = ApplicationAcl::new(vec![DeliveryRole::User], UserId(1));
    let both = ApplicationAcl::new(vec![DeliveryRole::StoreManager, DeliveryRole::User], UserId(1));
    for resource in ALL_RESOURCES.iter() {
        for action in ALL_ACTIONS.iter() {
            if check(&user, *resource, *action, &UserOwnedScope, Some(&UserId(1))).is_ok() {
                assert_eq!(check(&both, *resource, *action, &UserOwnedScope, Some(&UserId(1))), Ok(()));
            }
        }
    }
    assert!(check(&user, Resource::Products, Action::Update, &UserOwnedScope, Some(&UserId(1))).is_err());
    assert_eq!(check(&both, Resource::Products, Action::Update, &UserOwnedScope, Some(&UserId(1))), Ok(()));
}
