use delivery_lib::controller::{endpoint, endpoint_of_request, Endpoint, Method};
use delivery_lib::controller::routes::{parse_route, route_for, RoleId, Route};
use delivery_lib::types::{BaseProductId, CompanyId, CompanyPackageId, UserId};

#[test]
fn routes_without_parameters() {
    assert_eq!(parse_route("/restrictions"), Some(Route::Restrictions));
    assert_eq!(parse_route("/shipping/local"), Some(Route::ShippingLocal));
    assert_eq!(parse_route("/shipping/international"), Some(Route::ShippingInternational));
    assert_eq!(parse_route("/delivery_to"), Some(Route::DeliveryTo));
    assert_eq!(parse_route("/delivery_to/search/filters/company"), Some(Route::DeliveryToFiltersCompany));
    assert_eq!(parse_route("/delivery_to/search/filters/country"), Some(Route::DeliveryToFiltersCountry));
    assert_eq!(parse_route("/delivery_from"), Some(Route::DeliveryFrom));
    assert_eq!(parse_route("/delivery_from/search/filters/company"), Some(Route::DeliveryFromFiltersCompany));
    assert_eq!(parse_route("/roles"), Some(Route::Roles));
    assert_eq!(parse_route("/countries"), Some(Route::Countries));
    assert_eq!(parse_route("/products"), Some(Route::Products));
    assert_eq!(parse_route("/companies"), Some(Route::Companies));
}

#[test]
fn routes_with_ids() {
    assert_eq!(
        parse_route("/shipping/local/12"),
        Some(Route::ShippingLocalById { base_product_id: BaseProductId(12) })
    );
    assert_eq!(
        parse_route("/shipping/international/007"),
        Some(Route::ShippingInternationalById { base_product_id: BaseProductId(7) })
    );
    assert_eq!(parse_route("/roles/by-user-id/42"), Some(Route::RolesByUserId { user_id: UserId(42) }));
    assert_eq!(parse_route("/products/5"), Some(Route::ProductsById { base_product_id: BaseProductId(5) }));
    assert_eq!(
        parse_route("/products/5/company_package/9"),
        Some(Route::ProductsByIdAndCompanyPackageId {
            base_product_id: BaseProductId(5),
            company_package_id: CompanyPackageId(9),
        })
    );
    assert_eq!(parse_route("/companies/2147483647"), Some(Route::CompanyById { company_id: CompanyId(2147483647) }));
}

#[test]
fn routes_refused() {
    assert_eq!(parse_route(""), None);
    assert_eq!(parse_route("/unknown"), None);
    assert_eq!(parse_route("/products/"), None);
    assert_eq!(parse_route("/products/-1"), None);
    assert_eq!(parse_route("/products/+1"), None);
    assert_eq!(parse_route("/products/1a"), None);
    assert_eq!(parse_route("/companies/2147483648"), None);
    assert_eq!(parse_route("/products/1/company_package/"), None);
    assert_eq!(parse_route("/products/99999999999/company_package/1"), None);
    assert_eq!(parse_route("/restrictions/"), None);
    assert_eq!(parse_route("/roles/by-id/"), None);
}

#[test]
fn role_id_route_reads_uuid() {
    assert_eq!(
        parse_route("/roles/by-id/a1a2a3a4-b1b2-c1c2-d1d2-d3d4d5d6d7d8"),
        Some(Route::RoleById { id: RoleId(0xa1a2a3a4b1b2c1c2d1d2d3d4d5d6d7d8) })
    );
    assert_eq!(
        parse_route("/roles/by-id/A1A2A3A4B1B2C1C2D1D2D3D4D5D6D7D8"),
        Some(Route::RoleById { id: RoleId(0xa1a2a3a4b1b2c1c2d1d2d3d4d5d6d7d8) })
    );
    assert_eq!(parse_route("/roles/by-id/not-a-uuid"), None);
    assert_eq!(parse_route("/roles/by-id/{a1a2a3a4-b1b2-c1c2-d1d2-d3d4d5d6d7d8}"), None);
}

#[test]
fn route_for_uses_given_role_id() {
    assert_eq!(route_for("/roles/by-id/abc", Some(7)), Some(Route::RoleById { id: RoleId(7) }));
    assert_eq!(route_for("/roles/by-id/abc", None), None);
    assert_eq!(route_for("/roles/by-id/a$c", Some(7)), None);
    assert_eq!(route_for("/countries", Some(7)), Some(Route::Countries));
}

#[test]
fn role_id_layouts() {
    assert_eq!(parse_route("/roles/by-id/a1a2a3a4b-1b2-c1c2-d1d2-d3d4d5d6d7d8"), None);
    assert_eq!(parse_route("/roles/by-id/g1a2a3a4-b1b2-c1c2-d1d2-d3d4d5d6d7d8"), None);
    assert_eq!(parse_route("/roles/by-id/a1a2a3a4b1b2c1c2d1d2d3d4d5d6d7d"), None);
    assert_eq!(
        parse_route("/roles/by-id/00000000000000000000000000000001"),
        Some(Route::RoleById { id: RoleId(1) })
    );
}

#[test]
fn endpoints_of_requests() {
    assert_eq!(
        endpoint_of_request(Method::Get, "/roles/by-user-id/3"),
        Some(Endpoint::GetRolesByUserId { user_id: UserId(3) })
    );
    assert_eq!(endpoint_of_request(Method::Post, "/roles"), Some(Endpoint::CreateRole));
    assert_eq!(
        endpoint_of_request(Method::Put, "/products/5/company_package/9"),
        Some(Endpoint::UpdateProducts { base_product_id: BaseProductId(5), company_package_id: CompanyPackageId(9) })
    );
    assert_eq!(endpoint_of_request(Method::Delete, "/companies/2"), Some(Endpoint::DeleteCompany { company_id: CompanyId(2) }));
    assert_eq!(endpoint_of_request(Method::Get, "/countries"), Some(Endpoint::GetCountries));
    assert_eq!(endpoint_of_request(Method::Put, "/countries"), None);
    assert_eq!(endpoint_of_request(Method::Get, "/restrictions"), None);
    assert_eq!(endpoint_of_request(Method::Other, "/companies"), None);
    assert_eq!(endpoint(Method::Get, None), None);
}
