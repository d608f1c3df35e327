//! Handling of requests: the routes of the service and who is asking.
pub mod routes;

use vstd::prelude::*;
use crate::text::{parse_i32, parse_i32_spec};
use crate::controller::routes::{RoleId, Route};
use crate::types::{BaseProductId, CompanyId, CompanyPackageId, UserId};

verus! {

/// The user a request comes from: the `Authorization` header holds the
/// user's id as a decimal `i32`; without the header, or when it holds no
/// such number, the request is anonymous.
pub fn user_id_from_authorization(header: Option<&str>) -> (res: Option<UserId>)
    ensures
        res == match header {
            Some(h) => match parse_i32_spec(h@) {
                Some(id) => Some(UserId(id)),
                None => None,
            },
            None => None,
        },
{
    match header {
        Some(h) => match parse_i32(h) {
            Some(id) => Some(UserId(id)),
            None => None,
        },
        None => None,
    }
}

/// The method of a request.
#[derive(Clone, Copy, PartialEq, Eq, Debug, Structural)]
pub enum Method {
    Get,
    Post,
    Put,
    Delete,
    /// Any other method.
    Other,
}

/// What a request asks the service to do.
#[derive(Clone, Copy, PartialEq, Eq, Debug, Structural)]
pub enum Endpoint {
    /// `GET /roles/by-user-id/<id>`
    GetRolesByUserId { user_id: UserId },
    /// `POST /roles`
    CreateRole,
    /// `DELETE /roles/by-user-id/<id>`
    DeleteRolesByUserId { user_id: UserId },
    /// `DELETE /roles/by-id/<id>`
    DeleteRoleById { id: RoleId },
    /// `POST /products/<id>`
    UpsertShipping { base_product_id: BaseProductId },
    /// `GET /products/<id>`
    GetProducts { base_product_id: BaseProductId },
    /// `DELETE /products/<id>`
    DeleteProducts { base_product_id: BaseProductId },
    /// `PUT /products/<id>/company_package/<id>`
    UpdateProducts { base_product_id: BaseProductId, company_package_id: CompanyPackageId },
    /// `POST /companies`
    CreateCompany,
    /// `GET /companies`
    ListCompanies,
    /// `GET /companies/<id>`
    FindCompany { company_id: CompanyId },
    /// `PUT /companies/<id>`
    UpdateCompany { company_id: CompanyId },
    /// `DELETE /companies/<id>`
    DeleteCompany { company_id: CompanyId },
    /// `GET /countries`
    GetCountries,
    /// `POST /countries`
    CreateCountry,
}

/// The endpoint that a method and a route name; nothing (the request is
/// answered with "not found") for any other pair.
pub open spec fn endpoint_of(method: Method, route: Option<Route>) -> Option<Endpoint> {
    match (method, route) {
        (Method::Get, Some(Route::RolesByUserId { user_id })) => Some(Endpoint::GetRolesByUserId { user_id }),
        (Method::Post, Some(Route::Roles)) => Some(Endpoint::CreateRole),
        (Method::Delete, Some(Route::RolesByUserId { user_id })) => Some(Endpoint::DeleteRolesByUserId { user_id }),
        (Method::Delete, Some(Route::RoleById { id })) => Some(Endpoint::DeleteRoleById { id }),
        (Method::Post, Some(Route::ProductsById { base_product_id })) => Some(Endpoint::UpsertShipping { base_product_id }),
        (Method::Get, Some(Route::ProductsById { base_product_id })) => Some(Endpoint::GetProducts { base_product_id }),
        (Method::Delete, Some(Route::ProductsById { base_product_id })) => Some(Endpoint::DeleteProducts { base_product_id }),
        (Method::Put, Some(Route::ProductsByIdAndCompanyPackageId { base_product_id, company_package_id })) => Some(
            Endpoint::UpdateProducts { base_product_id, company_package_id },
        ),
        (Method::Post, Some(Route::Companies)) => Some(Endpoint::CreateCompany),
        (Method::Get, Some(Route::Companies)) => Some(Endpoint::ListCompanies),
        (Method::Get, Some(Route::CompanyById { company_id })) => Some(Endpoint::FindCompany { company_id }),
        (Method::Put, Some(Route::CompanyById { company_id })) => Some(Endpoint::UpdateCompany { company_id }),
        (Method::Delete, Some(Route::CompanyById { company_id })) => Some(Endpoint::DeleteCompany { company_id }),
        (Method::Get, Some(Route::Countries)) => Some(Endpoint::GetCountries),
        (Method::Post, Some(Route::Countries)) => Some(Endpoint::CreateCountry),
        _ => None,
    }
}

/// The request that asks for an endpoint: its method and its route, as
/// documented on each endpoint.
pub open spec fn request_for(e: Endpoint) -> (Method, Route) {
    match e {
        Endpoint::GetRolesByUserId { user_id } => (Method::Get, Route::RolesByUserId { user_id }),
        Endpoint::CreateRole => (Method::Post, Route::Roles),
        Endpoint::DeleteRolesByUserId { user_id } => (Method::Delete, Route::RolesByUserId { user_id }),
        Endpoint::DeleteRoleById { id } => (Method::Delete, Route::RoleById { id }),
        Endpoint::UpsertShipping { base_product_id } => (Method::Post, Route::ProductsById { base_product_id }),
        Endpoint::GetProducts { base_product_id } => (Method::Get, Route::ProductsById { base_product_id }),
        Endpoint::DeleteProducts { base_product_id } => (Method::Delete, Route::ProductsById { base_product_id }),
        Endpoint::UpdateProducts { base_product_id, company_package_id } => (
            Method::Put,
            Route::ProductsByIdAndCompanyPackageId { base_product_id, company_package_id },
        ),
        Endpoint::CreateCompany => (Method::Post, Route::Companies),
        Endpoint::ListCompanies => (Method::Get, Route::Companies),
        Endpoint::FindCompany { company_id } => (Method::Get, Route::CompanyById { company_id }),
        Endpoint::UpdateCompany { company_id } => (Method::Put, Route::CompanyById { company_id }),
        Endpoint::DeleteCompany { company_id } => (Method::Delete, Route::CompanyById { company_id }),
        Endpoint::GetCountries => (Method::Get, Route::Countries),
        Endpoint::CreateCountry => (Method::Post, Route::Countries),
    }
}

/// Every endpoint is served, and by exactly one request: the request
/// documented for an endpoint is routed to it, and a request routed to an
/// endpoint is the one documented for it.
pub proof fn lemma_every_endpoint_served_by_its_request(e: Endpoint, method: Method, route: Option<Route>)
    ensures
        endpoint_of(request_for(e).0, Some(request_for(e).1)) == Some(e),
        endpoint_of(method, route) == Some(e) ==> method == request_for(e).0 && route == Some(
            request_for(e).1,
        ),
{
}

/// The endpoint of a request, from its method and its route.
pub fn endpoint(method: Method, route: Option<Route>) -> (res: Option<Endpoint>)
    ensures
        res == endpoint_of(method, route),
{
    match (method, route) {
        (Method::Get, Some(Route::RolesByUserId { user_id })) => Some(Endpoint::GetRolesByUserId { user_id }),
        (Method::Post, Some(Route::Roles)) => Some(Endpoint::CreateRole),
        (Method::Delete, Some(Route::RolesByUserId { user_id })) => Some(Endpoint::DeleteRolesByUserId { user_id }),
        (Method::Delete, Some(Route::RoleById { id })) => Some(Endpoint::DeleteRoleById { id }),
        (Method::Post, Some(Route::ProductsById { base_product_id })) => Some(Endpoint::UpsertShipping { base_product_id }),
        (Method::Get, Some(Route::ProductsById { base_product_id })) => Some(Endpoint::GetProducts { base_product_id }),
        (Method::Delete, Some(Route::ProductsById { base_product_id })) => Some(Endpoint::DeleteProducts { base_product_id }),
        (Method::Put, Some(Route::ProductsByIdAndCompanyPackageId { base_product_id, company_package_id })) => Some(
            Endpoint::UpdateProducts { base_product_id, company_package_id },
        ),
        (Method::Post, Some(Route::Companies)) => Some(Endpoint::CreateCompany),
        (Method::Get, Some(Route::Companies)) => Some(Endpoint::ListCompanies),
        (Method::Get, Some(Route::CompanyById { company_id })) => Some(Endpoint::FindCompany { company_id }),
        (Method::Put, Some(Route::CompanyById { company_id })) => Some(Endpoint::UpdateCompany { company_id }),
        (Method::Delete, Some(Route::CompanyById { company_id })) => Some(Endpoint::DeleteCompany { company_id }),
        (Method::Get, Some(Route::Countries)) => Some(Endpoint::GetCountries),
        (Method::Post, Some(Route::Countries)) => Some(Endpoint::CreateCountry),
        _ => None,
    }
}

/// The endpoint of a request, from its method and its path: the path is
/// routed first.
pub fn endpoint_of_request(method: Method, path: &str) -> (res: Option<Endpoint>)
    ensures
        res == endpoint_of(method, crate::controller::routes::route_of(path@)),
{
    endpoint(method, crate::controller::routes::parse_route(path))
}

} // verus!
