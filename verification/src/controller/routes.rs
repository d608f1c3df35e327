//! The routes of the service and the parser of request paths.
use vstd::prelude::*;
use crate::text::{all_digits, chars_of, decimal_value, digits_i32, is_digit, parse_digits_i32};
use crate::types::{BaseProductId, CompanyId, CompanyPackageId, UserId};

verus! {

/// Id of a user role (the 128 bits of a UUID).
#[derive(Clone, Copy, PartialEq, Eq, Debug, Structural)]
pub struct RoleId(pub u128);

/// The routes of the service with their parameters.
#[derive(Clone, Copy, PartialEq, Eq, Debug, Structural)]
pub enum Route {
    Roles,
    RoleById { id: RoleId },
    RolesByUserId { user_id: UserId },
    Restrictions,
    ShippingLocal,
    ShippingLocalById { base_product_id: BaseProductId },
    ShippingInternational,
    ShippingInternationalById { base_product_id: BaseProductId },
    DeliveryTo,
    DeliveryToFiltersCompany,
    DeliveryToFiltersCountry,
    DeliveryFrom,
    DeliveryFromFiltersCompany,
    Countries,
    Products,
    ProductsById { base_product_id: BaseProductId },
    ProductsByIdAndCompanyPackageId {
        base_product_id: BaseProductId,
        company_package_id: CompanyPackageId,
    },
    Companies,
    CompanyById { company_id: CompanyId },
}

/// What follows `prefix` in `p`, when `p` starts with it.
pub open spec fn strip(p: Seq<char>, prefix: Seq<char>) -> Option<Seq<char>> {
    if prefix.len() <= p.len() && p.take(prefix.len() as int) == prefix {
        Some(p.skip(prefix.len() as int))
    } else {
        None
    }
}

/// The number of decimal digits at the start of `s`.
pub open spec fn leading_digits(s: Seq<char>) -> nat
    decreases s.len(),
{
    if s.len() > 0 && is_digit(s[0]) {
        1 + leading_digits(s.drop_first())
    } else {
        0
    }
}

/// Whether `c` may occur in a role id of a path: an ASCII letter, a digit
/// or `-`.
pub open spec fn is_role_id_char(c: char) -> bool {
    ('a' <= c <= 'z') || ('A' <= c <= 'Z') || ('0' <= c <= '9') || c == '-'
}

/// Whether `c` is a hexadecimal digit (either case).
pub open spec fn is_hex_digit(c: char) -> bool {
    ('0' <= c <= '9') || ('a' <= c <= 'f') || ('A' <= c <= 'F')
}

/// The value of a hexadecimal digit.
pub open spec fn hex_digit_value(c: char) -> nat {
    if '0' <= c <= '9' {
        (c as u32 - '0' as u32) as nat
    } else if 'a' <= c <= 'f' {
        (c as u32 - 'a' as u32 + 10) as nat
    } else {
        (c as u32 - 'A' as u32 + 10) as nat
    }
}

/// The value of a run of hexadecimal digits, most significant first.
pub open spec fn hex_number(ds: Seq<char>) -> nat
    decreases ds.len(),
{
    if ds.len() == 0 {
        0
    } else {
        hex_number(ds.drop_last()) * 16 + hex_digit_value(ds.last())
    }
}

/// The 32 digits of a UUID written without hyphens (32 characters) or with
/// hyphens after the 8th, 12th, 16th and 20th digit (36 characters).
pub open spec fn uuid_digits(t: Seq<char>) -> Option<Seq<char>> {
    if t.len() == 32 {
        Some(t)
    } else if t.len() == 36 && t[8] == '-' && t[13] == '-' && t[18] == '-' && t[23] == '-' {
        Some(
            t.subrange(0, 8) + t.subrange(9, 13) + t.subrange(14, 18) + t.subrange(19, 23)
                + t.subrange(24, 36),
        )
    } else {
        None
    }
}

/// The UUID (as its 128 bits, the first digit most significant) that a role
/// id text reads as: its 32 digits must all be hexadecimal.  (The braced and
/// URN forms that `Uuid::parse_str` also reads need characters that a role
/// id text cannot hold.)
pub open spec fn uuid_of(t: Seq<char>) -> Option<u128> {
    match uuid_digits(t) {
        Some(ds) => if forall|i: int| 0 <= i < ds.len() ==> is_hex_digit(#[trigger] ds[i]) {
            Some(hex_number(ds) as u128)
        } else {
            None
        },
        None => None,
    }
}

/// The id given after `prefix`: a non-empty run of digits up to the end of
/// the path that fits an `i32`.
pub open spec fn id_after(p: Seq<char>, prefix: Seq<char>) -> Option<i32> {
    match strip(p, prefix) {
        Some(rest) => digits_i32(rest),
        None => None,
    }
}

/// The two ids of `/products/<id>/company_package/<id>`.
pub open spec fn product_package_ids(p: Seq<char>) -> Option<(i32, i32)> {
    match strip(p, "/products/"@) {
        Some(rest) => {
            let n = leading_digits(rest);
            match strip(rest.skip(n as int), "/company_package/"@) {
                Some(b) => match (digits_i32(rest.take(n as int)), digits_i32(b)) {
                    (Some(x), Some(y)) => Some((x, y)),
                    _ => None,
                },
                None => None,
            }
        },
        None => None,
    }
}

/// The id text of `/roles/by-id/<id>`: a non-empty run of ASCII letters,
/// digits and `-` up to the end of the path.
pub open spec fn role_id_text(p: Seq<char>) -> Option<Seq<char>> {
    match strip(p, "/roles/by-id/"@) {
        Some(rest) => if rest.len() > 0 && (forall|i: int|
            0 <= i < rest.len() ==> is_role_id_char(#[trigger] rest[i])) {
            Some(rest)
        } else {
            None
        },
        None => None,
    }
}

/// The role id of `/roles/by-id/<id>`, when its text reads as a UUID.
pub open spec fn role_id_of_path(p: Seq<char>) -> Option<u128> {
    match role_id_text(p) {
        Some(t) => uuid_of(t),
        None => None,
    }
}

/// The route of a request path, given what the role id text of the path
/// reads as (`role_id`): routes are tried in order and the first whose
/// pattern matches and whose parameters read gives the result.
pub open spec fn route_with(p: Seq<char>, role_id: Option<u128>) -> Option<Route> {
    if p == "/restrictions"@ {
        Some(Route::Restrictions)
    } else if p == "/shipping/local"@ {
        Some(Route::ShippingLocal)
    } else if id_after(p, "/shipping/local/"@) is Some {
        Some(Route::ShippingLocalById { base_product_id: BaseProductId(id_after(p, "/shipping/local/"@)->0) })
    } else if p == "/shipping/international"@ {
        Some(Route::ShippingInternational)
    } else if id_after(p, "/shipping/international/"@) is Some {
        Some(Route::ShippingInternationalById { base_product_id: BaseProductId(id_after(p, "/shipping/international/"@)->0) })
    } else if p == "/delivery_to"@ {
        Some(Route::DeliveryTo)
    } else if p == "/delivery_to/search/filters/company"@ {
        Some(Route::DeliveryToFiltersCompany)
    } else if p == "/delivery_to/search/filters/country"@ {
        Some(Route::DeliveryToFiltersCountry)
    } else if p == "/delivery_from"@ {
        Some(Route::DeliveryFrom)
    } else if p == "/delivery_from/search/filters/company"@ {
        Some(Route::DeliveryFromFiltersCompany)
    } else if p == "/roles"@ {
        Some(Route::Roles)
    } else if id_after(p, "/roles/by-user-id/"@) is Some {
        Some(Route::RolesByUserId { user_id: UserId(id_after(p, "/roles/by-user-id/"@)->0) })
    } else if role_id_text(p) is Some && role_id is Some {
        Some(Route::RoleById { id: RoleId(role_id->0) })
    } else if p == "/countries"@ {
        Some(Route::Countries)
    } else if p == "/products"@ {
        Some(Route::Products)
    } else if id_after(p, "/products/"@) is Some {
        Some(Route::ProductsById { base_product_id: BaseProductId(id_after(p, "/products/"@)->0) })
    } else if product_package_ids(p) is Some {
        let ids = product_package_ids(p)->0;
        Some(Route::ProductsByIdAndCompanyPackageId {
            base_product_id: BaseProductId(ids.0),
            company_package_id: CompanyPackageId(ids.1),
        })
    } else if p == "/companies"@ {
        Some(Route::Companies)
    } else if id_after(p, "/companies/"@) is Some {
        Some(Route::CompanyById { company_id: CompanyId(id_after(p, "/companies/"@)->0) })
    } else {
        None
    }
}

/// The route of a request path.
pub open spec fn route_of(p: Seq<char>) -> Option<Route> {
    route_with(p, role_id_of_path(p))
}

/// Whether `p` is the text `s`.
fn equals_str(p: &Vec<char>, s: &str) -> (res: bool)
    ensures
        res == (p@ == s@),
{
    let q = chars_of(s);
    if p.len() != q.len() {
        return false;
    }
    let mut i: usize = 0;
    while i < p.len()
        invariant
            p@.len() == q@.len(),
            q@ == s@,
            0 <= i <= p@.len(),
            forall|j: int| 0 <= j < i ==> p@[j] == q@[j],
        decreases p.len() - i,
    {
        if p[i] != q[i] {
            return false;
        }
        i = i + 1;
    }
    assert(p@ =~= q@);
    true
}

/// `s[from..to]`.
fn sub_chars(s: &Vec<char>, from: usize, to: usize) -> (res: Vec<char>)
    requires
        from <= to <= s@.len(),
    ensures
        res@ == s@.subrange(from as int, to as int),
{
    let mut v: Vec<char> = Vec::new();
    let mut i: usize = from;
    while i < to
        invariant
            from <= i <= to <= s@.len(),
            v@ == s@.subrange(from as int, i as int),
        decreases to - i,
    {
        v.push(s[i]);
        assert(v@ =~= s@.subrange(from as int, i + 1));
        i = i + 1;
    }
    v
}

/// What follows `prefix` in `p`, when `p` starts with it.
fn strip_prefix(p: &Vec<char>, prefix: &str) -> (res: Option<Vec<char>>)
    ensures
        match res {
            Some(r) => strip(p@, prefix@) == Some(r@),
            None => strip(p@, prefix@) is None,
        },
{
    let q = chars_of(prefix);
    if q.len() > p.len() {
        return None;
    }
    let mut i: usize = 0;
    while i < q.len()
        invariant
            q@.len() <= p@.len(),
            q@ == prefix@,
            0 <= i <= q@.len(),
            forall|j: int| 0 <= j < i ==> p@[j] == q@[j],
        decreases q.len() - i,
    {
        if p[i] != q[i] {
            assert(p@.take(q@.len() as int)[i as int] != q@[i as int]);
            return None;
        }
        i = i + 1;
    }
    assert(p@.take(q@.len() as int) =~= q@);
    let rest = sub_chars(p, q.len(), p.len());
    assert(rest@ =~= p@.skip(q@.len() as int));
    Some(rest)
}

/// The number of decimal digits at the start of `s`.
fn leading_digit_count(s: &Vec<char>) -> (n: usize)
    ensures
        n == leading_digits(s@),
        n <= s@.len(),
{
    let mut i: usize = 0;
    assert(s@.skip(0) =~= s@);
    while i < s.len() && '0' <= s[i] && s[i] <= '9'
        invariant
            0 <= i <= s@.len(),
            leading_digits(s@) == i + leading_digits(s@.skip(i as int)),
        decreases s.len() - i,
    {
        assert(s@.skip(i as int).drop_first() =~= s@.skip(i + 1));
        i = i + 1;
    }
    i
}

/// The id given after `prefix` in `p`.
fn id_after_prefix(p: &Vec<char>, prefix: &str) -> (res: Option<i32>)
    ensures
        res == id_after(p@, prefix@),
{
    match strip_prefix(p, prefix) {
        Some(rest) => parse_digits_i32(&rest),
        None => None,
    }
}

/// The two ids of `/products/<id>/company_package/<id>`.
fn product_package_ids_of(p: &Vec<char>) -> (res: Option<(i32, i32)>)
    ensures
        res == product_package_ids(p@),
{
    match strip_prefix(p, "/products/") {
        None => None,
        Some(rest) => {
            let n = leading_digit_count(&rest);
            let tail = sub_chars(&rest, n, rest.len());
            assert(tail@ =~= rest@.skip(n as int));
            match strip_prefix(&tail, "/company_package/") {
                None => None,
                Some(b) => {
                    let head = sub_chars(&rest, 0, n);
                    assert(head@ =~= rest@.take(n as int));
                    match (parse_digits_i32(&head), parse_digits_i32(&b)) {
                        (Some(x), Some(y)) => Some((x, y)),
                        _ => None,
                    }
                },
            }
        },
    }
}

/// The id text of `/roles/by-id/<id>`.
fn role_id_text_of(p: &Vec<char>) -> (res: Option<Vec<char>>)
    ensures
        match res {
            Some(t) => role_id_text(p@) == Some(t@),
            None => role_id_text(p@) is None,
        },
{
    match strip_prefix(p, "/roles/by-id/") {
        None => None,
        Some(rest) => {
            if rest.len() == 0 {
                return None;
            }
            let mut i: usize = 0;
            while i < rest.len()
                invariant
                    0 <= i <= rest@.len(),
                    strip(p@, "/roles/by-id/"@) == Some(rest@),
                    forall|j: int| 0 <= j < i ==> is_role_id_char(#[trigger] rest@[j]),
                decreases rest.len() - i,
            {
                let c = rest[i];
                if !(('a' <= c && c <= 'z') || ('A' <= c && c <= 'Z') || ('0' <= c && c <= '9')
                    || c == '-') {
                    assert(!is_role_id_char(rest@[i as int]));
                    return None;
                }
                i = i + 1;
            }
            Some(rest)
        },
    }
}

/// Reads a UUID from a role id text with `uuid::Uuid::parse_str`, giving its
/// 128 bits (`Uuid::as_u128`, the first digit most significant): 32
/// hexadecimal digits, plain or with hyphens in the 8-4-4-4-12 layout.
#[verifier::external_body]
fn parse_uuid(cs: &Vec<char>) -> (res: Option<u128>)
    requires
        forall|i: int| 0 <= i < cs@.len() ==> is_role_id_char(#[trigger] cs@[i]),
    ensures
        res == uuid_of(cs@),
{
    let s: String = cs.iter().collect();
    match uuid::Uuid::parse_str(&s) {
        Ok(u) => Some(u.as_u128()),
        Err(_) => None,
    }
}

/// The route of `path`, given what the role id text of the path reads as.
pub fn route_for(path: &str, role_id: Option<u128>) -> (res: Option<Route>)
    ensures
        res == route_with(path@, role_id),
{
    let p = chars_of(path);
    if equals_str(&p, "/restrictions") {
        return Some(Route::Restrictions);
    }
    if equals_str(&p, "/shipping/local") {
        return Some(Route::ShippingLocal);
    }
    if let Some(id) = id_after_prefix(&p, "/shipping/local/") {
        return Some(Route::ShippingLocalById { base_product_id: BaseProductId(id) });
    }
    if equals_str(&p, "/shipping/international") {
        return Some(Route::ShippingInternational);
    }
    if let Some(id) = id_after_prefix(&p, "/shipping/international/") {
        return Some(Route::ShippingInternationalById { base_product_id: BaseProductId(id) });
    }
    if equals_str(&p, "/delivery_to") {
        return Some(Route::DeliveryTo);
    }
    if equals_str(&p, "/delivery_to/search/filters/company") {
        return Some(Route::DeliveryToFiltersCompany);
    }
    if equals_str(&p, "/delivery_to/search/filters/country") {
        return Some(Route::DeliveryToFiltersCountry);
    }
    if equals_str(&p, "/delivery_from") {
        return Some(Route::DeliveryFrom);
    }
    if equals_str(&p, "/delivery_from/search/filters/company") {
        return Some(Route::DeliveryFromFiltersCompany);
    }
    if equals_str(&p, "/roles") {
        return Some(Route::Roles);
    }
    if let Some(id) = id_after_prefix(&p, "/roles/by-user-id/") {
        return Some(Route::RolesByUserId { user_id: UserId(id) });
    }
    if role_id_text_of(&p).is_some() {
        if let Some(id) = role_id {
            return Some(Route::RoleById { id: RoleId(id) });
        }
    }
    if equals_str(&p, "/countries") {
        return Some(Route::Countries);
    }
    if equals_str(&p, "/products") {
        return Some(Route::Products);
    }
    if let Some(id) = id_after_prefix(&p, "/products/") {
        return Some(Route::ProductsById { base_product_id: BaseProductId(id) });
    }
    if let Some(ids) = product_package_ids_of(&p) {
        return Some(Route::ProductsByIdAndCompanyPackageId {
            base_product_id: BaseProductId(ids.0),
            company_package_id: CompanyPackageId(ids.1),
        });
    }
    if equals_str(&p, "/companies") {
        return Some(Route::Companies);
    }
    if let Some(id) = id_after_prefix(&p, "/companies/") {
        return Some(Route::CompanyById { company_id: CompanyId(id) });
    }
    None
}

/// The route of a request path, or `None` where no route matches.
pub fn parse_route(path: &str) -> (res: Option<Route>)
    ensures
        res == route_of(path@),
{
    let p = chars_of(path);
    let role_id = match role_id_text_of(&p) {
        Some(t) => parse_uuid(&t),
        None => None,
    };
    route_for(path, role_id)
}

/// A prefix that differs from `p` at position `i` does not start `p`.
proof fn lemma_not_prefix(p: Seq<char>, prefix: Seq<char>, i: int)
    requires
        0 <= i < prefix.len(),
        i < p.len(),
        p[i] != prefix[i],
    ensures
        strip(p, prefix) is None,
        id_after(p, prefix) is None,
{
    if prefix.len() <= p.len() {
        assert(p.take(prefix.len() as int)[i] != prefix[i]);
    }
}

/// `p` followed by `ds` is `p` up to its length.
proof fn lemma_strip_concat(prefix: Seq<char>, ds: Seq<char>)
    ensures
        strip(prefix + ds, prefix) == Some(ds),
{
    assert((prefix + ds).take(prefix.len() as int) =~= prefix);
    assert((prefix + ds).skip(prefix.len() as int) =~= ds);
}

/// A run of digits whose value fits an `i32` reads as that value.
pub open spec fn id_digits(ds: Seq<char>) -> bool {
    ds.len() > 0 && all_digits(ds) && decimal_value(ds) <= i32::MAX
}

/// The run of digits at the start of `a + x` is `a` when `x` does not
/// start with a digit.
proof fn lemma_leading_digits(a: Seq<char>, x: Seq<char>)
    requires
        all_digits(a),
        x.len() == 0 || !is_digit(x[0]),
    ensures
        leading_digits(a + x) == a.len(),
    decreases a.len(),
{
    if a.len() > 0 {
        assert((a + x).drop_first() =~= a.drop_first() + x);
        lemma_leading_digits(a.drop_first(), x);
    } else {
        assert(a + x =~= x);
    }
}

/// The characters of the texts of the routing table.
proof fn lemma_route_texts()
    ensures
        "/restrictions"@ =~= seq!['/', 'r', 'e', 's', 't', 'r', 'i', 'c', 't', 'i', 'o', 'n', 's'],
        "/shipping/local"@ =~= seq!['/', 's', 'h', 'i', 'p', 'p', 'i', 'n', 'g', '/', 'l', 'o', 'c', 'a', 'l'],
        "/shipping/local/"@ =~= seq!['/', 's', 'h', 'i', 'p', 'p', 'i', 'n', 'g', '/', 'l', 'o', 'c', 'a', 'l', '/'],
        "/shipping/international"@ =~= seq!['/', 's', 'h', 'i', 'p', 'p', 'i', 'n', 'g', '/', 'i', 'n', 't', 'e', 'r', 'n', 'a', 't', 'i', 'o', 'n', 'a', 'l'],
        "/shipping/international/"@ =~= seq!['/', 's', 'h', 'i', 'p', 'p', 'i', 'n', 'g', '/', 'i', 'n', 't', 'e', 'r', 'n', 'a', 't', 'i', 'o', 'n', 'a', 'l', '/'],
        "/delivery_to"@ =~= seq!['/', 'd', 'e', 'l', 'i', 'v', 'e', 'r', 'y', '_', 't', 'o'],
        "/delivery_to/search/filters/company"@ =~= seq!['/', 'd', 'e', 'l', 'i', 'v', 'e', 'r', 'y', '_', 't', 'o', '/', 's', 'e', 'a', 'r', 'c', 'h', '/', 'f', 'i', 'l', 't', 'e', 'r', 's', '/', 'c', 'o', 'm', 'p', 'a', 'n', 'y'],
        "/delivery_to/search/filters/country"@ =~= seq!['/', 'd', 'e', 'l', 'i', 'v', 'e', 'r', 'y', '_', 't', 'o', '/', 's', 'e', 'a', 'r', 'c', 'h', '/', 'f', 'i', 'l', 't', 'e', 'r', 's', '/', 'c', 'o', 'u', 'n', 't', 'r', 'y'],
        "/delivery_from"@ =~= seq!['/', 'd', 'e', 'l', 'i', 'v', 'e', 'r', 'y', '_', 'f', 'r', 'o', 'm'],
        "/delivery_from/search/filters/company"@ =~= seq!['/', 'd', 'e', 'l', 'i', 'v', 'e', 'r', 'y', '_', 'f', 'r', 'o', 'm', '/', 's', 'e', 'a', 'r', 'c', 'h', '/', 'f', 'i', 'l', 't', 'e', 'r', 's', '/', 'c', 'o', 'm', 'p', 'a', 'n', 'y'],
        "/roles"@ =~= seq!['/', 'r', 'o', 'l', 'e', 's'],
        "/roles/by-user-id/"@ =~= seq!['/', 'r', 'o', 'l', 'e', 's', '/', 'b', 'y', '-', 'u', 's', 'e', 'r', '-', 'i', 'd', '/'],
        "/roles/by-id/"@ =~= seq!['/', 'r', 'o', 'l', 'e', 's', '/', 'b', 'y', '-', 'i', 'd', '/'],
        "/countries"@ =~= seq!['/', 'c', 'o', 'u', 'n', 't', 'r', 'i', 'e', 's'],
        "/products"@ =~= seq!['/', 'p', 'r', 'o', 'd', 'u', 'c', 't', 's'],
        "/products/"@ =~= seq!['/', 'p', 'r', 'o', 'd', 'u', 'c', 't', 's', '/'],
        "/company_package/"@ =~= seq!['/', 'c', 'o', 'm', 'p', 'a', 'n', 'y', '_', 'p', 'a', 'c', 'k', 'a', 'g', 'e', '/'],
        "/companies"@ =~= seq!['/', 'c', 'o', 'm', 'p', 'a', 'n', 'i', 'e', 's'],
        "/companies/"@ =~= seq!['/', 'c', 'o', 'm', 'p', 'a', 'n', 'i', 'e', 's', '/'],
{
    reveal_strlit("/restrictions");
    reveal_strlit("/shipping/local");
    reveal_strlit("/shipping/local/");
    reveal_strlit("/shipping/international");
    reveal_strlit("/shipping/international/");
    reveal_strlit("/delivery_to");
    reveal_strlit("/delivery_to/search/filters/company");
    reveal_strlit("/delivery_to/search/filters/country");
    reveal_strlit("/delivery_from");
    reveal_strlit("/delivery_from/search/filters/company");
    reveal_strlit("/roles");
    reveal_strlit("/roles/by-user-id/");
    reveal_strlit("/roles/by-id/");
    reveal_strlit("/countries");
    reveal_strlit("/products");
    reveal_strlit("/products/");
    reveal_strlit("/company_package/");
    reveal_strlit("/companies");
    reveal_strlit("/companies/");
}

/// Each path without parameters routes to its route.
pub proof fn lemma_fixed_paths_route()
    ensures
        route_of("/restrictions"@) == Some(Route::Restrictions),
        route_of("/shipping/local"@) == Some(Route::ShippingLocal),
        route_of("/shipping/international"@) == Some(Route::ShippingInternational),
        route_of("/delivery_to"@) == Some(Route::DeliveryTo),
        route_of("/delivery_to/search/filters/company"@) == Some(Route::DeliveryToFiltersCompany),
        route_of("/delivery_to/search/filters/country"@) == Some(Route::DeliveryToFiltersCountry),
        route_of("/delivery_from"@) == Some(Route::DeliveryFrom),
        route_of("/delivery_from/search/filters/company"@) == Some(Route::DeliveryFromFiltersCompany),
        route_of("/roles"@) == Some(Route::Roles),
        route_of("/countries"@) == Some(Route::Countries),
        route_of("/products"@) == Some(Route::Products),
        route_of("/companies"@) == Some(Route::Companies),
{
    lemma_route_texts();
    let international = "/shipping/international"@;
    lemma_not_prefix(international, "/shipping/local/"@, 10);
    let countries = "/countries"@;
    lemma_not_prefix(countries, "/shipping/local/"@, 1);
    lemma_not_prefix(countries, "/shipping/international/"@, 1);
    lemma_not_prefix(countries, "/roles/by-user-id/"@, 1);
    lemma_not_prefix(countries, "/roles/by-id/"@, 1);
    let products = "/products"@;
    lemma_not_prefix(products, "/shipping/local/"@, 1);
    lemma_not_prefix(products, "/shipping/international/"@, 1);
    lemma_not_prefix(products, "/roles/by-user-id/"@, 1);
    lemma_not_prefix(products, "/roles/by-id/"@, 1);
    let country_filter = "/delivery_to/search/filters/country"@;
    assert(country_filter != "/delivery_to/search/filters/company"@) by {
        assert(country_filter[30] != "/delivery_to/search/filters/company"@[30]);
    }
    let companies = "/companies"@;
    assert(companies != countries) by {
        assert(companies[3] != countries[3]);
    }
    lemma_not_prefix(companies, "/shipping/local/"@, 1);
    lemma_not_prefix(companies, "/shipping/international/"@, 1);
    lemma_not_prefix(companies, "/roles/by-user-id/"@, 1);
    lemma_not_prefix(companies, "/roles/by-id/"@, 1);
    lemma_not_prefix(companies, "/products/"@, 1);
}

/// A path of the shipping of a product inside its country routes to it.
pub proof fn lemma_local_shipping_path_routes(ds: Seq<char>)
    requires
        id_digits(ds),
    ensures
        route_of("/shipping/local/"@ + ds) == Some(
            Route::ShippingLocalById { base_product_id: BaseProductId(decimal_value(ds) as i32) },
        ),
{
    let p = "/shipping/local/"@ + ds;
    lemma_route_texts();
    assert(p[1] == 's');
    assert(p != "/shipping/local"@) by {
        assert(p.len() != "/shipping/local"@.len());
    }
    lemma_strip_concat("/shipping/local/"@, ds);
}

/// A path of the shipping of a product abroad routes to it.
pub proof fn lemma_international_shipping_path_routes(ds: Seq<char>)
    requires
        id_digits(ds),
    ensures
        route_of("/shipping/international/"@ + ds) == Some(
            Route::ShippingInternationalById { base_product_id: BaseProductId(decimal_value(ds) as i32) },
        ),
{
    let p = "/shipping/international/"@ + ds;
    lemma_route_texts();
    assert(p[1] == 's');
    assert(p[10] == 'i');
    lemma_not_prefix(p, "/shipping/local/"@, 10);
    assert(p != "/shipping/local"@) by {
        assert(p[10] != "/shipping/local"@[10]);
    }
    assert(p != "/shipping/international"@) by {
        assert(p.len() != "/shipping/international"@.len());
    }
    lemma_strip_concat("/shipping/international/"@, ds);
}

/// A path of the roles of a user routes to that user's roles.
pub proof fn lemma_user_roles_path_routes(ds: Seq<char>)
    requires
        id_digits(ds),
    ensures
        route_of("/roles/by-user-id/"@ + ds) == Some(
            Route::RolesByUserId { user_id: UserId(decimal_value(ds) as i32) },
        ),
{
    let p = "/roles/by-user-id/"@ + ds;
    lemma_route_texts();
    assert(p[1] == 'r');
    assert(p[2] == 'o');
    lemma_not_prefix(p, "/shipping/local/"@, 1);
    lemma_not_prefix(p, "/shipping/international/"@, 1);
    assert(p != "/roles"@) by {
        assert(p.len() != "/roles"@.len());
    }
    lemma_strip_concat("/roles/by-user-id/"@, ds);
}

/// A path of a role routes to the role its id text reads as, and nowhere
/// when the text reads as no UUID.
pub proof fn lemma_role_path_routes(t: Seq<char>)
    requires
        t.len() > 0,
        forall|i: int| 0 <= i < t.len() ==> is_role_id_char(#[trigger] t[i]),
    ensures
        route_of("/roles/by-id/"@ + t) == match uuid_of(t) {
            Some(id) => Some(Route::RoleById { id: RoleId(id) }),
            None => None,
        },
{
    let p = "/roles/by-id/"@ + t;
    lemma_route_texts();
    assert(p[1] == 'r');
    assert(p[2] == 'o');
    assert(p[10] == 'i');
    lemma_not_prefix(p, "/shipping/local/"@, 1);
    lemma_not_prefix(p, "/shipping/international/"@, 1);
    lemma_not_prefix(p, "/roles/by-user-id/"@, 10);
    lemma_not_prefix(p, "/products/"@, 1);
    lemma_not_prefix(p, "/companies/"@, 1);
    assert(p != "/roles"@) by {
        assert(p.len() != "/roles"@.len());
    }
    lemma_strip_concat("/roles/by-id/"@, t);
}

/// A path of the shipping offers of a product routes to it.
pub proof fn lemma_product_path_routes(ds: Seq<char>)
    requires
        id_digits(ds),
    ensures
        route_of("/products/"@ + ds) == Some(
            Route::ProductsById { base_product_id: BaseProductId(decimal_value(ds) as i32) },
        ),
{
    let p = "/products/"@ + ds;
    lemma_route_texts();
    assert(p[1] == 'p');
    lemma_not_prefix(p, "/shipping/local/"@, 1);
    lemma_not_prefix(p, "/shipping/international/"@, 1);
    lemma_not_prefix(p, "/roles/by-user-id/"@, 1);
    lemma_not_prefix(p, "/roles/by-id/"@, 1);
    assert(p != "/products"@) by {
        assert(p.len() != "/products"@.len());
    }
    lemma_strip_concat("/products/"@, ds);
}

/// A path of the offer of a product with a company package routes to it.
#[verifier::rlimit(40)]
pub proof fn lemma_product_package_path_routes(a: Seq<char>, b: Seq<char>)
    requires
        id_digits(a),
        id_digits(b),
    ensures
        route_of("/products/"@ + a + "/company_package/"@ + b) == Some(
            Route::ProductsByIdAndCompanyPackageId {
                base_product_id: BaseProductId(decimal_value(a) as i32),
                company_package_id: CompanyPackageId(decimal_value(b) as i32),
            },
        ),
{
    let rest = a + "/company_package/"@ + b;
    let p = "/products/"@ + rest;
    assert("/products/"@ + a + "/company_package/"@ + b =~= p);
    lemma_route_texts();
    assert(p[1] == 'p');
    lemma_not_prefix(p, "/shipping/local/"@, 1);
    lemma_not_prefix(p, "/shipping/international/"@, 1);
    lemma_not_prefix(p, "/roles/by-user-id/"@, 1);
    lemma_not_prefix(p, "/roles/by-id/"@, 1);
    assert(p != "/products"@) by {
        assert(p.len() != "/products"@.len());
    }
    lemma_strip_concat("/products/"@, rest);
    assert(rest[a.len() as int] == '/');
    assert(!all_digits(rest)) by {
        assert(!is_digit(rest[a.len() as int]));
    }
    assert(rest =~= a + ("/company_package/"@ + b));
    lemma_leading_digits(a, "/company_package/"@ + b);
    assert(rest.skip(a.len() as int) =~= "/company_package/"@ + b);
    assert(rest.take(a.len() as int) =~= a);
    lemma_strip_concat("/company_package/"@, b);
}

/// A company path routes to the company with the id its digits give.
pub proof fn lemma_company_path_routes(ds: Seq<char>)
    requires
        id_digits(ds),
    ensures
        route_of("/companies/"@ + ds) == Some(
            Route::CompanyById { company_id: CompanyId(decimal_value(ds) as i32) },
        ),
{
    let p = "/companies/"@ + ds;
    lemma_route_texts();
    assert(p[1] == 'c');
    assert(p[3] == 'm');
    lemma_not_prefix(p, "/shipping/local/"@, 1);
    lemma_not_prefix(p, "/shipping/international/"@, 1);
    lemma_not_prefix(p, "/roles/by-user-id/"@, 1);
    lemma_not_prefix(p, "/roles/by-id/"@, 1);
    lemma_not_prefix(p, "/products/"@, 1);
    assert(p != "/companies"@) by {
        assert(p.len() != "/companies"@.len());
    }
    lemma_strip_concat("/companies/"@, ds);
}

} // verus!
