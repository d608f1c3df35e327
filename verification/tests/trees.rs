use delivery_lib::extras::transpose;
use delivery_lib::models::companies::CompanyRaw;
use delivery_lib::models::companies_packages::{
    AvailablePackageForUser, CompaniesPackagesRaw, CompanyPackageError, ShippingRateSource, ShippingRateSourceRaw,
};
use delivery_lib::models::countries::{
    contains_country_code, country_from_raw, get_countries_by, get_country_from_forest, Country, RawCountry,
};
use delivery_lib::models::packages::PackagesRaw;
use delivery_lib::models::products::{ProductPrice, ProductsRaw, ShippingVariant};
use delivery_lib::repos::companies_packages::available_packages;
use delivery_lib::repos::countries::{
    clear_child_countries, countries_root, create_tree, create_tree_checked, create_tree_used_countries, get_all_children_till_the_end,
    get_all_parent_codes, get_selected, set_selected, set_selected_till_end,
};
use delivery_lib::repos::products::{available_package_for_user, prefer_local_packages, products_with_available_countries};
use delivery_lib::repos::{get_company_package_name, get_pg_str_json_array};
use delivery_lib::types::{
    Alpha2, Alpha3, BaseProductId, CompanyId, CompanyPackageId, CountryLabel, PackageId, ShippingId, StoreId,
};

fn raw(code: &str, level: i32, parent: Option<&str>) -> RawCountry {
    RawCountry {
        label: CountryLabel(code.to_lowercase()),
        level,
        alpha2: Alpha2(code[..2].to_string()),
        alpha3: Alpha3(code.to_string()),
        numeric: 0,
        parent: parent.map(|p| Alpha3(p.to_string())),
    }
}

fn raws() -> Vec<RawCountry> {
    vec![
        raw("RUS", 2, Some("XEU")),
        raw("XAL", 0, None),
        raw("XEU", 1, Some("XAL")),
        raw("BRA", 2, Some("XSA")),
        raw("AUT", 2, Some("XEU")),
        raw("XSA", 1, Some("XAL")),
    ]
}

fn world() -> Country {
    countries_root(&raws()).unwrap()
}

fn a3(c: &str) -> Alpha3 {
    Alpha3(c.to_string())
}

fn codes(cs: &[&str]) -> Vec<Alpha3> {
    cs.iter().map(|c| a3(c)).collect()
}

fn child_codes(c: &Country) -> Vec<Alpha3> {
    c.children.iter().map(|k| k.alpha3.clone()).collect()
}

#[test]
fn tree_is_built_from_parent_links_in_stored_order() {
    let root = world();
    assert_eq!(root.alpha3, a3("XAL"));
    assert_eq!(root.parent, None);
    assert_eq!(child_codes(&root), codes(&["XEU", "XSA"]));
    assert_eq!(child_codes(&root.children[0]), codes(&["RUS", "AUT"]));
    assert_eq!(root.children[0].children[0].parent, Some(a3("XEU")));
    assert!(!root.children[0].children[0].is_selected);
    assert_eq!(create_tree(&raws(), Some(a3("XSA"))).len(), 1);
    assert_eq!(create_tree(&raws(), Some(a3("BRA"))).len(), 0);
    assert!(countries_root(&[raw("RUS", 2, Some("XEU"))]).is_none());
}

#[test]
fn node_of_stored_country() {
    let c = country_from_raw(&raw("RUS", 2, Some("XEU")));
    assert_eq!(c.label, CountryLabel("rus".to_string()));
    assert_eq!(c.alpha2, Alpha2("RU".to_string()));
    assert!(c.children.is_empty());
    assert!(!c.is_selected);
}

#[test]
fn search_finds_first_node_with_code() {
    let root = world();
    assert!(contains_country_code(&root, &a3("BRA")));
    assert!(!contains_country_code(&root, &a3("USA")));
    assert!(contains_country_code(&root.children[0], &a3("AUT")));
    assert!(!contains_country_code(&root.children[0], &a3("BRA")));
    let found = get_country_from_forest(&root.children, &a3("XSA")).unwrap();
    assert_eq!(child_codes(&found), codes(&["BRA"]));
    assert!(get_country_from_forest(&root.children, &a3("XAL")).is_none());
}

#[test]
fn leaves_from_left_to_right() {
    let leaves = get_all_children_till_the_end(world());
    assert_eq!(leaves.iter().map(|c| c.alpha3.clone()).collect::<Vec<_>>(), codes(&["RUS", "AUT", "BRA"]));
}

#[test]
fn selection_marks_whole_subtrees() {
    let mut root = world();
    set_selected(&mut root, &codes(&["XEU", "BRA"]));
    assert!(!root.is_selected);
    assert!(root.children[0].is_selected);
    assert!(root.children[0].children.iter().all(|c| c.is_selected));
    assert!(!root.children[1].is_selected);
    assert!(root.children[1].children[0].is_selected);
    let mut selected = Vec::new();
    get_selected(&root, &mut selected);
    assert_eq!(selected, codes(&["XEU", "BRA"]));

    let mut all = world();
    set_selected_till_end(&mut all);
    assert!(all.is_selected && all.children.iter().all(|c| c.is_selected && c.children.iter().all(|k| k.is_selected)));
    let mut top = Vec::new();
    get_selected(&all, &mut top);
    assert_eq!(top, codes(&["XAL"]));
}

#[test]
fn clearing_below_a_level() {
    let cleared = clear_child_countries(world(), 1);
    assert_eq!(child_codes(&cleared), codes(&["XEU", "XSA"]));
    assert!(cleared.children.iter().all(|c| c.children.is_empty()));
    assert!(clear_child_countries(world(), 0).children.is_empty());
    assert_eq!(clear_child_countries(world(), -1).children[0].children.len(), 2);
}

#[test]
fn parent_codes_up_to_root() {
    let mut path = Vec::new();
    get_all_parent_codes(&world(), &a3("AUT"), &mut path);
    assert_eq!(path, codes(&["AUT", "XEU", "XAL"]));
    let mut none = Vec::new();
    get_all_parent_codes(&world(), &a3("USA"), &mut none);
    assert!(none.is_empty());
}

#[test]
fn tree_of_used_countries() {
    let used = create_tree_used_countries(&world(), &codes(&["AUT", "USA"]));
    assert_eq!(used.len(), 1);
    assert_eq!(child_codes(&used[0]), codes(&["XEU"]));
    assert_eq!(child_codes(&used[0].children[0]), codes(&["AUT"]));
    let whole = create_tree_used_countries(&world(), &codes(&["XAL"]));
    assert_eq!(child_codes(&whole[0]), codes(&["XEU", "XSA"]));
    let none = create_tree_used_countries(&world(), &codes(&["USA"]));
    assert!(none[0].children.is_empty());
}

#[test]
fn nodes_picked_by_predicate() {
    let picked = get_countries_by(&world(), |c: &Country| c.level == 2);
    assert_eq!(picked.iter().map(|c| c.alpha3.clone()).collect::<Vec<_>>(), codes(&["RUS", "AUT", "BRA"]));
}

#[test]
fn texts_of_stored_queries() {
    assert_eq!(
        get_pg_str_json_array(vec![CountryLabel("rus".to_string()), CountryLabel("usa".to_string())]),
        "array['rus','usa']"
    );
    assert_eq!(get_pg_str_json_array(vec![]), "array[]");
    assert_eq!(get_company_package_name("UPS".to_string(), "Box".to_string()), "UPS-Box");
}

#[test]
fn transpose_turns_option_of_result_inside_out() {
    assert_eq!(transpose::<u8, u8>(None), Ok(None));
    assert_eq!(transpose::<u8, u8>(Some(Ok(1))), Ok(Some(1)));
    assert_eq!(transpose::<u8, u8>(Some(Err(2))), Err(2));
}

fn company_package(id: i32, source: ShippingRateSourceRaw) -> CompaniesPackagesRaw {
    CompaniesPackagesRaw {
        id: CompanyPackageId(id),
        company_id: CompanyId(1),
        package_id: PackageId(1),
        shipping_rate_source: source,
        dimensional_factor: None,
    }
}

fn company() -> CompanyRaw {
    CompanyRaw {
        id: CompanyId(1),
        name: "ups".to_string(),
        label: "UPS".to_string(),
        description: None,
        deliveries_from: vec![],
        logo: "logo.png".to_string(),
    }
}

fn package(name: &str, to: &[&str]) -> PackagesRaw {
    PackagesRaw {
        id: PackageId(1),
        name: name.to_string(),
        max_size: 10,
        min_size: 1,
        max_weight: 10,
        min_weight: 1,
        deliveries_to: codes(to),
    }
}

#[test]
fn packages_offered_from_a_country() {
    let rows = vec![
        (company_package(1, ShippingRateSourceRaw::Static), company(), package("Box", &["XEU"])),
        (company_package(2, ShippingRateSourceRaw::NotAvailable), company(), package("Env", &["BRA", "USA"])),
    ];
    let result = available_packages(rows, &world(), &a3("AUT")).unwrap();
    assert_eq!(result.len(), 2);
    assert_eq!(result[0].id, CompanyPackageId(1));
    assert_eq!(result[0].name, "UPS-Box");
    assert_eq!(result[0].logo, "logo.png");
    assert_eq!(result[0].shipping_rate_source, ShippingRateSource::Static { dimensional_factor: None });
    assert!(result[0].local_available);
    assert!(!result[1].local_available);
    assert_eq!(child_codes(&result[1].deliveries_to[0]), codes(&["XSA"]));

    let rows = vec![
        (company_package(1, ShippingRateSourceRaw::Static), company(), package("Box", &["XEU"])),
        (company_package(2, ShippingRateSourceRaw::OnDemand), company(), package("Env", &["BRA"])),
        (company_package(3, ShippingRateSourceRaw::OnDemand), company(), package("Env", &["BRA"])),
    ];
    assert_eq!(
        available_packages(rows, &world(), &a3("AUT")).unwrap_err(),
        CompanyPackageError::OnDemandNotSupported { id: CompanyPackageId(2) }
    );
}

fn offer(id: i32, variant: ShippingVariant) -> AvailablePackageForUser {
    AvailablePackageForUser {
        id: CompanyPackageId(id),
        shipping_id: ShippingId(id * 10),
        name: format!("p{}", id),
        logo: String::new(),
        price: None,
        shipping_variant: variant,
        base_product_id: BaseProductId(1),
        store_id: StoreId(1),
    }
}

#[test]
fn local_offers_replace_international_ones() {
    let offers = vec![
        offer(1, ShippingVariant::International),
        offer(2, ShippingVariant::International),
        offer(1, ShippingVariant::Local),
        offer(3, ShippingVariant::Local),
    ];
    let kept = prefer_local_packages(offers);
    let summary: Vec<(i32, ShippingVariant)> = kept.iter().map(|p| (p.id.0, p.shipping_variant)).collect();
    assert_eq!(
        summary,
        vec![(2, ShippingVariant::International), (1, ShippingVariant::Local), (3, ShippingVariant::Local)]
    );
}

fn product(id: i32) -> ProductsRaw {
    ProductsRaw {
        id: ShippingId(id),
        base_product_id: BaseProductId(5),
        store_id: StoreId(6),
        company_package_id: CompanyPackageId(7),
        price: Some(ProductPrice(3)),
        deliveries_to: codes(&["RUS"]),
        shipping: ShippingVariant::Local,
    }
}

#[test]
fn offer_for_user_from_joined_row() {
    let p = available_package_for_user(
        &product(4),
        &company_package(7, ShippingRateSourceRaw::Static),
        &company(),
        &package("Box", &["RUS"]),
    );
    assert_eq!(p.id, CompanyPackageId(7));
    assert_eq!(p.shipping_id, ShippingId(4));
    assert_eq!(p.name, "UPS-Box");
    assert_eq!(p.price, Some(ProductPrice(3)));
    assert_eq!(p.shipping_variant, ShippingVariant::Local);
    assert_eq!(p.store_id, StoreId(6));
}

#[test]
fn offers_with_codes_of_their_places() {
    let rows = vec![(product(1), package("Box", &["RUS"])), (product(2), package("Env", &["XAL"]))];
    let listed = products_with_available_countries(rows, &world());
    assert_eq!(listed.len(), 2);
    assert_eq!(listed[0].0.id, ShippingId(1));
    assert_eq!(listed[0].1, codes(&["XAL"]));
    assert_eq!(listed[1].1, codes(&["XAL"]));
}

#[test]
fn checked_tree_refuses_cycles_it_meets() {
    let built = create_tree_checked(&raws(), None).unwrap();
    assert_eq!(built.len(), 1);
    assert_eq!(child_codes(&built[0]), codes(&["XEU", "XSA"]));
    let mut cyclic = raws();
    cyclic.push(raw("AAA", 3, Some("BBB")));
    cyclic.push(raw("BBB", 3, Some("AAA")));
    assert_eq!(create_tree_checked(&cyclic, None).unwrap().len(), 1);
    assert!(create_tree_checked(&cyclic, Some(a3("AAA"))).is_none());
    assert_eq!(create_tree(&cyclic, Some(a3("XSA"))).len(), 1);
}
