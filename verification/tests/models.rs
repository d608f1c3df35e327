use delivery_lib::errors::{DatabaseFailure, Error, FieldError};
use delivery_lib::models::companies::{Company, CompanyRaw};
use delivery_lib::models::companies_packages::{
    CompaniesPackagesRaw, CompanyPackage, CompanyPackageError, MeasurementsValidationError, NewCompaniesPackagesRaw,
    NewCompanyPackage, ShipmentMeasurements, ShippingRateSource, ShippingRateSourceRaw,
};
use delivery_lib::models::countries::Country;
use delivery_lib::models::packages::{MeasurementsOutOfRange, NewPackages, Packages, PackagesRaw, UpdatePackages};
use delivery_lib::models::products::{
    NewProductValidation, NewProducts, NewProductsValidationError, ProductPrice, ProductValidationError, ProductsRaw,
    ShippingVariant,
};
use delivery_lib::models::user_addresses::{
    after_insert_step, after_update_step, create_address_step, is_same_address, AddressAction, AddressField, NewUserAddress,
    UpdateUserAddress, UserAddress,
};
use delivery_lib::models::validation_rules::{
    validate_alpha, validate_alpha2, validate_alpha3, validate_translation, LengthError, Translation, TranslationError,
};
use delivery_lib::types::{
    Alpha2, Alpha3, BaseProductId, CompanyId, CompanyPackageId, PackageId, ShippingId, StoreId, UserId,
};

fn node(code: &str, level: i32, parent: Option<&str>, children: Vec<Country>) -> Country {
    Country {
        label: code.to_string().into(),
        level,
        parent: parent.map(|p| Alpha3(p.to_string())),
        children,
        alpha2: Alpha2("".to_string()),
        alpha3: Alpha3(code.to_string()),
        numeric: 0,
        is_selected: false,
    }
}

fn world() -> Country {
    node(
        "XAL",
        0,
        None,
        vec![
            node("XEU", 1, Some("XAL"), vec![node("RUS", 2, Some("XEU"), vec![]), node("AUT", 2, Some("XEU"), vec![])]),
            node("XSA", 1, Some("XAL"), vec![node("BRA", 2, Some("XSA"), vec![])]),
        ],
    )
}

fn codes(cs: &[&str]) -> Vec<Alpha3> {
    cs.iter().map(|c| Alpha3(c.to_string())).collect()
}

#[test]
fn billable_weight_is_never_below_physical_weight() {
    for factor in [None, Some(0), Some(1), Some(7), Some(5000)].iter() {
        for (volume, weight) in [(0, 0), (1, 0), (999, 12), (1000, 1000), (u32::MAX, 1)].iter() {
            let m = ShipmentMeasurements { volume_cubic_cm: *volume, weight_g: *weight };
            assert!(m.calculate_billable_weight(*factor) >= *weight);
        }
    }
    let m = ShipmentMeasurements { volume_cubic_cm: u32::MAX, weight_g: 0 };
    assert_eq!(m.calculate_billable_weight(Some(1)), u32::MAX);
    assert_eq!(m.calculate_billable_weight(Some(2)), 2147483648);
}

#[test]
fn measurements_validation() {
    let ok = ShipmentMeasurements { volume_cubic_cm: 2_000_000, weight_g: 100_000 };
    assert_eq!(ok.validate(), Ok(()));
    assert_eq!(
        ShipmentMeasurements { volume_cubic_cm: 0, weight_g: 0 }.validate(),
        Err(MeasurementsValidationError::Volume)
    );
    assert_eq!(
        ShipmentMeasurements { volume_cubic_cm: 1, weight_g: 100_001 }.validate(),
        Err(MeasurementsValidationError::Weight)
    );
}

#[test]
fn company_package_rows() {
    let raw = |source, df| CompaniesPackagesRaw {
        id: CompanyPackageId(1),
        company_id: CompanyId(2),
        package_id: PackageId(3),
        shipping_rate_source: source,
        dimensional_factor: df,
    };
    assert_eq!(
        raw(ShippingRateSourceRaw::Static, Some(5)).to_model(),
        Ok(CompanyPackage {
            id: CompanyPackageId(1),
            company_id: CompanyId(2),
            package_id: PackageId(3),
            shipping_rate_source: ShippingRateSource::Static { dimensional_factor: Some(5) },
        })
    );
    assert_eq!(
        raw(ShippingRateSourceRaw::NotAvailable, Some(5)).to_model().unwrap().shipping_rate_source,
        ShippingRateSource::NotAvailable
    );
    assert_eq!(
        raw(ShippingRateSourceRaw::Static, Some(-1)).to_model(),
        Err(CompanyPackageError::NegativeDimensionalFactor { id: CompanyPackageId(1) })
    );
    assert_eq!(
        raw(ShippingRateSourceRaw::OnDemand, None).to_model(),
        Err(CompanyPackageError::OnDemandNotSupported { id: CompanyPackageId(1) })
    );
}

#[test]
fn new_company_package_round_trip() {
    let new = NewCompanyPackage {
        company_id: CompanyId(2),
        package_id: PackageId(3),
        shipping_rate_source: Some(ShippingRateSource::Static { dimensional_factor: Some(6000) }),
    };
    let stored = NewCompaniesPackagesRaw::from_new(new);
    let row = CompaniesPackagesRaw {
        id: CompanyPackageId(9),
        company_id: stored.company_id,
        package_id: stored.package_id,
        shipping_rate_source: stored.shipping_rate_source,
        dimensional_factor: stored.dimensional_factor,
    };
    let model = row.to_model().unwrap();
    assert_eq!(model.shipping_rate_source, new.shipping_rate_source.unwrap());
    let default = NewCompaniesPackagesRaw::from_new(NewCompanyPackage { shipping_rate_source: None, ..new });
    assert_eq!(default.shipping_rate_source, ShippingRateSourceRaw::NotAvailable);
    assert_eq!(default.dimensional_factor, None);
}

fn package(deliveries_to: &[&str]) -> Packages {
    PackagesRaw {
        id: PackageId(3),
        name: "Box".to_string(),
        max_size: 100,
        min_size: 10,
        max_weight: 1000,
        min_weight: 100,
        deliveries_to: codes(deliveries_to),
    }
    .to_packages(&world())
}

#[test]
fn package_limits() {
    let p = package(&["RUS"]);
    let m = |v, w| ShipmentMeasurements { volume_cubic_cm: v, weight_g: w };
    assert_eq!(p.within_limits(m(10, 100)), Ok(()));
    assert_eq!(p.within_limits(m(100, 1000)), Ok(()));
    assert_eq!(
        p.within_limits(m(101, 500)),
        Err(MeasurementsOutOfRange::VolumeOutOfRange { volume_cubic_cm: 101, min_volume_cubic_cm: 10, max_volume_cubic_cm: 100 })
    );
    assert_eq!(
        p.within_limits(m(50, 99)),
        Err(MeasurementsOutOfRange::WeightOutOfRange { weight_g: 99, min_weight_g: 100, max_weight_g: 1000 })
    );
    assert_eq!(
        p.within_limits(m(9, 1001)),
        Err(MeasurementsOutOfRange::VolumeAndWeightOutOfRange {
            volume_cubic_cm: 9,
            min_volume_cubic_cm: 10,
            max_volume_cubic_cm: 100,
            weight_g: 1001,
            min_weight_g: 100,
            max_weight_g: 1000,
        })
    );
}

#[test]
fn package_places_are_pruned_tree() {
    let p = package(&["RUS", "BRA"]);
    assert_eq!(p.deliveries_to.len(), 1);
    let root = &p.deliveries_to[0];
    assert_eq!(root.alpha3, Alpha3("XAL".to_string()));
    assert_eq!(root.children.len(), 2);
    assert_eq!(root.children[0].children.len(), 1);
    assert_eq!(root.children[0].children[0].alpha3, Alpha3("RUS".to_string()));
    let all = package(&["XAL"]);
    assert_eq!(all.deliveries_to[0].children[0].children.len(), 2);
}

#[test]
fn package_stored_forms() {
    let raw = NewPackages {
        name: "Box".to_string(),
        max_size: 3_000_000_000,
        min_size: 1,
        max_weight: 2,
        min_weight: 1,
        deliveries_to: codes(&["RUS"]),
    }
    .to_raw();
    assert_eq!(raw.max_size, 3_000_000_000u32 as i32);
    assert_eq!(raw.min_size, 1);
    let update = UpdatePackages {
        name: None,
        max_size: Some(7),
        min_size: None,
        max_weight: None,
        min_weight: Some(1),
        deliveries_to: None,
    }
    .to_raw();
    assert_eq!(update.max_size, Some(7));
    assert_eq!(update.min_size, None);
    assert_eq!(update.min_weight, Some(1));
}

fn new_products(price: Option<u64>, measurements: Option<ShipmentMeasurements>, delivery_from: Option<&str>, to: &[&str]) -> NewProducts {
    NewProducts {
        base_product_id: BaseProductId(1),
        store_id: StoreId(1),
        company_package_id: CompanyPackageId(1),
        price: price.map(ProductPrice),
        deliveries_to: codes(to),
        shipping: ShippingVariant::International,
        measurements,
        delivery_from: delivery_from.map(|c| Alpha3(c.to_string())),
    }
}

#[test]
fn new_products_validation() {
    assert_eq!(new_products(None, None, None, &[]).validate(), Err(NewProductsValidationError::MeasurementsMissing));
    assert_eq!(new_products(Some(1), None, None, &[]).validate(), Ok(()));
    assert_eq!(
        new_products(None, Some(ShipmentMeasurements { volume_cubic_cm: 0, weight_g: 1 }), None, &[]).validate(),
        Err(NewProductsValidationError::Measurements(MeasurementsValidationError::Volume))
    );
}

fn company(deliveries_from: &[&str]) -> Company {
    Company::from_raw(
        CompanyRaw {
            id: CompanyId(2),
            name: "UPS".to_string(),
            label: "UPS".to_string(),
            description: None,
            deliveries_from: codes(deliveries_from),
            logo: "logo".to_string(),
        },
        &world(),
    )
}

#[test]
fn product_offer_checks() {
    let m = Some(ShipmentMeasurements { volume_cubic_cm: 50, weight_g: 500 });
    let check = |from: Option<&str>, to: &[&str], m: Option<ShipmentMeasurements>| {
        NewProductValidation { product: new_products(None, m, from, to), company: company(&["XEU"]), package: package(&["RUS", "BRA"]) }
            .validate()
    };
    assert!(check(Some("AUT"), &["RUS"], m).is_ok());
    match check(Some("BRA"), &["RUS"], m) {
        Err(ProductValidationError::DeliveryFromUnavailable { delivery_from, company_name }) => {
            assert_eq!(delivery_from, Alpha3("BRA".to_string()));
            assert_eq!(company_name, "UPS");
        }
        other => panic!("unexpected {:?}", other),
    }
    match check(Some("RUS"), &["RUS", "AUT", "USA"], m) {
        Err(ProductValidationError::DeliveriesToUnavailable { unavailable, .. }) => {
            assert_eq!(unavailable, codes(&["AUT", "USA"]));
        }
        other => panic!("unexpected {:?}", other),
    }
    assert!(matches!(
        check(Some("RUS"), &["RUS"], Some(ShipmentMeasurements { volume_cubic_cm: 5000, weight_g: 500 })),
        Err(ProductValidationError::Shipment(MeasurementsOutOfRange::VolumeOutOfRange { .. }))
    ));
    assert!(matches!(check(None, &[], None), Err(ProductValidationError::Product(NewProductsValidationError::MeasurementsMissing))));
}

#[test]
fn products_rows() {
    let raw = ProductsRaw {
        id: ShippingId(4),
        base_product_id: BaseProductId(5),
        store_id: StoreId(6),
        company_package_id: CompanyPackageId(7),
        price: Some(ProductPrice(12.5f64.to_bits())),
        deliveries_to: codes(&["RUS", "USA"]),
        shipping: ShippingVariant::Local,
    };
    assert_eq!(raw.get_deliveries_to(), codes(&["RUS", "USA"]));
    let p = raw.to_products();
    assert_eq!(p.id, ShippingId(4));
    assert_eq!(p.price, Some(ProductPrice(12.5f64.to_bits())));
    assert_eq!(p.deliveries_to, codes(&["RUS", "USA"]));
    assert_eq!(p.shipping, ShippingVariant::Local);
}

fn new_address() -> NewUserAddress {
    NewUserAddress {
        user_id: UserId(1),
        administrative_area_level_1: None,
        administrative_area_level_2: None,
        country: "Russia".to_string(),
        locality: Some("Moscow".to_string()),
        political: None,
        postal_code: "101000".to_string(),
        route: None,
        street_number: None,
        address: None,
        is_priority: true,
        country_code: Some("RUS".to_string()),
    }
}

#[test]
fn address_validation() {
    assert_eq!(new_address().validate(), Ok(()));
    let bad = NewUserAddress { country: "".to_string(), postal_code: "".to_string(), country_code: Some("".to_string()), ..new_address() };
    assert_eq!(bad.validate(), Err(vec![AddressField::Country, AddressField::PostalCode, AddressField::CountryCode]));
    let no_code = NewUserAddress { country_code: None, ..new_address() };
    assert_eq!(no_code.validate(), Ok(()));
    let update = UpdateUserAddress {
        administrative_area_level_1: None,
        administrative_area_level_2: None,
        country: None,
        locality: None,
        political: None,
        postal_code: Some("".to_string()),
        route: None,
        street_number: None,
        address: None,
        is_priority: Some(true),
        country_code: None,
    };
    assert_eq!(update.validate(), Err(vec![AddressField::PostalCode]));
    assert_eq!(UpdateUserAddress { postal_code: None, ..update }.validate(), Ok(()));
}

#[test]
fn same_address_matches_absent_parts_only_with_absent_parts() {
    let payload = new_address();
    let stored = UserAddress {
        id: 3,
        user_id: UserId(1),
        administrative_area_level_1: None,
        administrative_area_level_2: None,
        country: "Russia".to_string(),
        locality: Some("Moscow".to_string()),
        political: None,
        postal_code: "101000".to_string(),
        route: None,
        street_number: None,
        address: None,
        is_priority: false,
        created_at: std::time::SystemTime::UNIX_EPOCH,
        updated_at: std::time::SystemTime::UNIX_EPOCH,
        country_code: None,
    };
    assert!(is_same_address(&stored, &payload));
    let other_locality = UserAddress { locality: None, ..stored };
    assert!(!is_same_address(&other_locality, &payload));
    let other_user = UserAddress { user_id: UserId(2), locality: Some("Moscow".to_string()), ..other_locality };
    assert!(!is_same_address(&other_user, &payload));
}

#[test]
fn code_length_checks() {
    assert_eq!(validate_alpha("ab", 2), Ok(()));
    assert_eq!(validate_alpha("abc", 2), Err(LengthError { current_length: 3, expected_length: 2 }));
    assert_eq!(validate_alpha2(&Alpha2("RU".to_string())), Ok(()));
    assert_eq!(validate_alpha2(&Alpha2("Ä1".to_string())), Err(LengthError { current_length: 3, expected_length: 2 }));
    assert_eq!(validate_alpha3(&Alpha3("RUS".to_string())), Ok(()));
    assert_eq!(validate_alpha3(&Alpha3("RUSS".to_string())), Err(LengthError { current_length: 4, expected_length: 3 }));
}

#[test]
fn translation_checks() {
    let t = |text: &str| Translation { lang: "en".to_string(), text: text.to_string() };
    assert_eq!(validate_translation(&None), Err(TranslationError::InvalidFormat));
    assert_eq!(validate_translation(&Some(vec![])), Ok(()));
    assert_eq!(validate_translation(&Some(vec![t("a"), t("b")])), Ok(()));
    assert_eq!(validate_translation(&Some(vec![t("a"), t("")])), Err(TranslationError::EmptyText));
}

#[test]
fn error_status_codes() {
    assert_eq!(Error::NotFound.code(), 404);
    assert_eq!(Error::Parse.code(), 422);
    assert_eq!(
        Error::Validate(vec![FieldError {
            field: "repo".to_string(),
            code: "not_unique".to_string(),
            message: None,
            params: vec![],
        }])
        .code(),
        400
    );
    assert_eq!(Error::Forbidden.code(), 403);
    assert_eq!(Error::Connection.code(), 500);
    assert_eq!(Error::HttpClient.code(), 500);
    assert_eq!(Error::Internal.code(), 500);
}

#[test]
fn database_failures_as_errors() {
    match Error::from_database(DatabaseFailure::UniqueViolation { message: "duplicate key".to_string() }) {
        Error::Validate(errors) => {
            assert_eq!(errors.len(), 1);
            assert_eq!(errors[0].field, "repo");
            assert_eq!(errors[0].code, "not_unique");
            assert_eq!(errors[0].message, None);
            assert_eq!(errors[0].params, vec![("message".to_string(), "duplicate key".to_string())]);
        }
        other => panic!("unexpected {:?}", other),
    }
    assert!(matches!(Error::from_database(DatabaseFailure::NotFound), Error::NotFound));
    assert!(matches!(Error::from_database(DatabaseFailure::Other), Error::Internal));
    assert_eq!(Error::from_database(DatabaseFailure::NotFound).code(), 404);
}

fn stored_address(id: i32, payload: &NewUserAddress, is_priority: bool) -> UserAddress {
    UserAddress {
        id,
        user_id: payload.user_id,
        administrative_area_level_1: payload.administrative_area_level_1.clone(),
        administrative_area_level_2: payload.administrative_area_level_2.clone(),
        country: payload.country.clone(),
        locality: payload.locality.clone(),
        political: payload.political.clone(),
        postal_code: payload.postal_code.clone(),
        route: payload.route.clone(),
        street_number: payload.street_number.clone(),
        address: payload.address.clone(),
        is_priority,
        created_at: std::time::SystemTime::UNIX_EPOCH,
        updated_at: std::time::SystemTime::UNIX_EPOCH,
        country_code: payload.country_code.clone(),
    }
}

#[test]
fn adding_an_address() {
    let payload = new_address();
    assert_eq!(create_address_step(&vec![], &payload), AddressAction::Insert);
    let other = NewUserAddress { postal_code: "190000".to_string(), ..new_address() };
    let stored = vec![stored_address(1, &other, false), stored_address(2, &payload, false), stored_address(3, &payload, true)];
    assert_eq!(create_address_step(&stored, &payload), AddressAction::ReturnExisting { index: 1 });
    assert_eq!(create_address_step(&vec![stored_address(1, &other, false)], &payload), AddressAction::Insert);
    assert_eq!(
        after_insert_step(&stored_address(7, &payload, true)),
        AddressAction::ClearPriorityExcept { user_id: UserId(1), address_id: 7 }
    );
    assert_eq!(after_insert_step(&stored_address(7, &payload, false)), AddressAction::Done);
}

#[test]
fn changing_an_address() {
    let update = |is_priority| UpdateUserAddress {
        administrative_area_level_1: None,
        administrative_area_level_2: None,
        country: None,
        locality: None,
        political: None,
        postal_code: None,
        route: None,
        street_number: None,
        address: None,
        is_priority,
        country_code: None,
    };
    let row = stored_address(4, &new_address(), true);
    assert_eq!(
        after_update_step(&update(Some(true)), &row),
        AddressAction::ClearPriorityExcept { user_id: UserId(1), address_id: 4 }
    );
    assert_eq!(after_update_step(&update(Some(false)), &row), AddressAction::Done);
    assert_eq!(after_update_step(&update(None), &row), AddressAction::Done);
}
