use delivery_lib::models::companies_packages::ShipmentMeasurements;
use delivery_lib::models::shipping_rates::{
    calculate_delivery_price, ShippingRate, ShippingRates, ZonesCsvData, ZonesCsvEntry,
};
use delivery_lib::types::{Alpha3, CompanyPackageId, ShippingRatesId};

fn rate(weight_g: u32, price: f64) -> ShippingRate {
    ShippingRate { weight_g, price: price.to_bits() }
}

fn price(p: f64) -> Option<u64> {
    Some(p.to_bits())
}

#[test]
fn calculate_billable_weight_dimensional_weight_is_chosen() {
    let dimensional_factor = Some(5);
    let measurements = ShipmentMeasurements { volume_cubic_cm: 1000, weight_g: 12 };

    let expected_billable_weight = 1000 / 5;

    assert_eq!(expected_billable_weight, measurements.calculate_billable_weight(dimensional_factor));
}

#[test]
fn calculate_billable_weight_physical_weight_is_chosen() {
    let dimensional_factor = Some(5);
    let measurements = ShipmentMeasurements { volume_cubic_cm: 10, weight_g: 12 };

    let expected_billable_weight = 12;

    assert_eq!(expected_billable_weight, measurements.calculate_billable_weight(dimensional_factor));
}

#[test]
fn calculate_billable_weight_dimensional_weight_rounds_up() {
    let dimensional_factor = Some(6);
    let measurements = ShipmentMeasurements { volume_cubic_cm: 1000, weight_g: 12 };

    let expected_billable_weight = 1000 / 6 + 1;

    assert_eq!(expected_billable_weight, measurements.calculate_billable_weight(dimensional_factor));
}

#[test]
fn calculate_billable_weight_no_dimensional_factor_physical_weight_is_chosen() {
    let dimensional_factor = None;
    let measurements = ShipmentMeasurements { volume_cubic_cm: 1000, weight_g: 12 };

    let expected_billable_weight = 12;
    assert_eq!(expected_billable_weight, measurements.calculate_billable_weight(dimensional_factor));
}

#[test]
fn calculate_billable_weight_zero_dimensional_factor_physical_weight_is_chosen() {
    let dimensional_factor = Some(0);
    let measurements = ShipmentMeasurements { volume_cubic_cm: 1000, weight_g: 12 };

    let expected_billable_weight = 12;
    assert_eq!(expected_billable_weight, measurements.calculate_billable_weight(dimensional_factor));
}

#[test]
fn calculate_delivery_price_empty_rates() {
    assert_eq!(None, calculate_delivery_price(0, vec![]));
    assert_eq!(None, calculate_delivery_price(1, vec![]));
}

#[test]
fn calculate_delivery_price_single_rate() {
    let rates = vec![rate(1000, 1200.0)];
    assert_eq!(price(1200.0), calculate_delivery_price(0, rates.clone()));
    assert_eq!(price(1200.0), calculate_delivery_price(1, rates.clone()));
    assert_eq!(price(1200.0), calculate_delivery_price(1000, rates.clone()));
    assert_eq!(None, calculate_delivery_price(1001, rates.clone()));
}

#[test]
fn calculate_delivery_price_common_cases() {
    let rates = vec![rate(1000, 1200.0), rate(500, 900.0), rate(1500, 1400.0)];

    assert_eq!(price(900.0), calculate_delivery_price(0, rates.clone()));
    assert_eq!(price(900.0), calculate_delivery_price(1, rates.clone()));
    assert_eq!(price(900.0), calculate_delivery_price(499, rates.clone()));
    assert_eq!(price(900.0), calculate_delivery_price(500, rates.clone()));
    assert_eq!(price(1200.0), calculate_delivery_price(501, rates.clone()));
    assert_eq!(price(1200.0), calculate_delivery_price(999, rates.clone()));
    assert_eq!(price(1200.0), calculate_delivery_price(1000, rates.clone()));
    assert_eq!(price(1400.0), calculate_delivery_price(1001, rates.clone()));
    assert_eq!(price(1400.0), calculate_delivery_price(1499, rates.clone()));
    assert_eq!(price(1400.0), calculate_delivery_price(1500, rates.clone()));
    assert_eq!(None, calculate_delivery_price(1501, rates));
}

#[test]
fn shipping_rates_calculate_delivery_rates() {
    let shipping_rates = ShippingRates {
        id: ShippingRatesId(1),
        company_package_id: CompanyPackageId(1),
        from_alpha3: Alpha3("RUS".to_string()),
        to_alpha3: Alpha3("USA".to_string()),
        rates: vec![rate(500, 600.0), rate(1000, 1200.0)],
    };

    assert_eq!(
        price(600.0),
        shipping_rates.calculate_delivery_price(
            ShipmentMeasurements { volume_cubic_cm: 1000, weight_g: 100 },
            Some(5)
        ),
    );

    assert_eq!(
        price(1200.0),
        shipping_rates.calculate_delivery_price(
            ShipmentMeasurements { volume_cubic_cm: 1000, weight_g: 600 },
            Some(5)
        ),
    );

    assert_eq!(
        price(1200.0),
        shipping_rates.calculate_delivery_price(
            ShipmentMeasurements { volume_cubic_cm: 3000, weight_g: 100 },
            Some(5)
        ),
    );

    assert_eq!(
        None,
        shipping_rates.calculate_delivery_price(
            ShipmentMeasurements { volume_cubic_cm: 3000, weight_g: 1001 },
            Some(5)
        ),
    );

    assert_eq!(
        price(600.0),
        shipping_rates.calculate_delivery_price(
            ShipmentMeasurements { volume_cubic_cm: 9999, weight_g: 1 },
            None
        ),
    );
}

fn entry(from: &str, to: &str, zone: u32) -> ZonesCsvEntry {
    ZonesCsvEntry { from: Alpha3(from.to_string()), to: Alpha3(to.to_string()), zone }
}

#[test]
fn zones_parse_csv_empty() {
    let csv = "From,To,Zone\n".as_bytes();

    ZonesCsvData::parse_csv(csv).unwrap_err();
}

#[test]
fn zones_parse_csv_small() {
    let csv = "From,To,Zone\n\
               RUS,USA,6\n\
               "
    .as_bytes();

    let expected_data = ZonesCsvData(vec![entry("RUS", "USA", 6)]);

    assert_eq!(expected_data, ZonesCsvData::parse_csv(csv).unwrap());
}

#[test]
fn zones_parse_csv_big() {
    let csv = "From,To,Zone\n\
               RUS,USA,6\n\
               USA,SGP,7\n\
               SGP,RUS,6\n\
               USA,RUS,8\n\
               "
    .as_bytes();

    let expected_data = ZonesCsvData(vec![
        entry("RUS", "USA", 6),
        entry("USA", "SGP", 7),
        entry("SGP", "RUS", 6),
        entry("USA", "RUS", 8),
    ]);

    assert_eq!(expected_data, ZonesCsvData::parse_csv(csv).unwrap());
}

#[test]
fn zones_parse_csv_conflicting_entries() {
    let csv = "From,To,Zone\n\
               RUS,USA,6\n\
               RUS,USA,7\n\
               "
    .as_bytes();

    ZonesCsvData::parse_csv(csv).unwrap_err();
}

#[test]
fn calculate_delivery_price_first_of_equal_limits() {
    let rates = vec![rate(2000, 5.0), rate(1000, 7.0), rate(1000, 8.0)];
    assert_eq!(price(7.0), calculate_delivery_price(900, rates.clone()));
    assert_eq!(price(5.0), calculate_delivery_price(1500, rates));
}
