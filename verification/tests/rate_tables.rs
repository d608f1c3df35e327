use std::collections::HashMap;

use delivery_lib::models::rates_csv::{rate_table_records, RateRecord, RatesCsvError, ZoneRow};
use delivery_lib::models::shipping_rates::{
    NewShippingRatesBatch, RatesCsvData, ShippingRate, ShippingRatesBatchError, ZonesCsvData, ZonesCsvEntry,
    ZonesCsvError,
};
use delivery_lib::types::{Alpha3, CompanyPackageId};

fn entry(from: &str, to: &str, zone: u32) -> ZonesCsvEntry {
    ZonesCsvEntry { from: Alpha3(from.to_string()), to: Alpha3(to.to_string()), zone }
}

fn cells(texts: &[&str]) -> Vec<String> {
    texts.iter().map(|t| t.to_string()).collect()
}

fn rate(weight_g: u32, price: f64) -> ShippingRate {
    ShippingRate { weight_g, price: price.to_bits() }
}

#[test]
fn zones_codes_are_upper_cased_and_repeated_lines_count_once() {
    let csv = "From,To,Zone\nrus,Usa,6\nRUS,USA,6\n".as_bytes();
    assert_eq!(ZonesCsvData::parse_csv(csv).unwrap(), ZonesCsvData(vec![entry("RUS", "USA", 6)]));
}

#[test]
fn zones_invalid_country_code() {
    let csv = "From,To,Zone\nRUS,US1,6\n".as_bytes();
    match ZonesCsvData::parse_csv(csv) {
        Err(ZonesCsvError::InvalidCountryCode { record, column }) => {
            assert_eq!(record, 0);
            assert_eq!(column, 2);
        }
        other => panic!("unexpected {:?}", other),
    }
    let csv = "From,To,Zone\nRUS,USA,6\nRUSS,USA,6\n".as_bytes();
    assert!(matches!(
        ZonesCsvData::parse_csv(csv),
        Err(ZonesCsvError::InvalidCountryCode { record: 1, column: 1 })
    ));
}

#[test]
fn zones_non_ascii_letters_are_codes() {
    let csv = "From,To,Zone\nÄB,USA,6\n".as_bytes();
    assert_eq!(
        ZonesCsvData::parse_csv(csv).unwrap(),
        ZonesCsvData(vec![ZonesCsvEntry { from: Alpha3("ÄB".to_string()), to: Alpha3("USA".to_string()), zone: 6 }])
    );
}

#[test]
fn zones_invalid_zone_and_row() {
    let csv = "From,To,Zone\nRUS,USA,x\n".as_bytes();
    assert!(matches!(ZonesCsvData::parse_csv(csv), Err(ZonesCsvError::InvalidZone { record: 0 })));
    let csv = "From,To\nRUS,USA\n".as_bytes();
    assert!(matches!(ZonesCsvData::parse_csv(csv), Err(ZonesCsvError::InvalidRow { record: 0 })));
    let csv = "From,To,Zone\nRUS,USA,6\nRUS,USA\n".as_bytes();
    assert!(matches!(ZonesCsvData::parse_csv(csv), Err(ZonesCsvError::InvalidRecord { record: 1 })));
}

#[test]
fn zones_conflict_names_both_lines() {
    let csv = "From,To,Zone\nRUS,USA,6\nRUS,USA,7\n".as_bytes();
    match ZonesCsvData::parse_csv(csv) {
        Err(ZonesCsvError::ConflictingEntries { existing, conflicting }) => {
            assert_eq!(existing, entry("RUS", "USA", 6));
            assert_eq!(conflicting, entry("RUS", "USA", 7));
        }
        other => panic!("unexpected {:?}", other),
    }
    assert!(matches!(ZonesCsvData::parse_csv("From,To,Zone\n".as_bytes()), Err(ZonesCsvError::Empty)));
}

#[test]
fn rates_from_records_reads_zones() {
    let records = vec![
        RateRecord { weight_g: Some(500), prices: vec![Some(1.0f64.to_bits()), Some(1.2f64.to_bits())] },
        RateRecord { weight_g: Some(1000), prices: vec![Some(2.0f64.to_bits()), Some(2.2f64.to_bits())] },
    ];
    let data = RatesCsvData::from_records(ZoneRow::Read(cells(&["", "2", "40"])), records, false).unwrap();
    let mut expected = HashMap::new();
    expected.insert(2, vec![rate(500, 1.0), rate(1000, 2.0)]);
    expected.insert(40, vec![rate(500, 1.2), rate(1000, 2.2)]);
    assert_eq!(data.0, expected);
}

#[test]
fn rates_from_records_repeated_zone_collects_both_columns() {
    let records = vec![RateRecord { weight_g: Some(500), prices: vec![Some(1), Some(2)] }];
    let data = RatesCsvData::from_records(ZoneRow::Read(cells(&["", "3", "3"])), records, false).unwrap();
    assert_eq!(data.0.get(&3), Some(&vec![ShippingRate { weight_g: 500, price: 1 }, ShippingRate { weight_g: 500, price: 2 }]));
}

#[test]
fn rates_from_records_errors() {
    assert_eq!(RatesCsvData::from_records(ZoneRow::Missing, vec![], false).unwrap_err(), RatesCsvError::ZoneRowMissing);
    assert_eq!(RatesCsvData::from_records(ZoneRow::Broken, vec![], false).unwrap_err(), RatesCsvError::InvalidZoneRow);
    assert_eq!(
        RatesCsvData::from_records(ZoneRow::Read(cells(&["", "1", "x"])), vec![], false).unwrap_err(),
        RatesCsvError::InvalidZoneNumbers
    );
    assert_eq!(RatesCsvData::from_records(ZoneRow::Read(cells(&[""])), vec![], false).unwrap_err(), RatesCsvError::NoZones);
    let zones = || ZoneRow::Read(cells(&["", "1", "2"]));
    assert_eq!(
        RatesCsvData::from_records(zones(), vec![RateRecord { weight_g: Some(1), prices: vec![Some(1)] }], false)
            .unwrap_err(),
        RatesCsvError::WrongColumnCount { record: 0, prices: 1, zones: 2 }
    );
    assert_eq!(
        RatesCsvData::from_records(zones(), vec![RateRecord { weight_g: None, prices: vec![Some(1), Some(2)] }], false)
            .unwrap_err(),
        RatesCsvError::InvalidWeight { record: 0 }
    );
    assert_eq!(
        RatesCsvData::from_records(
            zones(),
            vec![
                RateRecord { weight_g: Some(1), prices: vec![Some(1), Some(2)] },
                RateRecord { weight_g: Some(2), prices: vec![Some(1), None] },
            ],
            false
        )
        .unwrap_err(),
        RatesCsvError::InvalidPrice { record: 1, column: 1 }
    );
    assert_eq!(
        RatesCsvData::from_records(zones(), vec![RateRecord { weight_g: Some(1), prices: vec![Some(1), Some(2)] }], true)
            .unwrap_err(),
        RatesCsvError::InvalidRecord { record: 1 }
    );
}

fn rate_table() -> RatesCsvData {
    let mut m = HashMap::new();
    m.insert(6, vec![rate(500, 10.0)]);
    m.insert(7, vec![rate(500, 20.0), rate(1000, 30.0)]);
    RatesCsvData(m)
}

#[test]
fn batch_gives_each_destination_its_zone_rates() {
    let zones = ZonesCsvData(vec![entry("RUS", "USA", 6), entry("RUS", "SGP", 7)]);
    let batch = NewShippingRatesBatch::try_from_csv_data(CompanyPackageId(3), zones, rate_table()).unwrap();
    assert_eq!(batch.company_package_id, CompanyPackageId(3));
    assert_eq!(batch.delivery_from, Alpha3("RUS".to_string()));
    assert_eq!(batch.delivery_to_rates.len(), 2);
    assert_eq!(batch.delivery_to_rates[0], (Alpha3("USA".to_string()), vec![rate(500, 10.0)]));
    assert_eq!(batch.delivery_to_rates[1], (Alpha3("SGP".to_string()), vec![rate(500, 20.0), rate(1000, 30.0)]));
}

#[test]
fn batch_errors() {
    assert_eq!(
        NewShippingRatesBatch::try_from_csv_data(CompanyPackageId(1), ZonesCsvData(vec![]), rate_table()).unwrap_err(),
        ShippingRatesBatchError::ZoneTableEmpty
    );
    assert_eq!(
        NewShippingRatesBatch::try_from_csv_data(
            CompanyPackageId(1),
            ZonesCsvData(vec![entry("RUS", "USA", 6)]),
            RatesCsvData(HashMap::new())
        )
        .unwrap_err(),
        ShippingRatesBatchError::RateTableEmpty
    );
    assert_eq!(
        NewShippingRatesBatch::try_from_csv_data(
            CompanyPackageId(1),
            ZonesCsvData(vec![entry("RUS", "USA", 6), entry("USA", "RUS", 6)]),
            rate_table()
        )
        .unwrap_err(),
        ShippingRatesBatchError::MixedDeliveryFrom
    );
    assert_eq!(
        NewShippingRatesBatch::try_from_csv_data(
            CompanyPackageId(1),
            ZonesCsvData(vec![entry("RUS", "USA", 6), entry("RUS", "SGP", 8), entry("RUS", "AUT", 9)]),
            rate_table()
        )
        .unwrap_err(),
        ShippingRatesBatchError::ZoneRatesNotFound { zone: 8 }
    );
}

#[test]
fn zones_codes_need_alphabetic_characters() {
    let csv = "From,To,Zone\nR-S,USA,6\n".as_bytes();
    assert!(matches!(
        ZonesCsvData::parse_csv(csv),
        Err(ZonesCsvError::InvalidCountryCode { record: 0, column: 1 })
    ));
    let csv = "From,To,Zone\nжук,USA,6\n".as_bytes();
    assert!(matches!(
        ZonesCsvData::parse_csv(csv),
        Err(ZonesCsvError::InvalidCountryCode { record: 0, column: 1 })
    ));
}

#[test]
fn rate_table_lines_as_read() {
    let (zones, rows, broken) = rate_table_records("Weight,Zone,,\n,2,40,800\n0.5,1,1.2,1.33\n".as_bytes());
    match zones {
        ZoneRow::Read(cells) => assert_eq!(cells, vec!["", "2", "40", "800"]),
        other => panic!("unexpected {:?}", other),
    }
    assert_eq!(rows, vec![vec!["0.5", "1", "1.2", "1.33"]]);
    assert!(!broken);
    let (zones, rows, broken) = rate_table_records("Weight,Zone\n".as_bytes());
    assert!(matches!(zones, ZoneRow::Missing));
    assert!(rows.is_empty() && !broken);
    let (zones, _, broken) = rate_table_records("Weight,Zone\n1,2,3\n".as_bytes());
    assert!(matches!(zones, ZoneRow::Broken));
    assert!(!broken);
}

fn parse_rates(csv: &[u8]) -> Result<RatesCsvData, RatesCsvError> {
    let (zone_row, rows, broken) = rate_table_records(csv);
    let records = rows
        .iter()
        .map(|r| RateRecord {
            weight_g: r.first().and_then(|w| w.parse::<f64>().ok()).map(|kg| (kg * 1000.0).round() as u32),
            prices: r.iter().skip(1).map(|p| p.parse::<f64>().ok().map(f64::to_bits)).collect(),
        })
        .collect();
    RatesCsvData::from_records(zone_row, records, broken)
}

#[test]
fn rates_parse_csv_empty() {
    let csv = "Weight,Zone\n".as_bytes();

    parse_rates(csv).unwrap_err();
}

#[test]
fn rates_parse_csv_small() {
    let csv = "Weight,Zone\n\
               ,6\n\
               0.5,1234.56\n\
               "
    .as_bytes();

    let mut expected = HashMap::new();
    expected.insert(6, vec![rate(500, 1234.56)]);

    assert_eq!(expected, parse_rates(csv).unwrap().0);
}

#[test]
fn rates_parse_csv_big() {
    let csv = "Weight,Zone,,\n\
               ,2,40,800\n\
               0.5,1,1.2,1.33\n\
               1,2,2.2,2.33\n\
               9.99,3,3.2,3.33\n\
               "
    .as_bytes();

    let mut expected = HashMap::new();
    expected.insert(2, vec![rate(500, 1.0), rate(1000, 2.0), rate(9990, 3.0)]);
    expected.insert(40, vec![rate(500, 1.2), rate(1000, 2.2), rate(9990, 3.2)]);
    expected.insert(800, vec![rate(500, 1.33), rate(1000, 2.33), rate(9990, 3.33)]);

    assert_eq!(expected, parse_rates(csv).unwrap().0);
}

#[test]
fn rates_parse_csv_invalid() {
    let csv = "Weight,Zone,\n\
               ,1,2\n\
               1,1.1,1.2\n\
               2,2.1,\n\
               "
    .as_bytes();

    parse_rates(csv).unwrap_err();
}
