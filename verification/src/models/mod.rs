pub mod authorization;
pub mod companies;
pub mod companies_packages;
pub mod countries;
pub mod delivery;
pub mod packages;
pub mod products;
pub mod rates_csv;
pub mod shipping_rates;
pub mod user_addresses;
pub mod validation_rules;
