//! Verified core of the goods delivery service: country trees, access
//! control, shipment measurements, shipping rates and request routing.

pub mod config;
pub mod errors;
pub mod extras;
pub mod types;
pub mod models;
pub mod repos;
pub mod text;
pub mod controller;
