//! Delivery companies and what is stored with the places they deliver to.
use vstd::prelude::*;

verus! {

/// The delivery companies that the service knows.
#[derive(Clone, Copy, PartialEq, Eq, Debug, Structural)]
pub enum DeliveryCompany {
    UPS,
}

/// Free-form information stored with a place a company delivers to.
#[derive(Clone, Debug)]
pub struct AdditionalInfo {
    pub data: String,
}

} // verus!
