//! Plain identifier types shared by the models: country codes, labels and
//! numeric ids of the stored entities.
use vstd::prelude::*;
use vstd::std_specs::cmp::PartialEqSpecImpl;
use vstd::std_specs::convert::FromSpecImpl;

verus! {

/// ISO 3166 alpha-2 country code (empty for regions).
#[derive(Debug)]
pub struct Alpha2(pub String);

/// ISO 3166 alpha-3 country code; regions use codes starting with `X`.
#[derive(Debug)]
pub struct Alpha3(pub String);

/// Human readable name of a country or a region.
#[derive(Debug)]
pub struct CountryLabel(pub String);

impl View for Alpha2 {
    type V = Seq<char>;

    open spec fn view(&self) -> Seq<char> {
        self.0@
    }
}

impl View for Alpha3 {
    type V = Seq<char>;

    open spec fn view(&self) -> Seq<char> {
        self.0@
    }
}

impl View for CountryLabel {
    type V = Seq<char>;

    open spec fn view(&self) -> Seq<char> {
        self.0@
    }
}

impl Clone for Alpha2 {
    fn clone(&self) -> (res: Self)
        ensures
            res == *self,
    {
        Alpha2(self.0.clone())
    }
}

impl Clone for Alpha3 {
    fn clone(&self) -> (res: Self)
        ensures
            res == *self,
    {
        Alpha3(self.0.clone())
    }
}

impl Clone for CountryLabel {
    fn clone(&self) -> (res: Self)
        ensures
            res == *self,
    {
        CountryLabel(self.0.clone())
    }
}

impl PartialEq for Alpha2 {
    fn eq(&self, other: &Self) -> (res: bool) {
        self.0 == other.0
    }
}

impl PartialEqSpecImpl for Alpha2 {
    open spec fn obeys_eq_spec() -> bool {
        true
    }

    open spec fn eq_spec(&self, other: &Self) -> bool {
        self@ == other@
    }
}

impl PartialEq for Alpha3 {
    fn eq(&self, other: &Self) -> (res: bool) {
        self.0 == other.0
    }
}

impl PartialEqSpecImpl for Alpha3 {
    open spec fn obeys_eq_spec() -> bool {
        true
    }

    open spec fn eq_spec(&self, other: &Self) -> bool {
        self@ == other@
    }
}

impl PartialEq for CountryLabel {
    fn eq(&self, other: &Self) -> (res: bool) {
        self.0 == other.0
    }
}

impl PartialEqSpecImpl for CountryLabel {
    open spec fn obeys_eq_spec() -> bool {
        true
    }

    open spec fn eq_spec(&self, other: &Self) -> bool {
        self@ == other@
    }
}

impl From<String> for CountryLabel {
    fn from(label: String) -> (res: Self) {
        CountryLabel(label)
    }
}

impl FromSpecImpl<String> for CountryLabel {
    open spec fn obeys_from_spec() -> bool {
        true
    }

    open spec fn from_spec(label: String) -> Self {
        CountryLabel(label)
    }
}

/// Id of a user of the platform.
#[derive(Clone, Copy, PartialEq, Eq, Debug, Structural)]
pub struct UserId(pub i32);

/// Id of a store.
#[derive(Clone, Copy, PartialEq, Eq, Debug, Structural)]
pub struct StoreId(pub i32);

/// Id of a delivery company.
#[derive(Clone, Copy, PartialEq, Eq, Debug, Structural)]
pub struct CompanyId(pub i32);

/// Id of a package kind (a parcel format with limits).
#[derive(Clone, Copy, PartialEq, Eq, Debug, Structural)]
pub struct PackageId(pub i32);

/// Id of a package kind offered by a company.
#[derive(Clone, Copy, PartialEq, Eq, Debug, Structural)]
pub struct CompanyPackageId(pub i32);

/// Id of a base product.
#[derive(Clone, Copy, PartialEq, Eq, Debug, Structural)]
pub struct BaseProductId(pub i32);

/// Id of a shipping offer of a product.
#[derive(Clone, Copy, PartialEq, Eq, Debug, Structural)]
pub struct ShippingId(pub i32);

/// Id of a stored table of shipping rates.
#[derive(Clone, Copy, PartialEq, Eq, Debug, Structural)]
pub struct ShippingRatesId(pub i32);

/// Roles a user can hold in the delivery service.
#[derive(Clone, Copy, PartialEq, Eq, Debug, Structural)]
pub enum DeliveryRole {
    Superuser,
    User,
    StoreManager,
}

/// Compares two alpha-3 codes by their text.
pub fn alpha3_eq(a: &Alpha3, b: &Alpha3) -> (res: bool)
    ensures
        res == (a@ == b@),
{
    a.0 == b.0
}

} // verus!
