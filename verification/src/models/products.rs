//! Shipping offers of products and the checks that a new offer must pass.
use vstd::prelude::*;
use crate::models::companies::Company;
use crate::models::companies_packages::{MeasurementsValidationError, ShipmentMeasurements};
use crate::models::countries::{codes_model, find_in_forest, forest_model, get_country_from_forest};
use crate::models::packages::{MeasurementsOutOfRange, Packages, limits_check};
use crate::types::{Alpha3, BaseProductId, CompanyPackageId, ShippingId, StoreId};

verus! {

/// Whether a product ships inside the seller's country or abroad.
#[derive(Clone, Copy, PartialEq, Eq, Debug, Structural)]
pub enum ShippingVariant {
    Local,
    International,
}

/// A price, held as the bits of its IEEE 754 double-precision value.
#[derive(Clone, Copy, PartialEq, Eq, Debug, Structural)]
pub struct ProductPrice(pub u64);

/// A shipping offer of a product, as stored; `deliveries_to` holds the
/// stored codes of the places it is delivered to.
#[derive(Debug)]
pub struct ProductsRaw {
    pub id: ShippingId,
    pub base_product_id: BaseProductId,
    pub store_id: StoreId,
    pub company_package_id: CompanyPackageId,
    pub price: Option<ProductPrice>,
    pub deliveries_to: Vec<Alpha3>,
    pub shipping: ShippingVariant,
}

/// A shipping offer of a product.
#[derive(Debug)]
pub struct Products {
    pub id: ShippingId,
    pub base_product_id: BaseProductId,
    pub store_id: StoreId,
    pub company_package_id: CompanyPackageId,
    pub price: Option<ProductPrice>,
    pub deliveries_to: Vec<Alpha3>,
    pub shipping: ShippingVariant,
}

impl ProductsRaw {
    /// The offer of a stored row.
    pub fn to_products(self) -> (res: Products)
        ensures
            res.id == self.id,
            res.base_product_id == self.base_product_id,
            res.store_id == self.store_id,
            res.company_package_id == self.company_package_id,
            res.price == self.price,
            res.deliveries_to@ == self.deliveries_to@,
            res.shipping == self.shipping,
    {
        Products {
            id: self.id,
            base_product_id: self.base_product_id,
            store_id: self.store_id,
            company_package_id: self.company_package_id,
            price: self.price,
            deliveries_to: self.deliveries_to,
            shipping: self.shipping,
        }
    }

    /// The stored codes of the places the offer delivers to.
    pub fn get_deliveries_to(&self) -> (res: Vec<Alpha3>)
        ensures
            res@ == self.deliveries_to@,
    {
        let res = self.deliveries_to.clone();
        assert(res@ =~= self.deliveries_to@);
        res
    }
}

/// A new shipping offer of a product.
#[derive(Debug)]
pub struct NewProducts {
    pub base_product_id: BaseProductId,
    pub store_id: StoreId,
    pub company_package_id: CompanyPackageId,
    pub price: Option<ProductPrice>,
    pub deliveries_to: Vec<Alpha3>,
    pub shipping: ShippingVariant,
    pub measurements: Option<ShipmentMeasurements>,
    pub delivery_from: Option<Alpha3>,
}

/// Why a new shipping offer is refused on its own.
#[derive(Clone, Copy, PartialEq, Eq, Debug, Structural)]
pub enum NewProductsValidationError {
    /// Neither a price nor measurements are given.
    MeasurementsMissing,
    /// The measurements are out of their reasonable ranges.
    Measurements(MeasurementsValidationError),
}

/// The checks of a shipping offer on its own: without a fixed price the
/// measurements must be given, and given measurements must be reasonable.
pub open spec fn product_check(p: NewProducts) -> Result<(), NewProductsValidationError> {
    if p.price is None && p.measurements is None {
        Err(NewProductsValidationError::MeasurementsMissing)
    } else {
        match p.measurements {
            Some(m) => {
                if !(0 < m.volume_cubic_cm <= crate::models::companies_packages::MAX_REASONABLE_VOLUME_CUBIC_CM) {
                    Err(NewProductsValidationError::Measurements(MeasurementsValidationError::Volume))
                } else if !(0 < m.weight_g <= crate::models::companies_packages::MAX_REASONABLE_WEIGHT_G) {
                    Err(NewProductsValidationError::Measurements(MeasurementsValidationError::Weight))
                } else {
                    Ok(())
                }
            },
            None => Ok(()),
        }
    }
}

impl NewProducts {
    /// Checks the offer on its own.
    pub fn validate(&self) -> (res: Result<(), NewProductsValidationError>)
        ensures
            res == product_check(*self),
    {
        if self.price.is_none() && self.measurements.is_none() {
            return Err(NewProductsValidationError::MeasurementsMissing);
        }
        match &self.measurements {
            Some(measurements) => match measurements.validate() {
                Ok(()) => Ok(()),
                Err(e) => Err(NewProductsValidationError::Measurements(e)),
            },
            None => Ok(()),
        }
    }
}

/// Given measurements are always checked, whatever the price: a volume
/// outside 1 ..= 2 000 000 cubic cm refuses the offer for its volume, and a
/// reasonable volume with a weight outside 1 ..= 100 000 g refuses it for
/// its weight. An offer passes exactly when it has a price or measurements,
/// and its measurements, where given, are in those ranges.
pub proof fn lemma_measurements_checked_whatever_the_price(p: NewProducts)
    ensures
        p.measurements matches Some(m) && !(0 < m.volume_cubic_cm <= 2_000_000) ==> product_check(p)
            == Err::<(), NewProductsValidationError>(
            NewProductsValidationError::Measurements(MeasurementsValidationError::Volume),
        ),
        p.measurements matches Some(m) && 0 < m.volume_cubic_cm <= 2_000_000 && !(0 < m.weight_g
            <= 100_000) ==> product_check(p) == Err::<(), NewProductsValidationError>(
            NewProductsValidationError::Measurements(MeasurementsValidationError::Weight),
        ),
        product_check(p) is Ok <==> (p.price is Some || p.measurements is Some) && (
        p.measurements matches Some(m) ==> 0 < m.volume_cubic_cm <= 2_000_000 && 0 < m.weight_g
            <= 100_000),
{
}

/// A new shipping offer together with the company and the package kind it
/// uses.
#[derive(Debug)]
pub struct NewProductValidation {
    pub product: NewProducts,
    pub company: Company,
    pub package: Packages,
}

/// Why a new shipping offer is refused.
#[derive(Debug)]
pub enum ProductValidationError {
    /// The offer fails the checks on its own.
    Product(NewProductsValidationError),
    /// The company does not ship from the given place.
    DeliveryFromUnavailable { delivery_from: Alpha3, company_name: String },
    /// The package kind is not delivered to these places (in the order of
    /// the offer).
    DeliveriesToUnavailable { unavailable: Vec<Alpha3>, company_name: String },
    /// The measurements are out of the limits of the package kind.
    Shipment(MeasurementsOutOfRange),
}

/// The destinations of `codes` that the places of `places` do not cover.
pub open spec fn unavailable_codes(codes: Seq<Seq<char>>, places: Seq<crate::models::countries::CountryModel>) -> Seq<Seq<char>> {
    codes.filter(|c: Seq<char>| find_in_forest(places, c, 0) is None)
}

/// The destinations that `codes_model(codes)` names and the package kind
/// does not cover, in order.
pub fn unavailable_destinations(deliveries_to: &Vec<Alpha3>, places: &Vec<crate::models::countries::Country>) -> (res: Vec<Alpha3>)
    ensures
        codes_model(res@) == unavailable_codes(codes_model(deliveries_to@), forest_model(places@)),
{
    let ghost codes = codes_model(deliveries_to@);
    let ghost ms = forest_model(places@);
    let ghost pred = |c: Seq<char>| find_in_forest(ms, c, 0) is None;
    let mut res: Vec<Alpha3> = Vec::new();
    let mut i: usize = 0;
    while i < deliveries_to.len()
        invariant
            i <= deliveries_to@.len(),
            codes == codes_model(deliveries_to@),
            ms == forest_model(places@),
            pred == (|c: Seq<char>| find_in_forest(ms, c, 0) is None),
            codes_model(res@) == codes.take(i as int).filter(pred),
        decreases deliveries_to.len() - i,
    {
        let ghost before = res@;
        assert(codes.take(i + 1) =~= codes.take(i as int).push(codes[i as int]));
        proof {
            codes.take(i as int).lemma_filter_push(codes[i as int], pred);
        }
        assert(codes[i as int] == deliveries_to@[i as int]@);
        let found = get_country_from_forest(places, &deliveries_to[i]);
        if found.is_none() {
            let c = deliveries_to[i].clone();
            res.push(c);
            assert(codes_model(res@) =~= codes_model(before).push(c@));
        }
        i = i + 1;
    }
    assert(codes.take(i as int) =~= codes);
    res
}

/// The destinations reported as unavailable are exactly the destinations
/// of the offer that no place of the package kind covers.
pub proof fn lemma_unavailable_are_the_uncovered(
    codes: Seq<Seq<char>>,
    places: Seq<crate::models::countries::CountryModel>,
    c: Seq<char>,
)
    ensures
        unavailable_codes(codes, places).contains(c) <==> codes.contains(c) && find_in_forest(
            places,
            c,
            0,
        ) is None,
{
    let pred = |x: Seq<char>| find_in_forest(places, x, 0) is None;
    if unavailable_codes(codes, places).contains(c) {
        codes.lemma_filter_contains_rev(pred, c);
    }
    if codes.contains(c) && find_in_forest(places, c, 0) is None {
        let i = choose|i: int| 0 <= i < codes.len() && codes[i] == c;
        codes.lemma_filter_contains(pred, i);
    }
}

impl NewProductValidation {
    /// Checks a new offer: first on its own, then that the company ships
    /// from the given place, then that the package kind is delivered to
    /// every destination, and last that the measurements fit the limits of
    /// the package kind.
    pub fn validate(&self) -> (res: Result<(), ProductValidationError>)
        ensures
            product_check(self.product) matches Err(e) ==> res == Err::<(), ProductValidationError>(
                ProductValidationError::Product(e),
            ),
            product_check(self.product) is Ok ==> match self.product.delivery_from {
                Some(df) if find_in_forest(forest_model(self.company.deliveries_from@), df@, 0) is None =>
                    res == Err::<(), ProductValidationError>(
                    ProductValidationError::DeliveryFromUnavailable {
                        delivery_from: df,
                        company_name: self.company.name,
                    },
                ),
                _ => {
                    let unavailable = unavailable_codes(
                        codes_model(self.product.deliveries_to@),
                        forest_model(self.package.deliveries_to@),
                    );
                    if unavailable.len() > 0 {
                        res matches Err(ProductValidationError::DeliveriesToUnavailable { unavailable: u, company_name: n })
                            && codes_model(u@) == unavailable && n == self.company.name
                    } else {
                        match self.product.measurements {
                            Some(m) => res == match limits_check(
                                self.package.max_size,
                                self.package.min_size,
                                self.package.max_weight,
                                self.package.min_weight,
                                m,
                            ) {
                                Ok(()) => Ok::<(), ProductValidationError>(()),
                                Err(e) => Err(ProductValidationError::Shipment(e)),
                            },
                            None => res is Ok,
                        }
                    }
                },
            },
    {
        match self.product.validate() {
            Ok(()) => {},
            Err(e) => {
                return Err(ProductValidationError::Product(e));
            },
        }
        match &self.product.delivery_from {
            Some(delivery_from) => {
                if get_country_from_forest(&self.company.deliveries_from, delivery_from).is_none() {
                    return Err(
                        ProductValidationError::DeliveryFromUnavailable {
                            delivery_from: delivery_from.clone(),
                            company_name: self.company.name.clone(),
                        },
                    );
                }
            },
            None => {},
        }
        let unavailable = unavailable_destinations(&self.product.deliveries_to, &self.package.deliveries_to);
        if unavailable.len() != 0 {
            return Err(
                ProductValidationError::DeliveriesToUnavailable {
                    unavailable,
                    company_name: self.company.name.clone(),
                },
            );
        }
        match self.product.measurements {
            Some(measurements) => match self.package.within_limits(measurements) {
                Ok(()) => Ok(()),
                Err(e) => Err(ProductValidationError::Shipment(e)),
            },
            None => Ok(()),
        }
    }
}

} // verus!
