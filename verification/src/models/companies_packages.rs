//! Package kinds offered by delivery companies, and the measurements of a
//! shipment.
use vstd::prelude::*;
use crate::models::countries::Country;
use crate::models::products::{ProductPrice, ShippingVariant};
use crate::types::{BaseProductId, CompanyId, CompanyPackageId, PackageId, ShippingId, StoreId};

verus! {

/// Volume and weight of a shipment.
#[derive(Clone, Copy, PartialEq, Eq, Debug, Structural)]
pub struct ShipmentMeasurements {
    pub volume_cubic_cm: u32,
    pub weight_g: u32,
}

/// Largest volume that a shipment may have, in cm³.
pub const MAX_REASONABLE_VOLUME_CUBIC_CM: u32 = 2_000_000;

/// Largest weight that a shipment may have, in g.
pub const MAX_REASONABLE_WEIGHT_G: u32 = 100_000;

/// The first measurement that is out of its reasonable range.
#[derive(Clone, Copy, PartialEq, Eq, Debug, Structural)]
pub enum MeasurementsValidationError {
    /// The volume is not in `0 < x <= 2 000 000` cm³.
    Volume,
    /// The weight is not in `0 < x <= 100 000` g.
    Weight,
}

/// `a / b` rounded up.
pub open spec fn ceil_div(a: int, b: int) -> int {
    (a + b - 1) / b
}

/// The weight that a carrier bills: the physical weight, or the
/// dimensional weight (volume divided by the dimensional factor, rounded
/// up) when a positive factor is given and it is larger.
pub open spec fn billable_weight(m: ShipmentMeasurements, dimensional_factor: Option<u32>) -> int {
    match dimensional_factor {
        Some(df) if df > 0 => {
            let dim = ceil_div(m.volume_cubic_cm as int, df as int);
            if m.weight_g >= dim {
                m.weight_g as int
            } else {
                dim
            }
        },
        _ => m.weight_g as int,
    }
}

impl ShipmentMeasurements {
    /// The weight that a carrier bills for the shipment.
    pub fn calculate_billable_weight(&self, dimensional_factor: Option<u32>) -> (res: u32)
        ensures
            res == billable_weight(*self, dimensional_factor),
    {
        match dimensional_factor {
            Some(df) if df > 0 => {
                let volume = self.volume_cubic_cm as u64;
                let factor = df as u64;
                let dim = (volume + factor - 1) / factor;
                proof {
                    lemma_ceil_div(volume as int, factor as int);
                }
                assert(dim as int == ceil_div(volume as int, factor as int));
                let dim_weight = dim as u32;
                if self.weight_g >= dim_weight {
                    self.weight_g
                } else {
                    dim_weight
                }
            },
            _ => self.weight_g,
        }
    }

    /// Checks that the volume and the weight lie in their reasonable ranges;
    /// the volume is checked first.
    pub fn validate(&self) -> (res: Result<(), MeasurementsValidationError>)
        ensures
            !(0 < self.volume_cubic_cm <= MAX_REASONABLE_VOLUME_CUBIC_CM) ==> res == Err::<
                (),
                MeasurementsValidationError,
            >(MeasurementsValidationError::Volume),
            (0 < self.volume_cubic_cm <= MAX_REASONABLE_VOLUME_CUBIC_CM) && !(0 < self.weight_g
                <= MAX_REASONABLE_WEIGHT_G) ==> res == Err::<(), MeasurementsValidationError>(
                MeasurementsValidationError::Weight,
            ),
            (0 < self.volume_cubic_cm <= MAX_REASONABLE_VOLUME_CUBIC_CM) && (0 < self.weight_g
                <= MAX_REASONABLE_WEIGHT_G) ==> res is Ok,
    {
        if !(self.volume_cubic_cm > 0 && self.volume_cubic_cm <= MAX_REASONABLE_VOLUME_CUBIC_CM) {
            return Err(MeasurementsValidationError::Volume);
        }
        if !(self.weight_g > 0 && self.weight_g <= MAX_REASONABLE_WEIGHT_G) {
            return Err(MeasurementsValidationError::Weight);
        }
        Ok(())
    }
}

/// The dimensional weight is the volume divided by the factor, rounded up:
/// it is the least weight whose product with the factor reaches the volume.
pub proof fn lemma_ceil_div(a: int, b: int)
    requires
        0 <= a,
        0 < b,
    ensures
        ceil_div(a, b) * b >= a,
        (ceil_div(a, b) - 1) * b < a || ceil_div(a, b) == 0,
        0 <= ceil_div(a, b) <= a,
{
    let q = ceil_div(a, b);
    let r = (a + b - 1) % b;
    assert(a + b - 1 == q * b + r) by (nonlinear_arith)
        requires
            q == (a + b - 1) / b,
            r == (a + b - 1) % b,
            b > 0,
    ;
    assert(0 <= r < b) by (nonlinear_arith)
        requires
            r == (a + b - 1) % b,
            b > 0,
    ;
    assert(q >= 0) by (nonlinear_arith)
        requires
            q == (a + b - 1) / b,
            b > 0,
            a >= 0,
    ;
    assert(q * b >= a);
    assert((q - 1) * b == q * b - b) by (nonlinear_arith);
    assert(q <= a) by (nonlinear_arith)
        requires
            q * b == a + b - 1 - r,
            0 <= r,
            b >= 1,
            q >= 0,
            a >= 0,
    ;
}

/// The billable weight is never less than the physical weight nor than the
/// dimensional weight, and it is one of the two.
pub proof fn lemma_billable_weight_bounds(m: ShipmentMeasurements, dimensional_factor: Option<u32>)
    ensures
        billable_weight(m, dimensional_factor) >= m.weight_g,
        match dimensional_factor {
            Some(df) => df > 0 ==> billable_weight(m, dimensional_factor) * df >= m.volume_cubic_cm,
            None => true,
        },
        billable_weight(m, dimensional_factor) == m.weight_g || match dimensional_factor {
            Some(df) => df > 0 && billable_weight(m, dimensional_factor) == ceil_div(
                m.volume_cubic_cm as int,
                df as int,
            ),
            None => false,
        },
{
    if let Some(df) = dimensional_factor {
        if df > 0 {
            lemma_ceil_div(m.volume_cubic_cm as int, df as int);
            let b = billable_weight(m, dimensional_factor);
            let d = ceil_div(m.volume_cubic_cm as int, df as int);
            assert(b >= d);
            assert(b * df >= d * df) by (nonlinear_arith)
                requires
                    b >= d,
                    df > 0,
            ;
        }
    }
}

/// Where the rates of a package kind come from.
#[derive(Clone, Copy, PartialEq, Eq, Debug, Structural)]
pub enum ShippingRateSource {
    NotAvailable,
    Static { dimensional_factor: Option<u32> },
}

impl Default for ShippingRateSource {
    fn default() -> (res: Self)
        ensures
            res == ShippingRateSource::NotAvailable,
    {
        ShippingRateSource::NotAvailable
    }
}

/// Where the rates come from, as stored.
#[derive(Clone, Copy, PartialEq, Eq, Debug, Structural)]
pub enum ShippingRateSourceRaw {
    NotAvailable,
    Static,
    OnDemand,
}

/// A package kind offered by a company.
#[derive(Clone, Copy, PartialEq, Eq, Debug, Structural)]
pub struct CompanyPackage {
    pub id: CompanyPackageId,
    pub company_id: CompanyId,
    pub package_id: PackageId,
    pub shipping_rate_source: ShippingRateSource,
}

/// A package kind offered by a company, as stored.
#[derive(Clone, Copy, PartialEq, Eq, Debug, Structural)]
pub struct CompaniesPackagesRaw {
    pub id: CompanyPackageId,
    pub company_id: CompanyId,
    pub package_id: PackageId,
    pub shipping_rate_source: ShippingRateSourceRaw,
    pub dimensional_factor: Option<i32>,
}

/// Why a stored company package cannot be read.
#[derive(Clone, Copy, PartialEq, Eq, Debug, Structural)]
pub enum CompanyPackageError {
    /// The stored dimensional factor is negative.
    NegativeDimensionalFactor { id: CompanyPackageId },
    /// Rates fetched on demand are not supported.
    OnDemandNotSupported { id: CompanyPackageId },
}

/// The company package that a stored row describes.
pub open spec fn company_package_of_raw(raw: CompaniesPackagesRaw) -> Result<
    CompanyPackage,
    CompanyPackageError,
> {
    let made = |source: ShippingRateSource|
        CompanyPackage {
            id: raw.id,
            company_id: raw.company_id,
            package_id: raw.package_id,
            shipping_rate_source: source,
        };
    match raw.shipping_rate_source {
        ShippingRateSourceRaw::NotAvailable => Ok(made(ShippingRateSource::NotAvailable)),
        ShippingRateSourceRaw::Static => match raw.dimensional_factor {
            None => Ok(made(ShippingRateSource::Static { dimensional_factor: None })),
            Some(df) => if df < 0 {
                Err(CompanyPackageError::NegativeDimensionalFactor { id: raw.id })
            } else {
                Ok(made(ShippingRateSource::Static { dimensional_factor: Some(df as u32) }))
            },
        },
        ShippingRateSourceRaw::OnDemand => Err(
            CompanyPackageError::OnDemandNotSupported { id: raw.id },
        ),
    }
}

impl CompaniesPackagesRaw {
    /// Reads a stored row; a negative dimensional factor and rates fetched
    /// on demand are refused.
    pub fn to_model(self) -> (res: Result<CompanyPackage, CompanyPackageError>)
        ensures
            res == company_package_of_raw(self),
    {
        let CompaniesPackagesRaw { id, company_id, package_id, shipping_rate_source, dimensional_factor } =
            self;
        match shipping_rate_source {
            ShippingRateSourceRaw::NotAvailable => Ok(
                CompanyPackage {
                    id,
                    company_id,
                    package_id,
                    shipping_rate_source: ShippingRateSource::NotAvailable,
                },
            ),
            ShippingRateSourceRaw::Static => match dimensional_factor {
                None => Ok(
                    CompanyPackage {
                        id,
                        company_id,
                        package_id,
                        shipping_rate_source: ShippingRateSource::Static { dimensional_factor: None },
                    },
                ),
                Some(df) => if df < 0 {
                    Err(CompanyPackageError::NegativeDimensionalFactor { id })
                } else {
                    Ok(
                        CompanyPackage {
                            id,
                            company_id,
                            package_id,
                            shipping_rate_source: ShippingRateSource::Static {
                                dimensional_factor: Some(df as u32),
                            },
                        },
                    )
                },
            },
            ShippingRateSourceRaw::OnDemand => Err(CompanyPackageError::OnDemandNotSupported { id }),
        }
    }
}

/// A package kind that a company starts to offer; no source means that no
/// rates are available.
#[derive(Clone, Copy, PartialEq, Eq, Debug, Structural)]
pub struct NewCompanyPackage {
    pub company_id: CompanyId,
    pub package_id: PackageId,
    pub shipping_rate_source: Option<ShippingRateSource>,
}

/// A package kind that a company starts to offer, as stored.
#[derive(Clone, Copy, PartialEq, Eq, Debug, Structural)]
pub struct NewCompaniesPackagesRaw {
    pub company_id: CompanyId,
    pub package_id: PackageId,
    pub shipping_rate_source: ShippingRateSourceRaw,
    pub dimensional_factor: Option<i32>,
}

/// The stored form of a new company package.
pub open spec fn raw_of_new_company_package(p: NewCompanyPackage) -> NewCompaniesPackagesRaw {
    match p.shipping_rate_source {
        Some(ShippingRateSource::Static { dimensional_factor }) => NewCompaniesPackagesRaw {
            company_id: p.company_id,
            package_id: p.package_id,
            shipping_rate_source: ShippingRateSourceRaw::Static,
            dimensional_factor: match dimensional_factor {
                Some(df) => Some(df as i32),
                None => None,
            },
        },
        _ => NewCompaniesPackagesRaw {
            company_id: p.company_id,
            package_id: p.package_id,
            shipping_rate_source: ShippingRateSourceRaw::NotAvailable,
            dimensional_factor: None,
        },
    }
}

impl NewCompaniesPackagesRaw {
    /// The stored form of a new company package (the conversion of `From`).
    pub fn from_new(new_company_package: NewCompanyPackage) -> (res: Self)
        ensures
            res == raw_of_new_company_package(new_company_package),
    {
        let NewCompanyPackage { company_id, package_id, shipping_rate_source } = new_company_package;
        match shipping_rate_source.unwrap_or_default() {
            ShippingRateSource::NotAvailable => NewCompaniesPackagesRaw {
                company_id,
                package_id,
                shipping_rate_source: ShippingRateSourceRaw::NotAvailable,
                dimensional_factor: None,
            },
            ShippingRateSource::Static { dimensional_factor } => NewCompaniesPackagesRaw {
                company_id,
                package_id,
                shipping_rate_source: ShippingRateSourceRaw::Static,
                dimensional_factor: match dimensional_factor {
                    Some(df) => Some(#[verifier::truncate] (df as i32)),
                    None => None,
                },
            },
        }
    }
}

/// The row that the store gives back for a new company package under `id`.
pub open spec fn stored_row(id: CompanyPackageId, raw: NewCompaniesPackagesRaw) -> CompaniesPackagesRaw {
    CompaniesPackagesRaw {
        id,
        company_id: raw.company_id,
        package_id: raw.package_id,
        shipping_rate_source: raw.shipping_rate_source,
        dimensional_factor: raw.dimensional_factor,
    }
}

/// Reading back the stored form of a new company package gives the package
/// as it was meant (no source read as no rates), as long as its
/// dimensional factor fits a stored 32-bit signed number.
pub proof fn lemma_company_package_round_trip(id: CompanyPackageId, p: NewCompanyPackage)
    requires
        match p.shipping_rate_source {
            Some(ShippingRateSource::Static { dimensional_factor: Some(df) }) => df <= i32::MAX,
            _ => true,
        },
    ensures
        company_package_of_raw(stored_row(id, raw_of_new_company_package(p))) == Ok::<
            CompanyPackage,
            CompanyPackageError,
        >(
            CompanyPackage {
                id,
                company_id: p.company_id,
                package_id: p.package_id,
                shipping_rate_source: match p.shipping_rate_source {
                    Some(s) => s,
                    None => ShippingRateSource::NotAvailable,
                },
            },
        ),
{
}

/// A package kind of a company, offered from a country, with the places it
/// is delivered to.
#[derive(Debug)]
pub struct AvailablePackages {
    pub id: CompanyPackageId,
    pub name: String,
    pub logo: String,
    pub deliveries_to: Vec<Country>,
    pub shipping_rate_source: ShippingRateSource,
    /// Whether one of the places it is delivered to holds the country it is
    /// sent from.
    pub local_available: bool,
}

/// A package kind that a user can choose for a product.
#[derive(Debug)]
pub struct AvailablePackageForUser {
    pub id: CompanyPackageId,
    pub shipping_id: ShippingId,
    pub name: String,
    pub logo: String,
    pub price: Option<ProductPrice>,
    pub shipping_variant: ShippingVariant,
    pub base_product_id: BaseProductId,
    pub store_id: StoreId,
}

} // verus!
