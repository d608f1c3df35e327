//! Package kinds: parcel formats with size and weight limits and the places
//! they can be delivered to.
use vstd::prelude::*;
use crate::models::companies_packages::ShipmentMeasurements;
use crate::models::countries::{Country, codes_model, forest_model, used_countries_tree};
use crate::repos::countries::create_tree_used_countries;
use crate::types::{Alpha3, PackageId};

verus! {

/// How a shipment misses the limits of a package kind.
#[derive(Clone, Copy, PartialEq, Eq, Debug, Structural)]
pub enum MeasurementsOutOfRange {
    VolumeOutOfRange { volume_cubic_cm: u32, min_volume_cubic_cm: u32, max_volume_cubic_cm: u32 },
    WeightOutOfRange { weight_g: u32, min_weight_g: u32, max_weight_g: u32 },
    VolumeAndWeightOutOfRange {
        volume_cubic_cm: u32,
        min_volume_cubic_cm: u32,
        max_volume_cubic_cm: u32,
        weight_g: u32,
        min_weight_g: u32,
        max_weight_g: u32,
    },
}

/// A package kind with its limits (volume in cm³, weight in g) and the
/// tree of places it is delivered to.
#[derive(Debug)]
pub struct Packages {
    pub id: PackageId,
    pub name: String,
    pub max_size: u32,
    pub min_size: u32,
    pub max_weight: u32,
    pub min_weight: u32,
    pub deliveries_to: Vec<Country>,
}

/// How measurements relate to the limits `[min_size, max_size]` of the
/// volume and `[min_weight, max_weight]` of the weight.
pub open spec fn limits_check(
    max_size: u32,
    min_size: u32,
    max_weight: u32,
    min_weight: u32,
    m: ShipmentMeasurements,
) -> Result<(), MeasurementsOutOfRange> {
    let volume_out = !(min_size <= m.volume_cubic_cm <= max_size);
    let weight_out = !(min_weight <= m.weight_g <= max_weight);
    if !volume_out && !weight_out {
        Ok(())
    } else if volume_out && !weight_out {
        Err(
            MeasurementsOutOfRange::VolumeOutOfRange {
                volume_cubic_cm: m.volume_cubic_cm,
                min_volume_cubic_cm: min_size,
                max_volume_cubic_cm: max_size,
            },
        )
    } else if !volume_out && weight_out {
        Err(
            MeasurementsOutOfRange::WeightOutOfRange {
                weight_g: m.weight_g,
                min_weight_g: min_weight,
                max_weight_g: max_weight,
            },
        )
    } else {
        Err(
            MeasurementsOutOfRange::VolumeAndWeightOutOfRange {
                volume_cubic_cm: m.volume_cubic_cm,
                min_volume_cubic_cm: min_size,
                max_volume_cubic_cm: max_size,
                weight_g: m.weight_g,
                min_weight_g: min_weight,
                max_weight_g: max_weight,
            },
        )
    }
}

impl Packages {
    /// Checks a shipment against the limits of the package kind, naming
    /// the measurements that are out of range.
    pub fn within_limits(&self, measurements: ShipmentMeasurements) -> (res: Result<
        (),
        MeasurementsOutOfRange,
    >)
        ensures
            res == limits_check(
                self.max_size,
                self.min_size,
                self.max_weight,
                self.min_weight,
                measurements,
            ),
    {
        let max_size = self.max_size;
        let min_size = self.min_size;
        let max_weight = self.max_weight;
        let min_weight = self.min_weight;
        let ShipmentMeasurements { volume_cubic_cm, weight_g } = measurements;
        let volume_out_of_range = !(min_size <= volume_cubic_cm && volume_cubic_cm <= max_size);
        let weight_out_of_range = !(min_weight <= weight_g && weight_g <= max_weight);
        match (volume_out_of_range, weight_out_of_range) {
            (false, false) => Ok(()),
            (true, false) => Err(
                MeasurementsOutOfRange::VolumeOutOfRange {
                    volume_cubic_cm,
                    min_volume_cubic_cm: min_size,
                    max_volume_cubic_cm: max_size,
                },
            ),
            (false, true) => Err(
                MeasurementsOutOfRange::WeightOutOfRange {
                    weight_g,
                    min_weight_g: min_weight,
                    max_weight_g: max_weight,
                },
            ),
            (true, true) => Err(
                MeasurementsOutOfRange::VolumeAndWeightOutOfRange {
                    volume_cubic_cm,
                    min_volume_cubic_cm: min_size,
                    max_volume_cubic_cm: max_size,
                    weight_g,
                    min_weight_g: min_weight,
                    max_weight_g: max_weight,
                },
            ),
        }
    }
}

/// Measurements within the limits pass, and a shipment that passes is within
/// the limits.
pub proof fn lemma_within_limits(
    max_size: u32,
    min_size: u32,
    max_weight: u32,
    min_weight: u32,
    m: ShipmentMeasurements,
)
    ensures
        limits_check(max_size, min_size, max_weight, min_weight, m) is Ok <==> (min_size
            <= m.volume_cubic_cm <= max_size && min_weight <= m.weight_g <= max_weight),
{
}

/// A stored package kind; `deliveries_to` holds the stored codes of the
/// places it is delivered to.
#[derive(Debug)]
pub struct PackagesRaw {
    pub id: PackageId,
    pub name: String,
    pub max_size: i32,
    pub min_size: i32,
    pub max_weight: i32,
    pub min_weight: i32,
    pub deliveries_to: Vec<Alpha3>,
}

impl PackagesRaw {
    /// The package kind of a stored row: the limits read as unsigned
    /// numbers and the tree of places built from the stored codes over the
    /// tree of all countries.
    pub fn to_packages(self, countries_arg: &Country) -> (res: Packages)
        ensures
            res.id == self.id,
            res.name@ == self.name@,
            res.max_size == self.max_size as u32,
            res.min_size == self.min_size as u32,
            res.max_weight == self.max_weight as u32,
            res.min_weight == self.min_weight as u32,
            forest_model(res.deliveries_to@) == seq![
                used_countries_tree(countries_arg@, codes_model(self.deliveries_to@)),
            ],
    {
        let deliveries_to = create_tree_used_countries(countries_arg, self.deliveries_to.as_slice());
        proof {
            crate::models::countries::lemma_forest_model(deliveries_to@);
        }
        assert(forest_model(deliveries_to@) =~= seq![
            used_countries_tree(countries_arg@, codes_model(self.deliveries_to@)),
        ]);
        Packages {
            id: self.id,
            name: self.name,
            max_size: #[verifier::truncate] (self.max_size as u32),
            min_size: #[verifier::truncate] (self.min_size as u32),
            max_weight: #[verifier::truncate] (self.max_weight as u32),
            min_weight: #[verifier::truncate] (self.min_weight as u32),
            deliveries_to,
        }
    }

    /// The stored codes of the places the package kind is delivered to.
    pub fn get_deliveries_to(&self) -> (res: Vec<Alpha3>)
        ensures
            codes_model(res@) == codes_model(self.deliveries_to@),
    {
        let mut res: Vec<Alpha3> = Vec::new();
        let mut i: usize = 0;
        while i < self.deliveries_to.len()
            invariant
                i <= self.deliveries_to@.len(),
                codes_model(res@) == codes_model(self.deliveries_to@.take(i as int)),
            decreases self.deliveries_to.len() - i,
        {
            let ghost before = res@;
            let c = self.deliveries_to[i].clone();
            res.push(c);
            assert(codes_model(res@) =~= codes_model(before).push(c@));
            assert(self.deliveries_to@.take(i + 1) =~= self.deliveries_to@.take(i as int).push(
                self.deliveries_to@[i as int],
            ));
            assert(codes_model(self.deliveries_to@.take(i + 1)) =~= codes_model(
                self.deliveries_to@.take(i as int),
            ).push(self.deliveries_to@[i as int]@));
            i = i + 1;
        }
        assert(self.deliveries_to@.take(i as int) =~= self.deliveries_to@);
        res
    }
}

/// A new package kind.
#[derive(Debug)]
pub struct NewPackages {
    pub name: String,
    pub max_size: u32,
    pub min_size: u32,
    pub max_weight: u32,
    pub min_weight: u32,
    pub deliveries_to: Vec<Alpha3>,
}

/// A new package kind, as stored.
#[derive(Debug)]
pub struct NewPackagesRaw {
    pub name: String,
    pub max_size: i32,
    pub min_size: i32,
    pub max_weight: i32,
    pub min_weight: i32,
    pub deliveries_to: Vec<Alpha3>,
}

impl NewPackages {
    /// The stored form: the limits as signed numbers.
    pub fn to_raw(self) -> (res: NewPackagesRaw)
        ensures
            res.name@ == self.name@,
            res.max_size == self.max_size as i32,
            res.min_size == self.min_size as i32,
            res.max_weight == self.max_weight as i32,
            res.min_weight == self.min_weight as i32,
            res.deliveries_to@ == self.deliveries_to@,
    {
        NewPackagesRaw {
            name: self.name,
            max_size: #[verifier::truncate] (self.max_size as i32),
            min_size: #[verifier::truncate] (self.min_size as i32),
            max_weight: #[verifier::truncate] (self.max_weight as i32),
            min_weight: #[verifier::truncate] (self.min_weight as i32),
            deliveries_to: self.deliveries_to,
        }
    }
}

/// Changes to a package kind; `None` leaves a field as it is.
#[derive(Debug)]
pub struct UpdatePackages {
    pub name: Option<String>,
    pub max_size: Option<u32>,
    pub min_size: Option<u32>,
    pub max_weight: Option<u32>,
    pub min_weight: Option<u32>,
    pub deliveries_to: Option<Vec<Alpha3>>,
}

/// Changes to a package kind, as stored.
#[derive(Debug)]
pub struct UpdatePackagesRaw {
    pub name: Option<String>,
    pub max_size: Option<i32>,
    pub min_size: Option<i32>,
    pub max_weight: Option<i32>,
    pub min_weight: Option<i32>,
    pub deliveries_to: Option<Vec<Alpha3>>,
}

/// An optional limit in its stored, signed form.
pub open spec fn opt_signed(x: Option<u32>) -> Option<i32> {
    match x {
        Some(v) => Some(v as i32),
        None => None,
    }
}

/// An optional limit in its stored, signed form.
pub fn to_signed(x: Option<u32>) -> (res: Option<i32>)
    ensures
        res == opt_signed(x),
{
    match x {
        Some(v) => Some(#[verifier::truncate] (v as i32)),
        None => None,
    }
}

impl UpdatePackages {
    /// The stored form: the limits as signed numbers.
    pub fn to_raw(self) -> (res: UpdatePackagesRaw)
        ensures
            res.name == self.name,
            res.max_size == opt_signed(self.max_size),
            res.min_size == opt_signed(self.min_size),
            res.max_weight == opt_signed(self.max_weight),
            res.min_weight == opt_signed(self.min_weight),
            res.deliveries_to == self.deliveries_to,
    {
        UpdatePackagesRaw {
            name: self.name,
            max_size: to_signed(self.max_size),
            min_size: to_signed(self.min_size),
            max_weight: to_signed(self.max_weight),
            min_weight: to_signed(self.min_weight),
            deliveries_to: self.deliveries_to,
        }
    }
}

} // verus!
