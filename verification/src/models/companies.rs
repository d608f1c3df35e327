//! Delivery companies and the places they ship from.
use vstd::prelude::*;
use crate::models::countries::{Country, codes_model, forest_model, used_countries_tree};
use crate::repos::countries::create_tree_used_countries;
use crate::types::{Alpha3, CompanyId};

verus! {

/// A stored delivery company; `deliveries_from` holds the stored codes of
/// the places it ships from.
#[derive(Debug)]
pub struct CompanyRaw {
    pub id: CompanyId,
    pub name: String,
    pub label: String,
    pub description: Option<String>,
    pub deliveries_from: Vec<Alpha3>,
    pub logo: String,
}

/// A delivery company with the tree of places it ships from.
#[derive(Debug)]
pub struct Company {
    pub id: CompanyId,
    pub name: String,
    pub label: String,
    pub description: Option<String>,
    pub deliveries_from: Vec<Country>,
    pub logo: String,
}

impl Company {
    /// The company of a stored row, with the tree of places it ships from
    /// built from the stored codes over the tree of all countries.
    pub fn from_raw(from: CompanyRaw, countries_arg: &Country) -> (res: Self)
        ensures
            res.id == from.id,
            res.name == from.name,
            res.label == from.label,
            res.description == from.description,
            res.logo == from.logo,
            forest_model(res.deliveries_from@) == seq![
                used_countries_tree(countries_arg@, codes_model(from.deliveries_from@)),
            ],
    {
        let deliveries_from = create_tree_used_countries(
            countries_arg,
            from.deliveries_from.as_slice(),
        );
        proof {
            crate::models::countries::lemma_forest_model(deliveries_from@);
        }
        assert(forest_model(deliveries_from@) =~= seq![
            used_countries_tree(countries_arg@, codes_model(from.deliveries_from@)),
        ]);
        Company {
            id: from.id,
            name: from.name,
            label: from.label,
            description: from.description,
            deliveries_from,
            logo: from.logo,
        }
    }
}

} // verus!
