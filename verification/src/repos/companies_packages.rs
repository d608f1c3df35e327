//! What the companies-packages repository computes from the rows it reads:
//! the package kinds offered from a country.
use vstd::prelude::*;
use crate::models::companies::CompanyRaw;
use crate::models::companies_packages::{
    AvailablePackages, CompaniesPackagesRaw, CompanyPackageError, company_package_of_raw,
};
use crate::models::countries::{
    Country, CountryModel, codes_model, contains_country_code, find_in_tree, forest_model,
    get_country, tree_contains, used_countries_tree,
};
use crate::models::packages::PackagesRaw;
use crate::repos::get_company_package_name;
use crate::types::Alpha3;

verus! {

/// Whether the first node with code `code` holds the node `from` in its
/// subtree.
pub open spec fn delivers_within(countries: CountryModel, code: Seq<char>, from: Seq<char>) -> bool {
    match find_in_tree(countries, code) {
        Some(m) => tree_contains(m, from),
        None => false,
    }
}

/// Whether one of the places `codes` holds the node `from`.
pub open spec fn local_delivery(countries: CountryModel, codes: Seq<Seq<char>>, from: Seq<char>) -> bool {
    exists|i: int| 0 <= i < codes.len() && delivers_within(countries, #[trigger] codes[i], from)
}

/// Whether `p` is the package kind that a row joining a company package,
/// its company and its package kind describes, over the tree of all
/// countries, for shipments from `from`.
pub open spec fn available_package_of(
    company_package: CompaniesPackagesRaw,
    company: CompanyRaw,
    package: PackagesRaw,
    countries: CountryModel,
    from: Seq<char>,
    p: AvailablePackages,
) -> bool {
    &&& company_package_of_raw(company_package) matches Ok(model)
    &&& p.id == model.id
    &&& p.shipping_rate_source == model.shipping_rate_source
    &&& p.name@ == company.label@ + "-"@ + package.name@
    &&& p.logo@ == company.logo@
    &&& forest_model(p.deliveries_to@) == seq![
        used_countries_tree(countries, codes_model(package.deliveries_to@)),
    ]
    &&& p.local_available == local_delivery(
        countries,
        codes_model(package.deliveries_to@),
        from,
    )
}

/// Whether one of the places `codes` holds the node `from`.
fn delivers_locally(countries: &Country, codes: &Vec<Alpha3>, from: &Alpha3) -> (res: bool)
    ensures
        res == local_delivery(countries@, codes_model(codes@), from@),
{
    let ghost cs = codes_model(codes@);
    let mut i: usize = 0;
    while i < codes.len()
        invariant
            0 <= i <= codes@.len(),
            cs == codes_model(codes@),
            forall|j: int| 0 <= j < i ==> !delivers_within(countries@, #[trigger] cs[j], from@),
        decreases codes.len() - i,
    {
        assert(cs[i as int] == codes@[i as int]@);
        let found = get_country(countries, &codes[i]);
        match found {
            Some(c) => {
                if contains_country_code(&c, from) {
                    assert(delivers_within(countries@, cs[i as int], from@));
                    return true;
                }
            },
            None => {},
        }
        i = i + 1;
    }
    false
}

/// Local delivery of a listed package kind is available exactly when some
/// place it is delivered to (whichever its position among the places) is a
/// node of the country tree whose subtree holds the country shipped from.
pub proof fn lemma_local_available_iff_some_destination_holds_sender(
    company_package: CompaniesPackagesRaw,
    company: CompanyRaw,
    package: PackagesRaw,
    countries: CountryModel,
    from: Seq<char>,
    p: AvailablePackages,
)
    requires
        available_package_of(company_package, company, package, countries, from, p),
    ensures
        p.local_available <==> exists|i: int|
            0 <= i < package.deliveries_to@.len() && (find_in_tree(
                countries,
                (#[trigger] package.deliveries_to@[i])@,
            ) matches Some(m) && tree_contains(m, from)),
{
    let codes = codes_model(package.deliveries_to@);
    if p.local_available {
        let i = choose|i: int| 0 <= i < codes.len() && delivers_within(countries, #[trigger] codes[i], from);
        assert(codes[i] == package.deliveries_to@[i]@);
    }
    if exists|i: int|
        0 <= i < package.deliveries_to@.len() && (find_in_tree(
            countries,
            (#[trigger] package.deliveries_to@[i])@,
        ) matches Some(m) && tree_contains(m, from)) {
        let i = choose|i: int|
            0 <= i < package.deliveries_to@.len() && (find_in_tree(
                countries,
                (#[trigger] package.deliveries_to@[i])@,
            ) matches Some(m) && tree_contains(m, from));
        assert(codes[i] == package.deliveries_to@[i]@);
        assert(delivers_within(countries, codes[i], from));
    }
}

/// The package kinds of the rows (company package, company, package kind),
/// offered from `deliveries_from`: a row whose company package cannot be
/// read stops the listing with its error.
pub fn available_packages(
    rows: Vec<(CompaniesPackagesRaw, CompanyRaw, PackagesRaw)>,
    countries: &Country,
    deliveries_from: &Alpha3,
) -> (res: Result<Vec<AvailablePackages>, CompanyPackageError>)
    ensures
        match res {
            Ok(v) => v@.len() == rows@.len() && forall|i: int|
                0 <= i < rows@.len() ==> available_package_of(
                    (#[trigger] rows@[i]).0,
                    rows@[i].1,
                    rows@[i].2,
                    countries@,
                    deliveries_from@,
                    v@[i],
                ),
            Err(e) => exists|i: int|
                0 <= i < rows@.len() && company_package_of_raw((#[trigger] rows@[i]).0) == Err::<
                    crate::models::companies_packages::CompanyPackage,
                    CompanyPackageError,
                >(e) && forall|j: int| 0 <= j < i ==> company_package_of_raw(rows@[j].0) is Ok,
        },
{
    let ghost all = rows@;
    let mut data: Vec<AvailablePackages> = Vec::new();
    for row in it: rows.into_iter()
        invariant
            it.seq() == all,
            data@.len() == it.index(),
            forall|i: int|
                0 <= i < it.index() ==> available_package_of(
                    (#[trigger] all[i]).0,
                    all[i].1,
                    all[i].2,
                    countries@,
                    deliveries_from@,
                    data@[i],
                ),
    {
        let ghost k = it.index() as int;
        let (companies_package, company_raw, package_raw) = row;
        let company_package = match companies_package.to_model() {
            Ok(m) => m,
            Err(e) => {
                assert(company_package_of_raw(all[k].0) == Err::<
                    crate::models::companies_packages::CompanyPackage,
                    CompanyPackageError,
                >(e));
                return Err(e);
            },
        };
        let used_codes = package_raw.get_deliveries_to();
        let local_available = delivers_locally(countries, &used_codes, deliveries_from);
        let name = get_company_package_name(company_raw.label.clone(), package_raw.name.clone());
        let package = package_raw.to_packages(countries);
        let p = AvailablePackages {
            id: company_package.id,
            name,
            logo: company_raw.logo,
            deliveries_to: package.deliveries_to,
            shipping_rate_source: company_package.shipping_rate_source,
            local_available,
        };
        assert(available_package_of(all[k].0, all[k].1, all[k].2, countries@, deliveries_from@, p));
        data.push(p);
    }
    Ok(data)
}

} // verus!
