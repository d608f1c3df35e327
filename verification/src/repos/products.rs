//! What the products repository computes from the rows it reads: the
//! package kinds that a user can choose for a product.
use vstd::prelude::*;
use crate::models::companies::CompanyRaw;
use crate::models::companies_packages::{AvailablePackageForUser, CompaniesPackagesRaw};
use crate::models::countries::{
    Country, CountryModel, codes_model, forest_model, lemma_forest_model, used_countries_tree,
};
use crate::models::packages::PackagesRaw;
use crate::models::products::{Products, ProductsRaw, ShippingVariant};
use crate::repos::get_company_package_name;
use crate::types::{Alpha3, CompanyPackageId};

verus! {

/// The package kind that a row joining an offer, its company package, the
/// company and the package kind describes.
pub open spec fn package_for_user_of(
    product: ProductsRaw,
    company_package: CompaniesPackagesRaw,
    company: CompanyRaw,
    package: PackagesRaw,
    p: AvailablePackageForUser,
) -> bool {
    &&& p.id == company_package.id
    &&& p.shipping_id == product.id
    &&& p.name@ == company.label@ + "-"@ + package.name@
    &&& p.logo@ == company.logo@
    &&& p.price == product.price
    &&& p.shipping_variant == product.shipping
    &&& p.store_id == product.store_id
    &&& p.base_product_id == product.base_product_id
}

/// The package kind that a user can choose, from a row joining an offer,
/// its company package, the company and the package kind.
pub fn available_package_for_user(
    product: &ProductsRaw,
    company_package: &CompaniesPackagesRaw,
    company: &CompanyRaw,
    package: &PackagesRaw,
) -> (res: AvailablePackageForUser)
    ensures
        package_for_user_of(*product, *company_package, *company, *package, res),
{
    AvailablePackageForUser {
        id: company_package.id,
        shipping_id: product.id,
        name: get_company_package_name(company.label.clone(), package.name.clone()),
        logo: company.logo.clone(),
        price: product.price,
        shipping_variant: product.shipping,
        store_id: product.store_id,
        base_product_id: product.base_product_id,
    }
}

/// Whether the company package `id` is offered locally in `ps`.
pub open spec fn offered_locally(ps: Seq<AvailablePackageForUser>, id: CompanyPackageId) -> bool {
    exists|i: int| 0 <= i < ps.len() && #[trigger] ps[i].id == id && ps[i].shipping_variant
        == ShippingVariant::Local
}

/// Whether `p` stays among the choices `all`: it is local, or its company
/// package is not offered locally.
pub open spec fn stays(all: Seq<AvailablePackageForUser>, p: AvailablePackageForUser) -> bool {
    p.shipping_variant == ShippingVariant::Local || !offered_locally(all, p.id)
}

/// The elements of `ps` that stay among the choices `all`, in order.
pub open spec fn staying(all: Seq<AvailablePackageForUser>, ps: Seq<AvailablePackageForUser>) -> Seq<
    AvailablePackageForUser,
>
    decreases ps.len(),
{
    if ps.len() == 0 {
        Seq::empty()
    } else {
        let rest = staying(all, ps.drop_last());
        if stays(all, ps.last()) {
            rest.push(ps.last())
        } else {
            rest
        }
    }
}

/// An offer with the codes of the places it can be delivered to.
pub struct ProductsWithAvailableCountries(pub Products, pub Vec<Alpha3>);

/// Whether `p` is the offer of the stored row `raw`.
pub open spec fn products_of(raw: ProductsRaw, p: Products) -> bool {
    &&& p.id == raw.id
    &&& p.base_product_id == raw.base_product_id
    &&& p.store_id == raw.store_id
    &&& p.company_package_id == raw.company_package_id
    &&& p.price == raw.price
    &&& p.deliveries_to@ == raw.deliveries_to@
    &&& p.shipping == raw.shipping
}

/// The codes of the roots of a list of trees.
fn root_codes(trees: Vec<Country>) -> (res: Vec<Alpha3>)
    ensures
        codes_model(res@) == forest_model(trees@).map_values(|m: CountryModel| m.alpha3),
{
    proof {
        lemma_forest_model(trees@);
    }
    let ghost all = trees@;
    let ghost ms = forest_model(all);
    let mut res: Vec<Alpha3> = Vec::new();
    for c in it: trees.into_iter()
        invariant
            it.seq() == all,
            ms == forest_model(all),
            ms.len() == all.len(),
            forall|j: int| 0 <= j < all.len() ==> ms[j] == (#[trigger] all[j])@,
            codes_model(res@) == ms.take(it.index() as int).map_values(|m: CountryModel| m.alpha3),
    {
        let ghost k = it.index() as int;
        let ghost before = res@;
        res.push(c.alpha3);
        assert(codes_model(res@) =~= codes_model(before).push(all[k].alpha3@));
        assert(ms.take(k + 1).map_values(|m: CountryModel| m.alpha3) =~= ms.take(k).map_values(
            |m: CountryModel| m.alpha3,
        ).push(ms[k].alpha3));
    }
    assert(ms.take(ms.len() as int) =~= ms);
    res
}

/// The offers of the rows (offer, package kind) with the code of the tree
/// of places each package kind is delivered to, over the tree of all
/// countries.
pub fn products_with_available_countries(rows: Vec<(ProductsRaw, PackagesRaw)>, countries: &Country) -> (res:
    Vec<ProductsWithAvailableCountries>)
    ensures
        res@.len() == rows@.len(),
        forall|i: int|
            0 <= i < rows@.len() ==> products_of((#[trigger] rows@[i]).0, res@[i].0) && codes_model(
                res@[i].1@,
            ) == seq![used_countries_tree(countries@, codes_model(rows@[i].1.deliveries_to@)).alpha3],
{
    let ghost all = rows@;
    let mut data: Vec<ProductsWithAvailableCountries> = Vec::new();
    for row in it: rows.into_iter()
        invariant
            it.seq() == all,
            data@.len() == it.index(),
            forall|i: int|
                0 <= i < it.index() ==> products_of((#[trigger] all[i]).0, data@[i].0) && codes_model(
                    data@[i].1@,
                ) == seq![used_countries_tree(countries@, codes_model(all[i].1.deliveries_to@)).alpha3],
    {
        let ghost k = it.index() as int;
        let (product_raw, package_raw) = row;
        let package = package_raw.to_packages(countries);
        let ghost trees = forest_model(package.deliveries_to@);
        let codes = root_codes(package.deliveries_to);
        assert(trees.map_values(|m: CountryModel| m.alpha3) =~= seq![
            used_countries_tree(countries@, codes_model(all[k].1.deliveries_to@)).alpha3,
        ]);
        let product = product_raw.to_products();
        data.push(ProductsWithAvailableCountries(product, codes));
    }
    data
}

/// Whether `id` is among `ids`.
fn ids_contain(ids: &Vec<CompanyPackageId>, id: CompanyPackageId) -> (res: bool)
    ensures
        res == ids@.contains(id),
{
    let mut i: usize = 0;
    while i < ids.len()
        invariant
            0 <= i <= ids@.len(),
            forall|j: int| 0 <= j < i ==> ids@[j] != id,
        decreases ids.len() - i,
    {
        if ids[i] == id {
            return true;
        }
        i = i + 1;
    }
    false
}

/// The company packages offered locally in `ps`, in order.
pub open spec fn local_ids_of(ps: Seq<AvailablePackageForUser>) -> Seq<CompanyPackageId>
    decreases ps.len(),
{
    if ps.len() == 0 {
        Seq::empty()
    } else if ps.last().shipping_variant == ShippingVariant::Local {
        local_ids_of(ps.drop_last()).push(ps.last().id)
    } else {
        local_ids_of(ps.drop_last())
    }
}

/// `local_ids_of` lists exactly the company packages offered locally.
proof fn lemma_local_ids(ps: Seq<AvailablePackageForUser>, id: CompanyPackageId)
    ensures
        local_ids_of(ps).contains(id) <==> offered_locally(ps, id),
    decreases ps.len(),
{
    if ps.len() > 0 {
        let init = ps.drop_last();
        lemma_local_ids(init, id);
        if offered_locally(ps, id) {
            let j = choose|j: int| 0 <= j < ps.len() && #[trigger] ps[j].id == id
                && ps[j].shipping_variant == ShippingVariant::Local;
            if j < ps.len() - 1 {
                assert(init[j] == ps[j]);
            }
        }
        if offered_locally(init, id) {
            let j = choose|j: int| 0 <= j < init.len() && #[trigger] init[j].id == id
                && init[j].shipping_variant == ShippingVariant::Local;
            assert(ps[j] == init[j]);
        }
        let li = local_ids_of(init);
        if ps.last().shipping_variant == ShippingVariant::Local {
            let l = li.push(ps.last().id);
            if l.contains(id) {
                let k = choose|k: int| 0 <= k < l.len() && l[k] == id;
                if k < li.len() {
                    assert(li[k] == l[k]);
                    assert(li.contains(id));
                } else {
                    assert(ps[ps.len() - 1].id == id);
                }
            }
            if li.contains(id) {
                let k = choose|k: int| 0 <= k < li.len() && li[k] == id;
                assert(l[k] == li[k]);
            }
            if ps.last().id == id {
                assert(l[li.len() as int] == id);
            }
        }
    }
}

/// Drops the international choices of a company package that is also
/// offered locally: a package kind is offered either locally or abroad.
pub fn prefer_local_packages(packages: Vec<AvailablePackageForUser>) -> (res: Vec<
    AvailablePackageForUser,
>)
    ensures
        res@ == staying(packages@, packages@),
{
    let ghost all = packages@;
    let mut local_ids: Vec<CompanyPackageId> = Vec::new();
    let mut i: usize = 0;
    while i < packages.len()
        invariant
            0 <= i <= packages@.len(),
            all == packages@,
            local_ids@ == local_ids_of(all.take(i as int)),
        decreases packages.len() - i,
    {
        assert(all.take(i + 1).drop_last() =~= all.take(i as int));
        if packages[i].shipping_variant == ShippingVariant::Local {
            local_ids.push(packages[i].id);
        }
        i = i + 1;
    }
    assert(all.take(all.len() as int) =~= all);
    let mut res: Vec<AvailablePackageForUser> = Vec::new();
    for p in it: packages.into_iter()
        invariant
            it.seq() == all,
            local_ids@ == local_ids_of(all),
            res@ == staying(all, all.take(it.index() as int)),
    {
        let ghost k = it.index() as int;
        assert(all.take(k + 1).drop_last() =~= all.take(k));
        proof {
            lemma_local_ids(all, p.id);
        }
        if p.shipping_variant == ShippingVariant::Local || !ids_contain(&local_ids, p.id) {
            res.push(p);
        }
    }
    res
}

/// Each choice left from `ps` is an element of `ps` that stays among `all`.
proof fn lemma_staying_members(
    all: Seq<AvailablePackageForUser>,
    ps: Seq<AvailablePackageForUser>,
    k: int,
)
    requires
        0 <= k < staying(all, ps).len(),
    ensures
        stays(all, staying(all, ps)[k]),
        exists|m: int| 0 <= m < ps.len() && ps[m] == staying(all, ps)[k],
    decreases ps.len(),
{
    let init = ps.drop_last();
    let rest = staying(all, init);
    if k < rest.len() {
        lemma_staying_members(all, init, k);
        let m = choose|m: int| 0 <= m < init.len() && init[m] == rest[k];
        assert(ps[m] == init[m]);
    } else {
        assert(ps[ps.len() - 1] == ps.last());
    }
}

/// Among the choices left, a company package offered locally is offered
/// only locally.
pub proof fn lemma_local_choice_excludes_abroad(all: Seq<AvailablePackageForUser>, i: int, j: int)
    requires
        0 <= i < staying(all, all).len(),
        0 <= j < staying(all, all).len(),
        staying(all, all)[i].id == staying(all, all)[j].id,
        staying(all, all)[i].shipping_variant == ShippingVariant::Local,
    ensures
        staying(all, all)[j].shipping_variant == ShippingVariant::Local,
{
    let left = staying(all, all);
    lemma_staying_members(all, all, i);
    lemma_staying_members(all, all, j);
    let m = choose|m: int| 0 <= m < all.len() && all[m] == left[i];
    assert(all[m].id == left[j].id);
}

/// Every local choice is kept.
pub proof fn lemma_local_choices_kept(all: Seq<AvailablePackageForUser>, ps: Seq<AvailablePackageForUser>, m: int)
    requires
        0 <= m < ps.len(),
        ps[m].shipping_variant == ShippingVariant::Local,
    ensures
        staying(all, ps).contains(ps[m]),
    decreases ps.len(),
{
    let init = ps.drop_last();
    if m < ps.len() - 1 {
        assert(init[m] == ps[m]);
        lemma_local_choices_kept(all, init, m);
        let rest = staying(all, init);
        let k = choose|k: int| 0 <= k < rest.len() && rest[k] == init[m];
        if stays(all, ps.last()) {
            assert(rest.push(ps.last())[k] == rest[k]);
        }
    } else {
        let rest = staying(all, init);
        assert(rest.push(ps.last())[rest.len() as int] == ps[m]);
    }
}

} // verus!
