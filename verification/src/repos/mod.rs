pub mod acl;
pub mod companies_packages;
pub mod countries;
pub mod products;

use vstd::prelude::*;
use crate::types::CountryLabel;

verus! {

/// The labels quoted and joined by commas: `'a','b','c'`.
pub open spec fn quoted_list(labels: Seq<Seq<char>>) -> Seq<char>
    decreases labels.len(),
{
    if labels.len() == 0 {
        Seq::empty()
    } else if labels.len() == 1 {
        "'"@ + labels[0] + "'"@
    } else {
        quoted_list(labels.drop_last()) + ","@ + "'"@ + labels.last() + "'"@
    }
}

/// A Postgres array literal of the labels, each in single quotes:
/// `array['a','b']`.
pub fn get_pg_str_json_array(countries: Vec<CountryLabel>) -> (res: String)
    ensures
        res@ == "array["@ + quoted_list(countries@.map_values(|c: CountryLabel| c@)) + "]"@,
{
    let ghost labels = countries@.map_values(|c: CountryLabel| c@);
    let mut list = String::new();
    let mut i: usize = 0;
    while i < countries.len()
        invariant
            i <= countries@.len(),
            labels == countries@.map_values(|c: CountryLabel| c@),
            list@ == quoted_list(labels.take(i as int)),
        decreases countries.len() - i,
    {
        assert(labels.take(i + 1).drop_last() =~= labels.take(i as int));
        assert(labels.take(i + 1).last() == countries@[i as int]@);
        if i > 0 {
            list.append(",");
        } else {
            assert(labels.take(0) =~= Seq::<Seq<char>>::empty());
            assert(list@ =~= Seq::<char>::empty());
        }
        list.append("'");
        list.append(countries[i].0.as_str());
        list.append("'");
        proof {
            if i == 0 {
                assert(list@ =~= "'"@ + labels.take(1)[0] + "'"@);
            } else {
                assert(list@ =~= quoted_list(labels.take(i as int)) + ","@ + "'"@ + labels.take(i + 1).last() + "'"@);
            }
        }
        i = i + 1;
    }
    assert(labels.take(i as int) =~= labels);
    let mut res = String::from_str("array[");
    res.append(list.as_str());
    res.append("]");
    res
}

/// The name of a company's package kind: `company-package`.
pub fn get_company_package_name(company_name: String, package_name: String) -> (res: String)
    ensures
        res@ == company_name@ + "-"@ + package_name@,
{
    let mut res = company_name;
    res.append("-");
    res.append(package_name.as_str());
    res
}

} // verus!
