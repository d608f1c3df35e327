//! Operations on the tree of countries: searching, pruning to the codes in
//! use, and marking selected nodes.
use vstd::prelude::*;
use crate::types::{Alpha3, alpha3_eq};
pub use crate::models::countries::get_country;
use crate::models::countries::{
    RawCountry, acyclic, country_from_raw, raw_children, forest_built, lemma_nodes_built, node_of_raw, opt_code,
    ranked,
    found_codes, is_top_level, tree_contains, lemma_find_in_tree, used_countries_tree,
    Country, CountryModel, clear_below, lemma_forest_concat, code_at_depth, codes_model, forest_code_at_depth, forest_model,
    lemma_forest_model, forest_path_codes, path_codes, prune, prune_forest, leaf_parts, leaves, mark_all, select_codes, selected_codes,
    selected_parts,
};

verus! {

/// The model of a node lists the models of its children.
pub proof fn lemma_children(c: Country)
    ensures
        c@.children.len() == c.children@.len(),
        forall|j: int| 0 <= j < c.children@.len() ==> c@.children[j] == (#[trigger] c.children@[j])@,
{
    lemma_forest_model(c.children@);
}

/// Marks the node and everything below it as selected.
pub fn set_selected_till_end(country: &mut Country)
    ensures
        final(country)@ == mark_all(old(country)@),
    decreases *old(country),
{
    country.is_selected = true;
    let n = country.children.len();
    let mut i: usize = 0;
    while i < n
        invariant
            n == old(country).children@.len(),
            country.children@.len() == n,
            i <= n,
            country.is_selected,
            country.label == old(country).label,
            country.level == old(country).level,
            country.alpha2 == old(country).alpha2,
            country.alpha3 == old(country).alpha3,
            country.numeric == old(country).numeric,
            country.parent == old(country).parent,
            forall|j: int| 0 <= j < i ==> (#[trigger] country.children@[j])@ == mark_all(
                old(country).children@[j]@,
            ),
            forall|j: int| i <= j < n ==> #[trigger] country.children@[j] == old(country).children@[j],
        decreases n - i,
    {
        set_selected_till_end(&mut country.children[i]);
        i = i + 1;
    }
    proof {
        lemma_children(*country);
        lemma_children(*old(country));
        assert forall|j: int| 0 <= j < n implies #[trigger] country@.children[j] == mark_all(
            old(country)@,
        ).children[j] by {
            assert(country@.children[j] == country.children@[j]@);
            assert(old(country)@.children[j] == old(country).children@[j]@);
        }
        assert(country@.children =~= mark_all(old(country)@).children);
    }
}

/// Whether the list of codes holds `code`.
pub fn codes_contain(codes: &[Alpha3], code: &Alpha3) -> (res: bool)
    ensures
        res == codes_model(codes@).contains(code@),
{
    let mut i: usize = 0;
    while i < codes.len()
        invariant
            i <= codes@.len(),
            forall|j: int| 0 <= j < i ==> (#[trigger] codes@[j])@ != code@,
        decreases codes.len() - i,
    {
        if alpha3_eq(&codes[i], code) {
            assert(codes_model(codes@)[i as int] == code@);
            return true;
        }
        i = i + 1;
    }
    assert forall|j: int| 0 <= j < codes_model(codes@).len() implies codes_model(codes@)[j]
        != code@ by {
        assert(codes_model(codes@)[j] == codes@[j]@);
    }
    false
}

/// Marks as selected every node whose code is in `selected_codes`, together
/// with everything below it.
pub fn set_selected(country: &mut Country, selected_codes: &[Alpha3])
    ensures
        final(country)@ == select_codes(old(country)@, codes_model(selected_codes@)),
    decreases *old(country),
{
    if codes_contain(selected_codes, &country.alpha3) {
        set_selected_till_end(country);
    } else {
        let n = country.children.len();
        let mut i: usize = 0;
        while i < n
            invariant
                n == old(country).children@.len(),
                country.children@.len() == n,
                i <= n,
                country.is_selected == old(country).is_selected,
                country.label == old(country).label,
                country.level == old(country).level,
                country.alpha2 == old(country).alpha2,
                country.alpha3 == old(country).alpha3,
                country.numeric == old(country).numeric,
                country.parent == old(country).parent,
                forall|j: int| 0 <= j < i ==> (#[trigger] country.children@[j])@ == select_codes(
                    old(country).children@[j]@,
                    codes_model(selected_codes@),
                ),
                forall|j: int|
                    i <= j < n ==> #[trigger] country.children@[j] == old(country).children@[j],
            decreases n - i,
        {
            set_selected(&mut country.children[i], selected_codes);
            i = i + 1;
        }
        proof {
            lemma_children(*country);
            lemma_children(*old(country));
            let target = select_codes(old(country)@, codes_model(selected_codes@));
            assert forall|j: int| 0 <= j < n implies #[trigger] country@.children[j]
                == target.children[j] by {
                assert(country@.children[j] == country.children@[j]@);
                assert(old(country)@.children[j] == old(country).children@[j]@);
            }
            assert(country@.children =~= target.children);
        }
    }
}

/// Appends to `codes` the codes of the topmost selected nodes, in pre-order.
pub fn get_selected(country: &Country, codes: &mut Vec<Alpha3>)
    ensures
        codes_model(final(codes)@) == codes_model(old(codes)@) + selected_codes(country@),
    decreases country,
{
    if country.is_selected {
        codes.push(country.alpha3.clone());
        assert(codes_model(codes@) =~= codes_model(old(codes)@) + selected_codes(country@));
    } else {
        proof {
            lemma_children(*country);
        }
        let ghost parts = selected_parts(country@);
        assert(parts.take(0) =~= Seq::<Seq<Seq<char>>>::empty());
        let mut i: usize = 0;
        while i < country.children.len()
            invariant
                i <= country.children@.len(),
                parts.len() == country.children@.len(),
                forall|j: int|
                    0 <= j < country.children@.len() ==> #[trigger] parts[j] == selected_codes(
                        country.children@[j]@,
                    ),
                codes_model(codes@) == codes_model(old(codes)@) + parts.take(i as int).flatten(),
            decreases country.children.len() - i,
        {
            get_selected(&country.children[i], codes);
            proof {
                assert(parts.take(i + 1) =~= parts.take(i as int).push(parts[i as int]));
                parts.take(i as int).lemma_flatten_push(parts[i as int]);
            }
            i = i + 1;
        }
        assert(parts.take(i as int) =~= parts);
    }
}

/// The leaves of the tree, from left to right.
pub fn get_all_children_till_the_end(country: Country) -> (res: Vec<Country>)
    ensures
        forest_model(res@) == leaves(country@),
    decreases country,
{
    proof {
        lemma_children(country);
    }
    if country.children.len() == 0 {
        let ghost m = country@;
        let res = vec![country];
        proof {
            lemma_forest_model(res@);
        }
        assert(forest_model(res@) =~= seq![m]);
        res
    } else {
        let ghost m = country@;
        let ghost kids = country.children@;
        let ghost parts = leaf_parts(m);
        let mut klabels: Vec<Country> = Vec::new();
        proof {
            lemma_forest_model(klabels@);
        }
        assert(parts.take(0) =~= Seq::<Seq<CountryModel>>::empty());
        for country_child in it: country.children.into_iter()
            invariant
                it.seq() == kids,
                kids.len() == m.children.len(),
                parts.len() == kids.len(),
                forall|j: int| 0 <= j < kids.len() ==> #[trigger] parts[j] == leaves(kids[j]@),
                forall|j: int| 0 <= j < kids.len() ==> decreases_to!(country => #[trigger] kids[j]),
                forest_model(klabels@) == parts.take(it.index() as int).flatten(),
        {
            let ghost k = it.index() as int;
            let mut children_klabels = get_all_children_till_the_end(country_child);
            let ghost before = klabels@;
            let ghost added = children_klabels@;
            klabels.append(&mut children_klabels);
            proof {
                lemma_forest_concat(before, added);
                assert(parts.take(k + 1) =~= parts.take(k).push(parts[k]));
                parts.take(k).lemma_flatten_push(parts[k]);
            }
        }
        assert(parts.take(kids.len() as int) =~= parts);
        klabels
    }
}

/// Removes the children of the nodes `stack_level` steps below the root.
fn clear_in_place(country: &mut Country, stack_level: i32)
    ensures
        final(country)@ == clear_below(old(country)@, stack_level as int),
    decreases *old(country),
{
    if stack_level == 0 {
        country.children.clear();
        proof {
            lemma_children(*country);
        }
        assert(country@.children =~= Seq::<CountryModel>::empty());
    } else if stack_level > 0 {
        let n = country.children.len();
        let mut i: usize = 0;
        while i < n
            invariant
                0 < stack_level,
                n == old(country).children@.len(),
                country.children@.len() == n,
                i <= n,
                country.is_selected == old(country).is_selected,
                country.label == old(country).label,
                country.level == old(country).level,
                country.alpha2 == old(country).alpha2,
                country.alpha3 == old(country).alpha3,
                country.numeric == old(country).numeric,
                country.parent == old(country).parent,
                forall|j: int| 0 <= j < i ==> (#[trigger] country.children@[j])@ == clear_below(
                    old(country).children@[j]@,
                    stack_level - 1,
                ),
                forall|j: int|
                    i <= j < n ==> #[trigger] country.children@[j] == old(country).children@[j],
            decreases n - i,
        {
            clear_in_place(&mut country.children[i], stack_level - 1);
            i = i + 1;
        }
        proof {
            lemma_children(*country);
            lemma_children(*old(country));
            let target = clear_below(old(country)@, stack_level as int);
            assert forall|j: int| 0 <= j < n implies #[trigger] country@.children[j]
                == target.children[j] by {
                assert(country@.children[j] == country.children@[j]@);
                assert(old(country)@.children[j] == old(country).children@[j]@);
            }
            assert(country@.children =~= target.children);
        }
    }
}

/// Removes the children of the nodes `stack_level` steps below the root;
/// with a negative level nothing is removed.
pub fn clear_child_countries(country: Country, stack_level: i32) -> (res: Country)
    ensures
        res@ == clear_below(country@, stack_level as int),
{
    let mut country = country;
    clear_in_place(&mut country, stack_level);
    country
}

/// Returns (a copy of) `country` when a node exactly `stack_level` steps
/// below it carries `child_code`.
pub fn get_parent_country(country: &Country, child_code: &Alpha3, stack_level: i32) -> (res:
    Option<Country>)
    ensures
        res is Some <==> code_at_depth(country@, child_code@, stack_level as int),
        res matches Some(r) ==> r@ == country@,
    decreases country,
{
    if stack_level != 0 {
        if stack_level < 0 {
            return None;
        }
        proof {
            lemma_children(*country);
        }
        let mut i: usize = 0;
        while i < country.children.len()
            invariant
                0 < stack_level,
                i <= country.children@.len(),
                country@.children.len() == country.children@.len(),
                forall|j: int|
                    0 <= j < country.children@.len() ==> country@.children[j] == (
                    #[trigger] country.children@[j])@,
                forest_code_at_depth(country@.children, child_code@, stack_level - 1, 0)
                    == forest_code_at_depth(
                    country@.children,
                    child_code@,
                    stack_level - 1,
                    i as int,
                ),
            decreases country.children.len() - i,
        {
            if get_parent_country(&country.children[i], child_code, stack_level - 1).is_some() {
                return Some(country.clone());
            }
            i = i + 1;
        }
        None
    } else if alpha3_eq(&country.alpha3, child_code) {
        Some(country.clone())
    } else {
        None
    }
}

/// Appends to `codes` the codes on the way from the first node (in
/// pre-order) with code `searched_country_id` up to the root.
pub fn get_all_parent_codes(country: &Country, searched_country_id: &Alpha3, codes: &mut Vec<Alpha3>)
    ensures
        codes_model(final(codes)@) == codes_model(old(codes)@) + path_codes(
            country@,
            searched_country_id@,
        ),
    decreases country,
{
    if alpha3_eq(&country.alpha3, searched_country_id) {
        codes.push(country.alpha3.clone());
        assert(codes_model(codes@) =~= codes_model(old(codes)@) + path_codes(
            country@,
            searched_country_id@,
        ));
    } else {
        proof {
            lemma_children(*country);
        }
        let mut i: usize = 0;
        while i < country.children.len()
            invariant
                i <= country.children@.len(),
                country@.alpha3 != searched_country_id@,
                country@.children.len() == country.children@.len(),
                forall|j: int|
                    0 <= j < country.children@.len() ==> country@.children[j] == (
                    #[trigger] country.children@[j])@,
                codes_model(codes@) == codes_model(old(codes)@),
                forest_path_codes(country@.children, searched_country_id@, 0)
                    == forest_path_codes(country@.children, searched_country_id@, i as int),
            decreases country.children.len() - i,
        {
            let old_len = codes.len();
            let ghost before = codes_model(codes@);
            get_all_parent_codes(&country.children[i], searched_country_id, codes);
            let ghost p = path_codes(country.children@[i as int]@, searched_country_id@);
            assert(codes_model(codes@) == before + p);
            assert(codes_model(codes@).len() == codes@.len());
            assert(before.len() == old_len);
            if codes.len() > old_len {
                assert(p.len() > 0);
                assert(forest_path_codes(country@.children, searched_country_id@, i as int) == p);
                let ghost mid = codes@;
                codes.push(country.alpha3.clone());
                assert(codes_model(codes@) =~= codes_model(mid).push(country.alpha3@));
                assert(path_codes(country@, searched_country_id@) == p.push(country@.alpha3));
                assert(codes_model(codes@) =~= codes_model(old(codes)@) + path_codes(
                    country@,
                    searched_country_id@,
                ));
                return;
            }
            assert(codes_model(codes@) =~= codes_model(old(codes)@));
            i = i + 1;
        }
    }
}

/// Cuts off the branches of the tree that hold none of the used codes: a
/// child whose code is used stays whole, any other child is pruned in turn
/// and stays only when something is left below it.
pub fn remove_unused_countries(country: Country, used_countries_codes: &[Alpha3]) -> (res: Country)
    ensures
        res@ == prune(country@, codes_model(used_countries_codes@)),
    decreases country,
{
    let ghost used = codes_model(used_countries_codes@);
    let ghost m = country@;
    let ghost kids = country.children@;
    proof {
        lemma_children(country);
    }
    let mut node = country;
    let mut old_children: Vec<Country> = Vec::new();
    std::mem::swap(&mut old_children, &mut node.children);
    let mut children: Vec<Country> = Vec::new();
    proof {
        lemma_forest_model(children@);
        assert(forest_model(children@) + prune_forest(m.children, used, 0) =~= prune_forest(
            m.children,
            used,
            0,
        ));
    }
    for country_child in it: old_children.into_iter()
        invariant
            it.seq() == kids,
            kids.len() == m.children.len(),
            forall|j: int| 0 <= j < kids.len() ==> m.children[j] == (#[trigger] kids[j])@,
            forall|j: int| 0 <= j < kids.len() ==> decreases_to!(country => #[trigger] kids[j]),
            used == codes_model(used_countries_codes@),
            forest_model(children@) + prune_forest(m.children, used, it.index() as int)
                == prune_forest(m.children, used, 0),
    {
        let ghost k = it.index() as int;
        let ghost before = children@;
        assert(country_child == kids[k]);
        if codes_contain(used_countries_codes, &country_child.alpha3) {
            children.push(country_child);
            proof {
                lemma_forest_concat(before, seq![kids[k]]);
                lemma_forest_model(seq![kids[k]]);
                assert(before.push(kids[k]) == before + seq![kids[k]]);
                assert(forest_model(seq![kids[k]]) =~= seq![m.children[k]]);
            }
        } else {
            let new_country = remove_unused_countries(country_child, used_countries_codes);
            if new_country.children.len() != 0 {
                let ghost p = new_country@;
                children.push(new_country);
                proof {
                    lemma_children(new_country);
                    lemma_forest_concat(before, seq![new_country]);
                    lemma_forest_model(seq![new_country]);
                    assert(before.push(new_country) == before + seq![new_country]);
                    assert(forest_model(seq![new_country]) =~= seq![p]);
                }
            } else {
                proof {
                    lemma_children(new_country);
                }
            }
        }
        assert(forest_model(children@) + prune_forest(m.children, used, k + 1) =~= prune_forest(
            m.children,
            used,
            0,
        ));
    }
    node.children = children;
    proof {
        lemma_children(node);
        assert(prune_forest(m.children, used, kids.len() as int) =~= Seq::<CountryModel>::empty());
        assert(node@.children =~= prune(m, used).children);
    }
    node
}

/// The tree of the places that `used_countries_codes` cover, as a list of
/// one tree: the whole tree when one of the codes names a node without
/// parent, else the tree pruned to the codes that occur in it.
pub fn create_tree_used_countries(countries_arg: &Country, used_countries_codes: &[Alpha3]) -> (res:
    Vec<Country>)
    ensures
        res@.len() == 1,
        res@[0]@ == used_countries_tree(countries_arg@, codes_model(used_countries_codes@)),
{
    let ghost m = countries_arg@;
    let ghost used = codes_model(used_countries_codes@);
    let mut available_codes: Vec<Alpha3> = Vec::new();
    let mut contains_all_countries = false;
    let mut i: usize = 0;
    while i < used_countries_codes.len()
        invariant
            i <= used_countries_codes@.len(),
            m == countries_arg@,
            used == codes_model(used_countries_codes@),
            used.len() == used_countries_codes@.len(),
            codes_model(available_codes@) == found_codes(m, used.take(i as int)),
            contains_all_countries == exists|j: int| 0 <= j < i && #[trigger] is_top_level(m, used[j]),
        decreases used_countries_codes.len() - i,
    {
        let ghost code = used[i as int];
        assert(code == used_countries_codes@[i as int]@);
        assert(used.take(i + 1) =~= used.take(i as int).push(code));
        proof {
            used.take(i as int).lemma_filter_push(code, |c: Seq<char>| tree_contains(m, c));
            lemma_find_in_tree(m, code);
        }
        match get_country(countries_arg, &used_countries_codes[i]) {
            Some(found) => {
                let ghost before = available_codes@;
                available_codes.push(found.alpha3.clone());
                assert(codes_model(available_codes@) =~= codes_model(before).push(code));
                if found.parent.is_none() {
                    contains_all_countries = true;
                }
                assert(contains_all_countries == exists|j: int|
                    0 <= j < i + 1 && #[trigger] is_top_level(m, used[j])) by {
                    if found.parent.is_none() {
                        assert(is_top_level(m, used[i as int]));
                    }
                }
            },
            None => {
                assert(contains_all_countries == exists|j: int|
                    0 <= j < i + 1 && #[trigger] is_top_level(m, used[j])) by {
                    if exists|j: int| 0 <= j < i + 1 && #[trigger] is_top_level(m, used[j]) {
                        let j = choose|j: int| 0 <= j < i + 1 && #[trigger] is_top_level(m, used[j]);
                        assert(j != i);
                    }
                }
            },
        }
        i = i + 1;
    }
    assert(used.take(i as int) =~= used);
    let mut result: Vec<Country> = Vec::new();
    if contains_all_countries {
        result.push(countries_arg.clone());
    } else {
        let countries_tree = countries_arg.clone();
        let pruned = remove_unused_countries(countries_tree, available_codes.as_slice());
        result.push(pruned);
    }
    result
}

/// Whether two optional codes are equal.
pub fn opt_code_eq(a: &Option<Alpha3>, b: &Option<Alpha3>) -> (res: bool)
    ensures
        res == (opt_code(*a) == opt_code(*b)),
{
    match (a, b) {
        (Some(x), Some(y)) => alpha3_eq(x, y),
        (None, None) => true,
        _ => false,
    }
}

fn create_tree_ranked(
    countries_: &[RawCountry],
    parent_arg: Option<Alpha3>,
    Ghost(rank): Ghost<spec_fn(Seq<char>) -> Option<nat>>,
) -> (res: Vec<Country>)
    requires
        ranked(countries_@, opt_code(parent_arg), rank),
    ensures
        forest_built(countries_@, opt_code(parent_arg), forest_model(res@)),
    decreases
            (if parent_arg is None {
                1int
            } else {
                0int
            }),
            (match parent_arg {
                Some(p) => rank(p@)->0 as int,
                None => 0int,
            }),
{
    let ghost raws = countries_@;
    let ghost parent = opt_code(parent_arg);
    let ghost pred = |r: RawCountry| opt_code(r.parent) == parent;
    let mut branch: Vec<Country> = Vec::new();
    let mut i: usize = 0;
    proof {
        lemma_forest_model(branch@);
        assert(raws.take(0) =~= Seq::<RawCountry>::empty());
        reveal_with_fuel(Seq::filter, 1);
    }
    while i < countries_.len()
        invariant
            i <= raws.len(),
            raws == countries_@,
            ranked(raws, opt_code(parent_arg), rank),
            parent == opt_code(parent_arg),
            pred == (|r: RawCountry| opt_code(r.parent) == parent),
            forest_model(branch@).len() == raws.take(i as int).filter(pred).len(),
            forall|j: int|
                0 <= j < forest_model(branch@).len() ==> node_of_raw(
                    raws.take(i as int).filter(pred)[j],
                    #[trigger] forest_model(branch@)[j],
                ) && forest_built(
                    raws,
                    Some(forest_model(branch@)[j].alpha3),
                    forest_model(branch@)[j].children,
                ),
        decreases raws.len() - i,
    {
        let country = &countries_[i];
        let ghost prefix = raws.take(i as int);
        assert(raws.take(i + 1) =~= prefix.push(raws[i as int]));
        proof {
            prefix.lemma_filter_push(raws[i as int], pred);
        }
        if opt_code_eq(&country.parent, &parent_arg) {
            let childs = create_tree_ranked(countries_, Some(country.alpha3.clone()), Ghost(rank));
            let mut country_tree = country_from_raw(country);
            country_tree.children = childs;
            let ghost before = branch@;
            branch.push(country_tree);
            proof {
                lemma_forest_concat(before, seq![country_tree]);
                lemma_forest_model(seq![country_tree]);
                assert(before.push(country_tree) == before + seq![country_tree]);
                lemma_forest_model(before);
                lemma_forest_model(branch@);
                assert(forest_model(branch@)[before.len() as int] == country_tree@);
            }
        }
        i = i + 1;
    }
    proof {
        assert(raws.take(i as int) =~= raws);
        lemma_nodes_built(raws, parent, forest_model(branch@), 0);
    }
    branch
}

/// Builds the tree of the stored countries below `parent_arg` (the roots
/// for `None`): one node for each stored country whose parent is
/// `parent_arg`, in stored order, with the tree below its own code as
/// children.  The parent links must not form a cycle.
pub fn create_tree(countries_: &[RawCountry], parent_arg: Option<Alpha3>) -> (res: Vec<Country>)
    requires
        acyclic(countries_@, opt_code(parent_arg)),
    ensures
        forest_built(countries_@, opt_code(parent_arg), forest_model(res@)),
{
    let ghost rank = choose|rank: spec_fn(Seq<char>) -> Option<nat>| ranked(countries_@, opt_code(parent_arg), rank);
    create_tree_ranked(countries_, parent_arg, Ghost(rank))
}

/// The number of stored countries whose code ranks below `r`.
pub open spec fn ranked_below(raws: Seq<RawCountry>, rank: spec_fn(Seq<char>) -> Option<nat>, r: nat) -> nat
    decreases raws.len(),
{
    if raws.len() == 0 {
        0
    } else {
        ranked_below(raws.drop_last(), rank, r) + if rank(raws.last().alpha3@) matches Some(q) && q < r {
            1nat
        } else {
            0nat
        }
    }
}

/// No more countries rank below `r` than are stored.
proof fn lemma_ranked_below_bound(raws: Seq<RawCountry>, rank: spec_fn(Seq<char>) -> Option<nat>, r: nat)
    ensures
        ranked_below(raws, rank, r) <= raws.len(),
    decreases raws.len(),
{
    if raws.len() > 0 {
        lemma_ranked_below_bound(raws.drop_last(), rank, r);
    }
}

/// Fewer countries rank below a lower bound.
proof fn lemma_ranked_below_mono(raws: Seq<RawCountry>, rank: spec_fn(Seq<char>) -> Option<nat>, r1: nat, r2: nat)
    requires
        r1 <= r2,
    ensures
        ranked_below(raws, rank, r1) <= ranked_below(raws, rank, r2),
    decreases raws.len(),
{
    if raws.len() > 0 {
        lemma_ranked_below_mono(raws.drop_last(), rank, r1, r2);
    }
}

/// A stored country of rank `q` below `r` makes fewer countries rank below
/// `q` than below `r`.
proof fn lemma_ranked_below_strict(
    raws: Seq<RawCountry>,
    rank: spec_fn(Seq<char>) -> Option<nat>,
    i: int,
    r: nat,
)
    requires
        0 <= i < raws.len(),
        rank(raws[i].alpha3@) matches Some(q) && q < r,
    ensures
        ranked_below(raws, rank, rank(raws[i].alpha3@)->0) < ranked_below(raws, rank, r),
    decreases raws.len(),
{
    let q = rank(raws[i].alpha3@)->0;
    let init = raws.drop_last();
    if i == raws.len() - 1 {
        lemma_ranked_below_mono(init, rank, q, r);
    } else {
        assert(init[i] == raws[i]);
        lemma_ranked_below_strict(init, rank, i, r);
    }
}

/// Whether `fuel` levels are enough to build the tree below `start`.
pub open spec fn enough_levels(
    raws: Seq<RawCountry>,
    rank: spec_fn(Seq<char>) -> Option<nat>,
    start: Option<Seq<char>>,
    fuel: int,
) -> bool {
    match start {
        Some(p) => fuel >= ranked_below(raws, rank, rank(p)->0),
        None => fuel >= raws.len(),
    }
}

fn create_tree_fueled(
    countries_: &[RawCountry],
    parent_arg: Option<Alpha3>,
    fuel: usize,
    Ghost(rank): Ghost<spec_fn(Seq<char>) -> Option<nat>>,
) -> (res: Option<Vec<Country>>)
    ensures
        res matches Some(f) ==> forest_built(countries_@, opt_code(parent_arg), forest_model(f@)),
        ranked(countries_@, opt_code(parent_arg), rank) && enough_levels(
            countries_@,
            rank,
            opt_code(parent_arg),
            fuel as int,
        ) ==> res is Some,
    decreases fuel,
{
    let ghost raws = countries_@;
    let ghost parent = opt_code(parent_arg);
    let ghost pred = |r: RawCountry| opt_code(r.parent) == parent;
    let ghost good = ranked(raws, parent, rank) && enough_levels(raws, rank, parent, fuel as int);
    let mut branch: Vec<Country> = Vec::new();
    let mut i: usize = 0;
    proof {
        lemma_forest_model(branch@);
        assert(raws.take(0) =~= Seq::<RawCountry>::empty());
        reveal_with_fuel(Seq::filter, 1);
    }
    while i < countries_.len()
        invariant
            i <= raws.len(),
            raws == countries_@,
            parent == opt_code(parent_arg),
            good == (ranked(raws, parent, rank) && enough_levels(raws, rank, parent, fuel as int)),
            pred == (|r: RawCountry| opt_code(r.parent) == parent),
            forest_model(branch@).len() == raws.take(i as int).filter(pred).len(),
            forall|j: int|
                0 <= j < forest_model(branch@).len() ==> node_of_raw(
                    raws.take(i as int).filter(pred)[j],
                    #[trigger] forest_model(branch@)[j],
                ) && forest_built(
                    raws,
                    Some(forest_model(branch@)[j].alpha3),
                    forest_model(branch@)[j].children,
                ),
        decreases raws.len() - i,
    {
        let country = &countries_[i];
        let ghost prefix = raws.take(i as int);
        assert(raws.take(i + 1) =~= prefix.push(raws[i as int]));
        proof {
            prefix.lemma_filter_push(raws[i as int], pred);
        }
        if opt_code_eq(&country.parent, &parent_arg) {
            proof {
                if good {
                    assert(rank(raws[i as int].alpha3@) is Some);
                    let q = rank(raws[i as int].alpha3@)->0;
                    match parent {
                        Some(p) => {
                            lemma_ranked_below_strict(raws, rank, i as int, rank(p)->0);
                        },
                        None => {
                            lemma_ranked_below_strict(raws, rank, i as int, q + 1);
                            lemma_ranked_below_bound(raws, rank, q + 1);
                        },
                    }
                }
            }
            if fuel == 0 {
                return None;
            }
            let childs = match create_tree_fueled(
                countries_,
                Some(country.alpha3.clone()),
                fuel - 1,
                Ghost(rank),
            ) {
                Some(c) => c,
                None => {
                    return None;
                },
            };
            let mut country_tree = country_from_raw(country);
            country_tree.children = childs;
            let ghost before = branch@;
            branch.push(country_tree);
            proof {
                lemma_forest_concat(before, seq![country_tree]);
                lemma_forest_model(seq![country_tree]);
                assert(before.push(country_tree) == before + seq![country_tree]);
                lemma_forest_model(before);
                lemma_forest_model(branch@);
                assert(forest_model(branch@)[before.len() as int] == country_tree@);
            }
        }
        i = i + 1;
    }
    proof {
        assert(raws.take(i as int) =~= raws);
        lemma_nodes_built(raws, parent, forest_model(branch@), 0);
    }
    Some(branch)
}

/// Builds the tree of the stored countries below `parent_arg` as
/// `create_tree` does; `None` only where the parent links met on the way
/// down form a cycle (on which `create_tree` would not end), so that a
/// caller can build the tree without knowing the links to be free of
/// cycles.
pub fn create_tree_checked(countries_: &[RawCountry], parent_arg: Option<Alpha3>) -> (res: Option<
    Vec<Country>,
>)
    ensures
        res matches Some(f) ==> forest_built(countries_@, opt_code(parent_arg), forest_model(f@)),
        acyclic(countries_@, opt_code(parent_arg)) ==> res is Some,
{
    let ghost rank = choose|rank: spec_fn(Seq<char>) -> Option<nat>| ranked(countries_@, opt_code(parent_arg), rank);
    proof {
        if acyclic(countries_@, opt_code(parent_arg)) {
            if let Some(p) = opt_code(parent_arg) {
                lemma_ranked_below_bound(countries_@, rank, rank(p)->0);
            }
        }
    }
    create_tree_fueled(countries_, parent_arg, countries_.len(), Ghost(rank))
}

/// The root of the tree of the stored countries: the first stored country
/// without parent, with the tree below it; `None` where every stored
/// country has a parent.
pub fn countries_root(countries_: &[RawCountry]) -> (res: Option<Country>)
    requires
        acyclic(countries_@, None),
    ensures
        res is None <==> raw_children(countries_@, None).len() == 0,
        res matches Some(c) ==> exists|forest: Seq<CountryModel>|
            forest_built(countries_@, None, forest) && forest.len() > 0 && forest[0] == c@,
{
    let mut tree = create_tree(countries_, None);
    proof {
        lemma_forest_model(tree@);
    }
    let ghost forest = forest_model(tree@);
    if tree.len() == 0 {
        None
    } else {
        let root = tree.remove(0);
        assert(forest[0] == root@);
        Some(root)
    }
}

} // verus!
