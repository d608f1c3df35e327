//! Countries and regions form a tree: the root ("All"), regions below it
//! and countries as leaves.
use vstd::prelude::*;
use crate::types::{Alpha2, Alpha3, CountryLabel, alpha3_eq};

verus! {

/// A country as stored in the database: the tree is given by `parent`.
#[derive(Debug)]
pub struct RawCountry {
    pub label: CountryLabel,
    pub level: i32,
    pub alpha2: Alpha2,
    pub alpha3: Alpha3,
    pub numeric: i32,
    pub parent: Option<Alpha3>,
}

/// A node of the country tree.
#[derive(Debug)]
pub struct Country {
    pub label: CountryLabel,
    pub level: i32,
    pub alpha2: Alpha2,
    pub alpha3: Alpha3,
    pub numeric: i32,
    pub children: Vec<Country>,
    pub is_selected: bool,
    pub parent: Option<Alpha3>,
}

/// Mathematical picture of a country node and its subtree.
pub struct CountryModel {
    pub label: Seq<char>,
    pub level: i32,
    pub alpha2: Seq<char>,
    pub alpha3: Seq<char>,
    pub numeric: i32,
    pub children: Seq<CountryModel>,
    pub is_selected: bool,
    pub parent: Option<Seq<char>>,
}

/// The code of an optional alpha-3 value.
pub open spec fn opt_code(code: Option<Alpha3>) -> Option<Seq<char>> {
    match code {
        Some(c) => Some(c@),
        None => None,
    }
}

pub open spec fn country_model(c: Country) -> CountryModel
    decreases c,
{
    CountryModel {
        label: c.label@,
        level: c.level,
        alpha2: c.alpha2@,
        alpha3: c.alpha3@,
        numeric: c.numeric,
        children: forest_model(c.children@),
        is_selected: c.is_selected,
        parent: opt_code(c.parent),
    }
}

pub open spec fn forest_model(cs: Seq<Country>) -> Seq<CountryModel>
    decreases cs,
{
    if cs.len() == 0 {
        Seq::empty()
    } else {
        seq![country_model(cs[0])] + forest_model(cs.subrange(1, cs.len() as int))
    }
}

impl View for Country {
    type V = CountryModel;

    open spec fn view(&self) -> CountryModel {
        country_model(*self)
    }
}

/// The model of a list of countries lists the models of its members.
pub broadcast proof fn lemma_forest_model(cs: Seq<Country>)
    ensures
        #[trigger] forest_model(cs).len() == cs.len(),
        forall|i: int| 0 <= i < cs.len() ==> forest_model(cs)[i] == country_model(#[trigger] cs[i]),
    decreases cs.len(),
{
    if cs.len() > 0 {
        lemma_forest_model(cs.subrange(1, cs.len() as int));
        assert forall|i: int| 0 <= i < cs.len() implies forest_model(cs)[i] == country_model(
            #[trigger] cs[i],
        ) by {
            if i > 0 {
                assert(cs.subrange(1, cs.len() as int)[i - 1] == cs[i]);
            }
        }
    }
}

/// The model of a concatenation is the concatenation of the models.
pub proof fn lemma_forest_concat(a: Seq<Country>, b: Seq<Country>)
    ensures
        forest_model(a + b) == forest_model(a) + forest_model(b),
{
    lemma_forest_model(a);
    lemma_forest_model(b);
    lemma_forest_model(a + b);
    assert forall|j: int| 0 <= j < (a + b).len() implies forest_model(a + b)[j] == (
    forest_model(a) + forest_model(b))[j] by {
        if j < a.len() {
            assert((a + b)[j] == a[j]);
        } else {
            assert((a + b)[j] == b[j - a.len()]);
        }
    }
    assert(forest_model(a + b) =~= forest_model(a) + forest_model(b));
}

/// Copies a whole subtree.
pub fn clone_country(c: &Country) -> (res: Country)
    ensures
        res@ == c@,
    decreases c,
{
    broadcast use lemma_forest_model;
    let mut children: Vec<Country> = Vec::new();
    let mut i: usize = 0;
    while i < c.children.len()
        invariant
            i <= c.children.len(),
            children@.len() == i,
            forall|j: int| 0 <= j < i ==> (#[trigger] children@[j])@ == c.children@[j]@,
        decreases c.children.len() - i,
    {
        let child = clone_country(&c.children[i]);
        children.push(child);
        i = i + 1;
    }
    proof {
        lemma_forest_model(children@);
        lemma_forest_model(c.children@);
    }
    assert forall|j: int| 0 <= j < children@.len() implies forest_model(children@)[j]
        == forest_model(c.children@)[j] by {
        assert(children@[j]@ == c.children@[j]@);
    }
    assert(forest_model(children@) =~= forest_model(c.children@));
    Country {
        label: c.label.clone(),
        level: c.level,
        alpha2: c.alpha2.clone(),
        alpha3: c.alpha3.clone(),
        numeric: c.numeric,
        children,
        is_selected: c.is_selected,
        parent: clone_opt_code(&c.parent),
    }
}

/// The tree node (without children, not selected) of a stored country.
pub fn country_from_raw(raw: &RawCountry) -> (res: Country)
    ensures
        node_of_raw(*raw, res@),
        res.children@.len() == 0,
{
    let res = Country {
        label: raw.label.clone(),
        children: Vec::new(),
        level: raw.level,
        alpha2: raw.alpha2.clone(),
        alpha3: raw.alpha3.clone(),
        numeric: raw.numeric,
        is_selected: false,
        parent: clone_opt_code(&raw.parent),
    };
    proof {
        lemma_forest_model(res.children@);
    }
    res
}

/// Copies an optional alpha-3 code.
pub fn clone_opt_code(code: &Option<Alpha3>) -> (res: Option<Alpha3>)
    ensures
        opt_code(res) == opt_code(*code),
{
    match code {
        Some(c) => Some(c.clone()),
        None => None,
    }
}

impl Clone for Country {
    fn clone(&self) -> (res: Self)
        ensures
            res@ == self@,
    {
        clone_country(self)
    }
}

/// The stored countries whose parent is `parent`, in stored order.
pub open spec fn raw_children(raws: Seq<RawCountry>, parent: Option<Seq<char>>) -> Seq<RawCountry> {
    raws.filter(|r: RawCountry| opt_code(r.parent) == parent)
}

/// `m` is the node made of the stored country `raw` (not selected yet).
pub open spec fn node_of_raw(raw: RawCountry, m: CountryModel) -> bool {
    &&& m.label == raw.label@
    &&& m.level == raw.level
    &&& m.alpha2 == raw.alpha2@
    &&& m.alpha3 == raw.alpha3@
    &&& m.numeric == raw.numeric
    &&& !m.is_selected
    &&& m.parent == opt_code(raw.parent)
}

/// `forest` is the tree of the stored countries below `parent`: one node for
/// each stored country whose parent is `parent`, in stored order, each with
/// the tree below its own code as children.
pub open spec fn forest_built(raws: Seq<RawCountry>, parent: Option<Seq<char>>, forest: Seq<
    CountryModel,
>) -> bool
    decreases forest, forest.len() + 1,
{
    forest.len() == raw_children(raws, parent).len() && nodes_built(raws, parent, forest, 0)
}

/// The nodes `forest[k]`, `forest[k + 1]`, ... are built from the matching
/// stored children of `parent`.
pub open spec fn nodes_built(raws: Seq<RawCountry>, parent: Option<Seq<char>>, forest: Seq<
    CountryModel,
>, k: int) -> bool
    decreases forest, forest.len() - k,
{
    k < 0 || k >= forest.len() || {
        &&& node_of_raw(raw_children(raws, parent)[k], forest[k])
        &&& forest_built(raws, Some(forest[k].alpha3), forest[k].children)
        &&& nodes_built(raws, parent, forest, k + 1)
    }
}

/// Each stored country reached from `start` (the countries without parent
/// when `start` is `None`, else the countries below the code `start`) ranks
/// below its parent, so that the parent links met on the way down from
/// `start` form no cycle.
pub open spec fn ranked(
    raws: Seq<RawCountry>,
    start: Option<Seq<char>>,
    rank: spec_fn(Seq<char>) -> Option<nat>,
) -> bool {
    &&& (start matches Some(p) ==> rank(p) is Some)
    &&& forall|i: int|
        0 <= i < raws.len() ==> (match (#[trigger] raws[i]).parent {
            None => start is None ==> rank(raws[i].alpha3@) is Some,
            Some(p) => rank(p@) is Some ==> (rank(raws[i].alpha3@) is Some && rank(
                raws[i].alpha3@,
            )->0 < rank(p@)->0),
        })
}

/// The parent links met on the way down from `start` form no cycle.
pub open spec fn acyclic(raws: Seq<RawCountry>, start: Option<Seq<char>>) -> bool {
    exists|rank: spec_fn(Seq<char>) -> Option<nat>| ranked(raws, start, rank)
}

/// `nodes_built` holds when each node from `k` on is built.
pub proof fn lemma_nodes_built(raws: Seq<RawCountry>, parent: Option<Seq<char>>, forest: Seq<
    CountryModel,
>, k: int)
    requires
        0 <= k,
        forall|j: int|
            k <= j < forest.len() ==> node_of_raw(raw_children(raws, parent)[j], #[trigger] forest[j])
                && forest_built(raws, Some(forest[j].alpha3), forest[j].children),
    ensures
        nodes_built(raws, parent, forest, k),
    decreases forest.len() - k,
{
    if k < forest.len() {
        lemma_nodes_built(raws, parent, forest, k + 1);
    }
}

/// The first node of the subtree, in pre-order, whose code is `code`.
pub open spec fn find_in_tree(m: CountryModel, code: Seq<char>) -> Option<CountryModel>
    decreases m, 0int,
{
    if m.alpha3 == code {
        Some(m)
    } else {
        find_in_forest(m.children, code, 0)
    }
}

/// The first node, in pre-order, with code `code` among the subtrees
/// `ms[i]`, `ms[i + 1]`, ...
pub open spec fn find_in_forest(ms: Seq<CountryModel>, code: Seq<char>, i: int) -> Option<
    CountryModel,
>
    decreases ms, ms.len() - i,
{
    if i < 0 || i >= ms.len() {
        None
    } else {
        match find_in_tree(ms[i], code) {
            Some(r) => Some(r),
            None => find_in_forest(ms, code, i + 1),
        }
    }
}

/// Whether some node of the subtree carries `code`.
pub open spec fn tree_contains(m: CountryModel, code: Seq<char>) -> bool
    decreases m, 0int,
{
    m.alpha3 == code || forest_contains(m.children, code, 0)
}

/// Whether one of the subtrees `ms[i]`, `ms[i + 1]`, ... holds a node with
/// code `code`.
pub open spec fn forest_contains(ms: Seq<CountryModel>, code: Seq<char>, i: int) -> bool
    decreases ms, ms.len() - i,
{
    0 <= i < ms.len() && (tree_contains(ms[i], code) || forest_contains(ms, code, i + 1))
}

/// The model of an optional country.
pub open spec fn opt_model(c: Option<Country>) -> Option<CountryModel> {
    match c {
        Some(c) => Some(c@),
        None => None,
    }
}

/// The node found by a search carries the searched code, and a search
/// finds a node exactly when the subtree contains the code.
pub proof fn lemma_find_in_tree(m: CountryModel, code: Seq<char>)
    ensures
        find_in_tree(m, code) is Some <==> tree_contains(m, code),
        find_in_tree(m, code) matches Some(r) ==> r.alpha3 == code,
    decreases m, 0int,
{
    if m.alpha3 != code {
        lemma_find_in_forest(m.children, code, 0);
    }
}

/// Forest counterpart of `lemma_find_in_tree`.
pub proof fn lemma_find_in_forest(ms: Seq<CountryModel>, code: Seq<char>, i: int)
    ensures
        find_in_forest(ms, code, i) is Some <==> forest_contains(ms, code, i),
        find_in_forest(ms, code, i) matches Some(r) ==> r.alpha3 == code,
    decreases ms, ms.len() - i,
{
    if 0 <= i < ms.len() {
        lemma_find_in_tree(ms[i], code);
        lemma_find_in_forest(ms, code, i + 1);
    }
}

/// Returns (a copy of) the first node of the tree, in pre-order, whose
/// alpha-3 code is `country_id`.
pub fn get_country(country: &Country, country_id: &Alpha3) -> (res: Option<Country>)
    ensures
        opt_model(res) == find_in_tree(country@, country_id@),
    decreases country, 0int,
{
    if alpha3_eq(&country.alpha3, country_id) {
        Some(country.clone())
    } else {
        get_country_from_forest(&country.children, country_id)
    }
}

/// Returns (a copy of) the first node, in pre-order over the trees in
/// `countries`, whose alpha-3 code is `country_id`.
pub fn get_country_from_forest(countries: &Vec<Country>, country_id: &Alpha3) -> (res: Option<
    Country,
>)
    ensures
        opt_model(res) == find_in_forest(forest_model(countries@), country_id@, 0),
    decreases countries, 1int,
{
    proof {
        lemma_forest_model(countries@);
    }
    let ghost ms = forest_model(countries@);
    let mut i: usize = 0;
    while i < countries.len()
        invariant
            i <= countries.len(),
            ms == forest_model(countries@),
            ms.len() == countries@.len(),
            forall|j: int| 0 <= j < countries@.len() ==> ms[j] == (#[trigger] countries@[j])@,
            find_in_forest(ms, country_id@, 0) == find_in_forest(ms, country_id@, i as int),
        decreases countries.len() - i,
    {
        let found = get_country(&countries[i], country_id);
        if found.is_some() {
            return found;
        }
        i = i + 1;
    }
    None
}

/// Whether the tree holds a node with the alpha-3 code `country_code`.
pub fn contains_country_code(country: &Country, country_code: &Alpha3) -> (res: bool)
    ensures
        res == tree_contains(country@, country_code@),
    decreases country,
{
    if alpha3_eq(&country.alpha3, country_code) {
        true
    } else {
        proof {
            lemma_forest_model(country.children@);
        }
        let mut i: usize = 0;
        while i < country.children.len()
            invariant
                i <= country.children.len(),
                country@.children == forest_model(country.children@),
                country@.children.len() == country.children@.len(),
                forall|j: int|
                    0 <= j < country.children@.len() ==> country@.children[j] == (
                    #[trigger] country.children@[j])@,
                forest_contains(country@.children, country_code@, 0) == forest_contains(
                    country@.children,
                    country_code@,
                    i as int,
                ),
            decreases country.children.len() - i,
        {
            if contains_country_code(&country.children[i], country_code) {
                return true;
            }
            i = i + 1;
        }
        false
    }
}

/// The subtree with every node marked as selected.
pub open spec fn mark_all(m: CountryModel) -> CountryModel
    decreases m,
{
    CountryModel {
        is_selected: true,
        children: Seq::new(
            m.children.len(),
            |j: int|
                if 0 <= j < m.children.len() {
                    mark_all(m.children[j])
                } else {
                    m
                },
        ),
        ..m
    }
}

/// The subtree after selecting the codes `codes`: a node whose code is
/// listed is selected together with its whole subtree; the search goes on
/// below the nodes that are not listed.
pub open spec fn select_codes(m: CountryModel, codes: Seq<Seq<char>>) -> CountryModel
    decreases m,
{
    if codes.contains(m.alpha3) {
        mark_all(m)
    } else {
        CountryModel {
            children: Seq::new(
                m.children.len(),
                |j: int|
                    if 0 <= j < m.children.len() {
                        select_codes(m.children[j], codes)
                    } else {
                        m
                    },
            ),
            ..m
        }
    }
}

/// Codes of the topmost selected nodes, in pre-order.
pub open spec fn selected_codes(m: CountryModel) -> Seq<Seq<char>>
    decreases m, 1int,
{
    if m.is_selected {
        seq![m.alpha3]
    } else {
        selected_parts(m).flatten()
    }
}

/// `selected_codes` of each child.
pub open spec fn selected_parts(m: CountryModel) -> Seq<Seq<Seq<char>>>
    decreases m, 0int,
{
    Seq::new(
        m.children.len(),
        |j: int|
            if 0 <= j < m.children.len() {
                selected_codes(m.children[j])
            } else {
                Seq::empty()
            },
    )
}

/// The leaves of the subtree, from left to right.
pub open spec fn leaves(m: CountryModel) -> Seq<CountryModel>
    decreases m, 1int,
{
    if m.children.len() == 0 {
        seq![m]
    } else {
        leaf_parts(m).flatten()
    }
}

/// `leaves` of each child.
pub open spec fn leaf_parts(m: CountryModel) -> Seq<Seq<CountryModel>>
    decreases m, 0int,
{
    Seq::new(
        m.children.len(),
        |j: int|
            if 0 <= j < m.children.len() {
                leaves(m.children[j])
            } else {
                Seq::empty()
            },
    )
}

/// The subtree with the nodes `level` steps below the root left without
/// children; a negative level removes nothing.
pub open spec fn clear_below(m: CountryModel, level: int) -> CountryModel
    decreases m,
{
    if level == 0 {
        CountryModel { children: Seq::empty(), ..m }
    } else if level < 0 {
        m
    } else {
        CountryModel {
            children: Seq::new(
                m.children.len(),
                |j: int|
                    if 0 <= j < m.children.len() {
                        clear_below(m.children[j], level - 1)
                    } else {
                        m
                    },
            ),
            ..m
        }
    }
}

/// Whether a node exactly `level` steps below the root carries `code`.
pub open spec fn code_at_depth(m: CountryModel, code: Seq<char>, level: int) -> bool
    decreases m, 0int,
{
    if level == 0 {
        m.alpha3 == code
    } else {
        level > 0 && forest_code_at_depth(m.children, code, level - 1, 0)
    }
}

/// Whether one of `ms[i]`, `ms[i + 1]`, ... has a node with `code` exactly
/// `level` steps below its root.
pub open spec fn forest_code_at_depth(ms: Seq<CountryModel>, code: Seq<char>, level: int, i: int) -> bool
    decreases ms, ms.len() - i,
{
    0 <= i < ms.len() && (code_at_depth(ms[i], code, level) || forest_code_at_depth(
        ms,
        code,
        level,
        i + 1,
    ))
}

/// Codes on the way from the first node (in pre-order) with code `code` up
/// to the root, the node's own code first; empty when there is none.
pub open spec fn path_codes(m: CountryModel, code: Seq<char>) -> Seq<Seq<char>>
    decreases m, 0int,
{
    if m.alpha3 == code {
        seq![code]
    } else {
        let p = forest_path_codes(m.children, code, 0);
        if p.len() > 0 {
            p.push(m.alpha3)
        } else {
            p
        }
    }
}

/// `path_codes` of the first of `ms[i]`, `ms[i + 1]`, ... that has one.
pub open spec fn forest_path_codes(ms: Seq<CountryModel>, code: Seq<char>, i: int) -> Seq<
    Seq<char>,
>
    decreases ms, ms.len() - i,
{
    if i < 0 || i >= ms.len() {
        Seq::empty()
    } else {
        let p = path_codes(ms[i], code);
        if p.len() > 0 {
            p
        } else {
            forest_path_codes(ms, code, i + 1)
        }
    }
}

/// The subtree with the branches that hold no used code cut off: the
/// children of a node that are used stay whole, the others are pruned in
/// turn and stay only when something is left below them.
pub open spec fn prune(m: CountryModel, used: Seq<Seq<char>>) -> CountryModel
    decreases m, 0int,
{
    CountryModel { children: prune_forest(m.children, used, 0), ..m }
}

/// The pruned forms of `ms[i]`, `ms[i + 1]`, ... that are kept.
pub open spec fn prune_forest(ms: Seq<CountryModel>, used: Seq<Seq<char>>, i: int) -> Seq<
    CountryModel,
>
    decreases ms, ms.len() - i,
{
    if i < 0 || i >= ms.len() {
        Seq::empty()
    } else {
        let rest = prune_forest(ms, used, i + 1);
        if used.contains(ms[i].alpha3) {
            seq![ms[i]] + rest
        } else {
            let p = prune(ms[i], used);
            if p.children.len() > 0 {
                seq![p] + rest
            } else {
                rest
            }
        }
    }
}

/// The codes of `used` that occur in the tree, in the order of `used`.
pub open spec fn found_codes(m: CountryModel, used: Seq<Seq<char>>) -> Seq<Seq<char>> {
    used.filter(|c: Seq<char>| tree_contains(m, c))
}

/// Whether the first node with code `code` is a root (has no parent).
pub open spec fn is_top_level(m: CountryModel, code: Seq<char>) -> bool {
    find_in_tree(m, code) matches Some(r) && r.parent is None
}

/// The tree of the places a delivery covers: the whole tree when one of the
/// used codes names a node without parent, else the tree pruned to the used
/// codes that occur in it.
pub open spec fn used_countries_tree(m: CountryModel, used: Seq<Seq<char>>) -> CountryModel {
    if exists|i: int| 0 <= i < used.len() && #[trigger] is_top_level(m, used[i]) {
        m
    } else {
        prune(m, found_codes(m, used))
    }
}

/// Codes of a list of alpha-3 values.
pub open spec fn codes_model(v: Seq<Alpha3>) -> Seq<Seq<char>> {
    v.map_values(|a: Alpha3| a@)
}

/// The nodes of the tree in pre-order (each node before its children, the
/// children from left to right).
pub open spec fn preorder(c: Country) -> Seq<Country>
    decreases c, 1int,
{
    seq![c] + preorder_parts(c.children@).flatten()
}

/// `preorder` of each tree of a list.
pub open spec fn preorder_parts(cs: Seq<Country>) -> Seq<Seq<Country>>
    decreases cs, 0int,
{
    Seq::new(
        cs.len(),
        |j: int|
            if 0 <= j < cs.len() {
                preorder(cs[j])
            } else {
                Seq::empty()
            },
    )
}

/// `out` lists, in order, copies of those `nodes` for which the predicate
/// answered `true`.
pub open spec fn picked<P: Fn(&Country) -> bool>(pred: P, nodes: Seq<Country>, out: Seq<Country>) -> bool
    decreases nodes.len(),
{
    if nodes.len() == 0 {
        out.len() == 0
    } else {
        let last = nodes.last();
        ||| {
            &&& call_ensures(pred, (&last,), true)
            &&& out.len() > 0
            &&& out.last()@ == last@
            &&& picked(pred, nodes.drop_last(), out.drop_last())
        }
        ||| {
            &&& call_ensures(pred, (&last,), false)
            &&& picked(pred, nodes.drop_last(), out)
        }
    }
}

/// Picks from a single node.
pub proof fn lemma_picked_one<P: Fn(&Country) -> bool>(pred: P, c: Country, out: Seq<Country>)
    requires
        (call_ensures(pred, (&c,), true) && out.len() == 1 && out[0]@ == c@) || (call_ensures(
            pred,
            (&c,),
            false,
        ) && out.len() == 0),
    ensures
        picked(pred, seq![c], out),
{
    reveal_with_fuel(picked, 2);
    assert(seq![c].drop_last() =~= Seq::<Country>::empty());
    assert(seq![c].last() == c);
    if out.len() == 1 {
        assert(out.drop_last() =~= Seq::<Country>::empty());
        assert(out.last() == out[0]);
    }
}

/// Picks from two runs of nodes put together.
pub proof fn lemma_picked_concat<P: Fn(&Country) -> bool>(
    pred: P,
    a: Seq<Country>,
    b: Seq<Country>,
    x: Seq<Country>,
    y: Seq<Country>,
)
    requires
        picked(pred, a, x),
        picked(pred, b, y),
    ensures
        picked(pred, a + b, x + y),
    decreases b.len(),
{
    if b.len() == 0 {
        assert(a + b =~= a);
        assert(x + y =~= x);
    } else {
        assert((a + b).drop_last() =~= a + b.drop_last());
        assert((a + b).last() == b.last());
        if call_ensures(pred, (&b.last(),), true) && y.len() > 0 && y.last()@ == b.last()@
            && picked(pred, b.drop_last(), y.drop_last()) {
            lemma_picked_concat(pred, a, b.drop_last(), x, y.drop_last());
            assert((x + y).drop_last() =~= x + y.drop_last());
        } else {
            lemma_picked_concat(pred, a, b.drop_last(), x, y);
        }
    }
}

/// `forest_contains` from `i` on holds exactly when one of the subtrees
/// from `i` on contains the code.
pub proof fn lemma_forest_contains(ms: Seq<CountryModel>, code: Seq<char>, i: int)
    requires
        0 <= i,
    ensures
        forest_contains(ms, code, i) <==> exists|j: int|
            i <= j < ms.len() && #[trigger] tree_contains(ms[j], code),
    decreases ms.len() - i,
{
    if i < ms.len() {
        lemma_forest_contains(ms, code, i + 1);
        if tree_contains(ms[i], code) {
            assert(i <= i < ms.len() && tree_contains(ms[i], code));
        }
        if exists|j: int| i <= j < ms.len() && #[trigger] tree_contains(ms[j], code) {
            let j = choose|j: int| i <= j < ms.len() && #[trigger] tree_contains(ms[j], code);
            if j != i {
                assert(i + 1 <= j < ms.len() && tree_contains(ms[j], code));
            }
        }
    }
}

/// Whether the pruned children `prune_forest(ms, used, i)` contain `code`.
proof fn lemma_prune_forest_contains(ms: Seq<CountryModel>, used: Seq<Seq<char>>, code: Seq<char>, i: int)
    requires
        0 <= i,
    ensures
        used.contains(code) && forest_contains(ms, code, i) ==> forest_contains(
            prune_forest(ms, used, i),
            code,
            0,
        ),
        forest_contains(prune_forest(ms, used, i), code, 0) ==> forest_contains(ms, code, i),
    decreases ms, ms.len() - i,
{
    if i < ms.len() {
        let rest = prune_forest(ms, used, i + 1);
        lemma_prune_forest_contains(ms, used, code, i + 1);
        lemma_prune_contains(ms[i], used, code);
        lemma_forest_contains(rest, code, 0);
        lemma_forest_contains(ms, code, i);
        lemma_forest_contains(ms, code, i + 1);
        let x = if used.contains(ms[i].alpha3) {
            ms[i]
        } else {
            prune(ms[i], used)
        };
        let out = seq![x] + rest;
        lemma_forest_contains(out, code, 0);
        if used.contains(ms[i].alpha3) || prune(ms[i], used).children.len() > 0 {
            assert(prune_forest(ms, used, i) == out);
            if forest_contains(rest, code, 0) {
                let j = choose|j: int| 0 <= j < rest.len() && #[trigger] tree_contains(rest[j], code);
                assert(out[j + 1] == rest[j]);
            }
            if forest_contains(out, code, 0) {
                let j = choose|j: int| 0 <= j < out.len() && #[trigger] tree_contains(out[j], code);
                if j > 0 {
                    assert(out[j] == rest[j - 1]);
                }
            }
            assert(out[0] == x);
        } else {
            let p = prune(ms[i], used);
            lemma_forest_contains(p.children, code, 0);
            if tree_contains(ms[i], code) && used.contains(code) {
                assert(tree_contains(p, code));
                assert(p.alpha3 == ms[i].alpha3);
                assert(!forest_contains(p.children, code, 0));
            }
        }
    }
}

/// Whether a pruned tree contains `code`.
proof fn lemma_prune_contains(m: CountryModel, used: Seq<Seq<char>>, code: Seq<char>)
    ensures
        used.contains(code) && tree_contains(m, code) ==> tree_contains(prune(m, used), code),
        tree_contains(prune(m, used), code) ==> tree_contains(m, code),
    decreases m, 0int,
{
    lemma_prune_forest_contains(m.children, used, code, 0);
}

/// Pruning to the used codes keeps every used code of the tree and adds
/// none: the pruned tree holds a used code exactly when the tree does, and
/// holds no code that the tree lacks.
pub proof fn lemma_prune_keeps_used_codes(m: CountryModel, used: Seq<Seq<char>>, code: Seq<char>)
    ensures
        used.contains(code) ==> (tree_contains(prune(m, used), code) <==> tree_contains(m, code)),
        tree_contains(prune(m, used), code) ==> tree_contains(m, code),
{
    lemma_prune_contains(m, used, code);
}

/// The tree of the places a delivery covers holds every used code that the
/// full tree holds, and no code that the full tree lacks.
pub proof fn lemma_used_tree_covers_used_codes(m: CountryModel, used: Seq<Seq<char>>, code: Seq<char>)
    ensures
        used.contains(code) && tree_contains(m, code) ==> tree_contains(
            used_countries_tree(m, used),
            code,
        ),
        tree_contains(used_countries_tree(m, used), code) ==> tree_contains(m, code),
{
    let found = found_codes(m, used);
    lemma_prune_contains(m, found, code);
    if used.contains(code) && tree_contains(m, code) {
        let i = choose|i: int| 0 <= i < used.len() && used[i] == code;
        used.lemma_filter_contains(|c: Seq<char>| tree_contains(m, c), i);
    }
}

/// A search path exists exactly when the tree holds the code; it starts at
/// the searched code and ends at the code of the root.
pub proof fn lemma_path_codes(m: CountryModel, code: Seq<char>)
    ensures
        path_codes(m, code).len() > 0 <==> tree_contains(m, code),
        path_codes(m, code).len() > 0 ==> path_codes(m, code)[0] == code && path_codes(m, code).last()
            == m.alpha3,
    decreases m, 0int,
{
    if m.alpha3 != code {
        lemma_forest_path_codes(m.children, code, 0);
    }
}

/// Forest counterpart of `lemma_path_codes`.
pub proof fn lemma_forest_path_codes(ms: Seq<CountryModel>, code: Seq<char>, i: int)
    ensures
        forest_path_codes(ms, code, i).len() > 0 <==> forest_contains(ms, code, i),
        forest_path_codes(ms, code, i).len() > 0 ==> forest_path_codes(ms, code, i)[0] == code,
    decreases ms, ms.len() - i,
{
    if 0 <= i < ms.len() {
        lemma_path_codes(ms[i], code);
        lemma_forest_path_codes(ms, code, i + 1);
    }
}

fn get_countries_by_inner<P: Fn(&Country) -> bool>(
    country: &Country,
    predicate: &P,
    vec: &mut Vec<Country>,
)
    requires
        forall|c: &Country| #[trigger] predicate.requires((c,)),
    ensures
        final(vec)@.len() >= old(vec)@.len(),
        final(vec)@.subrange(0, old(vec)@.len() as int) == old(vec)@,
        picked(
            *predicate,
            preorder(*country),
            final(vec)@.subrange(old(vec)@.len() as int, final(vec)@.len() as int),
        ),
    decreases country, 1int,
{
    let ghost start = vec@.len() as int;
    let keep = predicate(country);
    if keep {
        vec.push(country.clone());
    }
    let ghost mid = vec@;
    proof {
        lemma_picked_one(*predicate, *country, mid.subrange(start, mid.len() as int));
    }
    get_countries_from_forest_by_inner(&country.children, predicate, vec);
    proof {
        let x = mid.subrange(start, mid.len() as int);
        let y = vec@.subrange(mid.len() as int, vec@.len() as int);
        lemma_picked_concat(
            *predicate,
            seq![*country],
            preorder_parts(country.children@).flatten(),
            x,
            y,
        );
        assert(vec@.subrange(start, vec@.len() as int) =~= x + y);
        assert(vec@.subrange(0, start) =~= mid.subrange(0, start));
    }
}

fn get_countries_from_forest_by_inner<P: Fn(&Country) -> bool>(
    countries: &Vec<Country>,
    predicate: &P,
    vec: &mut Vec<Country>,
)
    requires
        forall|c: &Country| #[trigger] predicate.requires((c,)),
    ensures
        final(vec)@.len() >= old(vec)@.len(),
        final(vec)@.subrange(0, old(vec)@.len() as int) == old(vec)@,
        picked(
            *predicate,
            preorder_parts(countries@).flatten(),
            final(vec)@.subrange(old(vec)@.len() as int, final(vec)@.len() as int),
        ),
    decreases countries, 0int,
{
    let ghost start = vec@.len() as int;
    let ghost parts = preorder_parts(countries@);
    let mut i: usize = 0;
    proof {
        assert(parts.take(0) =~= Seq::<Seq<Country>>::empty());
        assert(vec@.subrange(start, vec@.len() as int) =~= Seq::<Country>::empty());
    }
    while i < countries.len()
        invariant
            i <= countries@.len(),
            parts == preorder_parts(countries@),
            forall|c: &Country| #[trigger] predicate.requires((c,)),
            start == old(vec)@.len(),
            vec@.len() >= start,
            vec@.subrange(0, start) == old(vec)@,
            picked(*predicate, parts.take(i as int).flatten(), vec@.subrange(start, vec@.len() as int)),
        decreases countries.len() - i,
    {
        let ghost mid = vec@;
        get_countries_by_inner(&countries[i], predicate, vec);
        proof {
            let x = mid.subrange(start, mid.len() as int);
            let y = vec@.subrange(mid.len() as int, vec@.len() as int);
            assert(parts[i as int] == preorder(countries@[i as int]));
            lemma_picked_concat(*predicate, parts.take(i as int).flatten(), parts[i as int], x, y);
            assert(parts.take(i + 1) =~= parts.take(i as int).push(parts[i as int]));
            parts.take(i as int).lemma_flatten_push(parts[i as int]);
            assert(vec@.subrange(start, vec@.len() as int) =~= x + y);
            assert(vec@.subrange(0, start) =~= mid.subrange(0, start));
        }
        i = i + 1;
    }
    assert(parts.take(i as int) =~= parts);
}

/// Copies of the nodes of the tree, in pre-order, for which `predicate`
/// answers `true`.
pub fn get_countries_by<P: Fn(&Country) -> bool>(country: &Country, predicate: P) -> (res: Vec<
    Country,
>)
    requires
        forall|c: &Country| #[trigger] predicate.requires((c,)),
    ensures
        picked(predicate, preorder(*country), res@),
{
    let mut vec: Vec<Country> = Vec::new();
    get_countries_by_inner(country, &predicate, &mut vec);
    assert(vec@.subrange(0, vec@.len() as int) =~= vec@);
    vec
}

/// Copies of the nodes of the trees, in pre-order tree after tree, for
/// which `predicate` answers `true`.
pub fn get_countries_from_forest_by<P: Fn(&Country) -> bool>(countries: &Vec<Country>, predicate: P) -> (res:
    Vec<Country>)
    requires
        forall|c: &Country| #[trigger] predicate.requires((c,)),
    ensures
        picked(predicate, preorder_parts(countries@).flatten(), res@),
{
    let mut vec: Vec<Country> = Vec::new();
    get_countries_from_forest_by_inner(countries, &predicate, &mut vec);
    assert(vec@.subrange(0, vec@.len() as int) =~= vec@);
    vec
}

/// Whether no node of the subtree is selected.
pub open spec fn none_selected(m: CountryModel) -> bool
    decreases m, 0int,
{
    !m.is_selected && forest_none_selected(m.children, 0)
}

/// Whether no node of the subtrees `ms[i]`, `ms[i + 1]`, ... is selected.
pub open spec fn forest_none_selected(ms: Seq<CountryModel>, i: int) -> bool
    decreases ms, ms.len() - i,
{
    i < 0 || i >= ms.len() || (none_selected(ms[i]) && forest_none_selected(ms, i + 1))
}

/// Each subtree of a forest in which nothing is selected has nothing
/// selected.
proof fn lemma_forest_none_selected(ms: Seq<CountryModel>, i: int, j: int)
    requires
        0 <= i <= j < ms.len(),
        forest_none_selected(ms, i),
    ensures
        none_selected(ms[j]),
    decreases j - i,
{
    if i < j {
        lemma_forest_none_selected(ms, i + 1, j);
    }
}

/// Every element of the concatenation of the parts is among `codes` when
/// every element of every part is.
proof fn lemma_flatten_within(parts: Seq<Seq<Seq<char>>>, codes: Seq<Seq<char>>)
    requires
        forall|j: int, k: int|
            0 <= j < parts.len() && 0 <= k < parts[j].len() ==> codes.contains(#[trigger] parts[j][k]),
    ensures
        forall|k: int| 0 <= k < parts.flatten().len() ==> codes.contains(#[trigger] parts.flatten()[k]),
    decreases parts.len(),
{
    if parts.len() > 0 {
        let rest = parts.drop_first();
        assert forall|j: int, k: int|
            0 <= j < rest.len() && 0 <= k < rest[j].len() implies codes.contains(#[trigger] rest[j][k]) by {
            assert(rest[j] == parts[j + 1]);
        }
        lemma_flatten_within(rest, codes);
        let f = parts.flatten();
        assert(f == parts.first() + rest.flatten());
        assert forall|k: int| 0 <= k < f.len() implies codes.contains(#[trigger] f[k]) by {
            if k < parts.first().len() {
                assert(f[k] == parts[0][k]);
            } else {
                assert(f[k] == rest.flatten()[k - parts.first().len()]);
            }
        }
    }
}

/// Reading back the selection of a tree in which nothing was selected
/// gives only codes that were selected.
pub proof fn lemma_selection_reads_back(m: CountryModel, codes: Seq<Seq<char>>)
    requires
        none_selected(m),
    ensures
        forall|k: int|
            0 <= k < selected_codes(select_codes(m, codes)).len() ==> codes.contains(
                #[trigger] selected_codes(select_codes(m, codes))[k],
            ),
    decreases m,
{
    if !codes.contains(m.alpha3) {
        let s = select_codes(m, codes);
        let parts = selected_parts(s);
        assert(s.children.len() == m.children.len());
        assert(!s.is_selected);
        assert(parts.len() == s.children.len());
        assert forall|j: int, k: int|
            0 <= j < parts.len() && 0 <= k < parts[j].len() implies codes.contains(#[trigger] parts[j][k]) by {
            lemma_forest_none_selected(m.children, 0, j);
            lemma_selection_reads_back(m.children[j], codes);
            assert(s.children[j] == select_codes(m.children[j], codes));
            assert(parts[j] == selected_codes(s.children[j]));
        }
        lemma_flatten_within(parts, codes);
    }
}

/// Whether no listed code lies inside the subtree of a node that carries
/// another listed code.
pub open spec fn separate(m: CountryModel, codes: Seq<Seq<char>>) -> bool
    decreases m, 0int,
{
    if codes.contains(m.alpha3) {
        forall|y: Seq<char>|
            codes.contains(y) && y != m.alpha3 ==> !#[trigger] forest_contains(m.children, y, 0)
    } else {
        forest_separate(m.children, codes, 0)
    }
}

/// `separate` for each of the subtrees `ms[i]`, `ms[i + 1]`, ...
pub open spec fn forest_separate(ms: Seq<CountryModel>, codes: Seq<Seq<char>>, i: int) -> bool
    decreases ms, ms.len() - i,
{
    i < 0 || i >= ms.len() || (separate(ms[i], codes) && forest_separate(ms, codes, i + 1))
}

/// Each subtree of a separate forest is separate.
proof fn lemma_forest_separate(ms: Seq<CountryModel>, codes: Seq<Seq<char>>, i: int, j: int)
    requires
        0 <= i <= j < ms.len(),
        forest_separate(ms, codes, i),
    ensures
        separate(ms[j], codes),
    decreases j - i,
{
    if i < j {
        lemma_forest_separate(ms, codes, i + 1, j);
    }
}

/// A part holding `x` puts `x` into the concatenation of the parts.
proof fn lemma_flatten_has(parts: Seq<Seq<Seq<char>>>, j: int, x: Seq<char>)
    requires
        0 <= j < parts.len(),
        parts[j].contains(x),
    ensures
        parts.flatten().contains(x),
    decreases parts.len(),
{
    let rest = parts.drop_first();
    let f = parts.flatten();
    assert(f == parts.first() + rest.flatten());
    if j == 0 {
        let k = choose|k: int| 0 <= k < parts[0].len() && parts[0][k] == x;
        assert(f[k] == x);
    } else {
        assert(rest[j - 1] == parts[j]);
        lemma_flatten_has(rest, j - 1, x);
        let k = choose|k: int| 0 <= k < rest.flatten().len() && rest.flatten()[k] == x;
        assert(f[parts.first().len() + k] == x);
    }
}

/// A listed code that the tree holds, and that lies inside no node with
/// another listed code, is read back after the selection.
proof fn lemma_selection_finds(m: CountryModel, codes: Seq<Seq<char>>, x: Seq<char>)
    requires
        none_selected(m),
        separate(m, codes),
        codes.contains(x),
        tree_contains(m, x),
    ensures
        selected_codes(select_codes(m, codes)).contains(x),
    decreases m,
{
    if codes.contains(m.alpha3) {
        if m.alpha3 != x {
            assert(forest_contains(m.children, x, 0));
        }
        assert(selected_codes(select_codes(m, codes)) == seq![m.alpha3]);
        assert(seq![m.alpha3][0] == x);
    } else {
        assert(forest_contains(m.children, x, 0));
        lemma_forest_contains(m.children, x, 0);
        let j = choose|j: int| 0 <= j < m.children.len() && #[trigger] tree_contains(m.children[j], x);
        lemma_forest_none_selected(m.children, 0, j);
        lemma_forest_separate(m.children, codes, 0, j);
        lemma_selection_finds(m.children[j], codes, x);
        let s = select_codes(m, codes);
        let parts = selected_parts(s);
        assert(s.children[j] == select_codes(m.children[j], codes));
        assert(parts[j] == selected_codes(s.children[j]));
        lemma_flatten_has(parts, j, x);
    }
}

/// Selecting listed codes that the tree holds, none inside the node of
/// another, in a tree in which nothing was selected, and reading the
/// selection back gives exactly the listed codes.
pub proof fn lemma_selection_reads_back_exactly(m: CountryModel, codes: Seq<Seq<char>>)
    requires
        none_selected(m),
        separate(m, codes),
        forall|x: Seq<char>| codes.contains(x) ==> #[trigger] tree_contains(m, x),
    ensures
        forall|x: Seq<char>|
            #[trigger] selected_codes(select_codes(m, codes)).contains(x) <==> codes.contains(x),
{
    let read = selected_codes(select_codes(m, codes));
    lemma_selection_reads_back(m, codes);
    assert forall|x: Seq<char>| #[trigger] read.contains(x) <==> codes.contains(x) by {
        if read.contains(x) {
            let k = choose|k: int| 0 <= k < read.len() && read[k] == x;
            assert(codes.contains(read[k]));
        }
        if codes.contains(x) {
            lemma_selection_finds(m, codes, x);
        }
    }
}

/// Whether no two nodes of the subtree carry the same code.
pub open spec fn unique_codes(m: CountryModel) -> bool
    decreases m, 0int,
{
    !forest_contains(m.children, m.alpha3, 0) && forest_unique(m.children, 0)
}

/// `unique_codes` for each of the subtrees `ms[i]`, `ms[i + 1]`, ..., no
/// code occurring in two of them.
pub open spec fn forest_unique(ms: Seq<CountryModel>, i: int) -> bool
    decreases ms, ms.len() - i,
{
    i < 0 || i >= ms.len() || {
        &&& unique_codes(ms[i])
        &&& forall|x: Seq<char>| #[trigger] tree_contains(ms[i], x) ==> !forest_contains(ms, x, i + 1)
        &&& forest_unique(ms, i + 1)
    }
}

/// What `forest_unique` says of its subtree `ms[j]`.
proof fn lemma_forest_unique(ms: Seq<CountryModel>, i: int, j: int)
    requires
        0 <= i <= j < ms.len(),
        forest_unique(ms, i),
    ensures
        unique_codes(ms[j]),
        forall|x: Seq<char>| #[trigger] tree_contains(ms[j], x) ==> !forest_contains(ms, x, j + 1),
    decreases j - i,
{
    if i < j {
        lemma_forest_unique(ms, i + 1, j);
    }
}

/// An element of the concatenation of the parts comes from one of them.
proof fn lemma_flatten_from(parts: Seq<Seq<Seq<char>>>, x: Seq<char>)
    requires
        parts.flatten().contains(x),
    ensures
        exists|j: int| 0 <= j < parts.len() && #[trigger] parts[j].contains(x),
    decreases parts.len(),
{
    let rest = parts.drop_first();
    let f = parts.flatten();
    assert(f == parts.first() + rest.flatten());
    let k = choose|k: int| 0 <= k < f.len() && f[k] == x;
    if k < parts.first().len() {
        assert(parts[0][k] == x);
        assert(parts[0].contains(x));
    } else {
        assert(rest.flatten()[k - parts.first().len()] == x);
        lemma_flatten_from(rest, x);
        let j = choose|j: int| 0 <= j < rest.len() && #[trigger] rest[j].contains(x);
        assert(parts[j + 1] == rest[j]);
    }
}

/// The concatenation of parts without repetitions, no two of which share an
/// element, has no repetitions.
proof fn lemma_flatten_no_duplicates(parts: Seq<Seq<Seq<char>>>)
    requires
        forall|j: int| 0 <= j < parts.len() ==> (#[trigger] parts[j]).no_duplicates(),
        forall|j1: int, j2: int, x: Seq<char>|
            0 <= j1 < j2 < parts.len() && #[trigger] parts[j1].contains(x) ==> !#[trigger] parts[j2].contains(
                x,
            ),
    ensures
        parts.flatten().no_duplicates(),
    decreases parts.len(),
{
    if parts.len() > 0 {
        let rest = parts.drop_first();
        assert forall|j: int| 0 <= j < rest.len() implies (#[trigger] rest[j]).no_duplicates() by {
            assert(rest[j] == parts[j + 1]);
        }
        assert forall|j1: int, j2: int, x: Seq<char>|
            0 <= j1 < j2 < rest.len() && #[trigger] rest[j1].contains(x) implies !#[trigger] rest[j2].contains(
                x,
            ) by {
            assert(rest[j1] == parts[j1 + 1]);
            assert(rest[j2] == parts[j2 + 1]);
        }
        lemma_flatten_no_duplicates(rest);
        let a = parts.first();
        let b = rest.flatten();
        let f = parts.flatten();
        assert(f == a + b);
        assert forall|i: int, j: int| 0 <= i < f.len() && 0 <= j < f.len() && i != j implies f[i]
            != f[j] by {
            if i < a.len() && j >= a.len() {
                if f[i] == f[j] {
                    assert(a.contains(f[i]));
                    assert(b[j - a.len()] == f[j]);
                    lemma_flatten_from(rest, f[j]);
                    let j2 = choose|j2: int| 0 <= j2 < rest.len() && #[trigger] rest[j2].contains(f[j]);
                    assert(parts[j2 + 1] == rest[j2]);
                    assert(parts[0].contains(f[i]));
                }
            } else if j < a.len() && i >= a.len() {
                if f[i] == f[j] {
                    assert(a.contains(f[j]));
                    assert(b[i - a.len()] == f[i]);
                    lemma_flatten_from(rest, f[i]);
                    let j2 = choose|j2: int| 0 <= j2 < rest.len() && #[trigger] rest[j2].contains(f[i]);
                    assert(parts[j2 + 1] == rest[j2]);
                    assert(parts[0].contains(f[j]));
                }
            } else if i >= a.len() && j >= a.len() {
                assert(f[i] == b[i - a.len()]);
                assert(f[j] == b[j - a.len()]);
            } else {
                assert(f[i] == a[i]);
                assert(f[j] == a[j]);
            }
        }
    }
}

/// A code read back after a selection is a code of the tree.
proof fn lemma_read_back_in_tree(m: CountryModel, codes: Seq<Seq<char>>, x: Seq<char>)
    requires
        selected_codes(select_codes(m, codes)).contains(x),
    ensures
        tree_contains(m, x),
    decreases m,
{
    let s = select_codes(m, codes);
    if codes.contains(m.alpha3) || s.is_selected {
        assert(s.alpha3 == m.alpha3);
        assert(selected_codes(s) == seq![m.alpha3]);
        assert(seq![m.alpha3][0] == m.alpha3);
    } else {
        let parts = selected_parts(s);
        lemma_flatten_from(parts, x);
        let j = choose|j: int| 0 <= j < parts.len() && #[trigger] parts[j].contains(x);
        assert(s.children[j] == select_codes(m.children[j], codes));
        assert(parts[j] == selected_codes(s.children[j]));
        lemma_read_back_in_tree(m.children[j], codes, x);
        lemma_forest_contains(m.children, x, 0);
    }
}

/// In a tree whose codes are unique, no code is read back twice.
proof fn lemma_read_back_no_duplicates(m: CountryModel, codes: Seq<Seq<char>>)
    requires
        unique_codes(m),
    ensures
        selected_codes(select_codes(m, codes)).no_duplicates(),
    decreases m,
{
    let s = select_codes(m, codes);
    if codes.contains(m.alpha3) || s.is_selected {
        assert(selected_codes(s) == seq![m.alpha3]);
    } else {
        let parts = selected_parts(s);
        let ms = m.children;
        assert(parts.len() == ms.len());
        assert forall|j: int| 0 <= j < parts.len() implies (#[trigger] parts[j]).no_duplicates() by {
            lemma_forest_unique(ms, 0, j);
            lemma_read_back_no_duplicates(ms[j], codes);
            assert(s.children[j] == select_codes(ms[j], codes));
            assert(parts[j] == selected_codes(s.children[j]));
        }
        assert forall|j1: int, j2: int, x: Seq<char>|
            0 <= j1 < j2 < parts.len() && #[trigger] parts[j1].contains(x) implies !#[trigger] parts[j2].contains(
                x,
            ) by {
            assert(s.children[j1] == select_codes(ms[j1], codes));
            assert(parts[j1] == selected_codes(s.children[j1]));
            assert(s.children[j2] == select_codes(ms[j2], codes));
            assert(parts[j2] == selected_codes(s.children[j2]));
            lemma_read_back_in_tree(ms[j1], codes, x);
            lemma_forest_unique(ms, 0, j1);
            if parts[j2].contains(x) {
                lemma_read_back_in_tree(ms[j2], codes, x);
                lemma_forest_contains(ms, x, j1 + 1);
            }
        }
        lemma_flatten_no_duplicates(parts);
    }
}

/// Selecting listed codes (without repetitions) that a tree with unique
/// codes holds, none inside the node of another, where nothing was
/// selected, and reading the selection back gives the listed codes, each
/// once, in pre-order of the tree: a reordering of the list.
pub proof fn lemma_selection_read_back_is_permutation(m: CountryModel, codes: Seq<Seq<char>>)
    requires
        none_selected(m),
        unique_codes(m),
        separate(m, codes),
        codes.no_duplicates(),
        forall|x: Seq<char>| codes.contains(x) ==> #[trigger] tree_contains(m, x),
    ensures
        selected_codes(select_codes(m, codes)).no_duplicates(),
        selected_codes(select_codes(m, codes)).len() == codes.len(),
        forall|x: Seq<char>|
            #[trigger] selected_codes(select_codes(m, codes)).contains(x) <==> codes.contains(x),
{
    let read = selected_codes(select_codes(m, codes));
    lemma_selection_reads_back_exactly(m, codes);
    lemma_read_back_no_duplicates(m, codes);
    assert(read.to_set() =~= codes.to_set());
    read.unique_seq_to_set();
    codes.unique_seq_to_set();
}

} // verus!
