//! The rate table of a delivery company: a line of zone numbers, then one
//! line per weight limit with the price of each zone.
use vstd::prelude::*;
use std::collections::HashMap;
use crate::models::shipping_rates::{RatesCsvData, ShippingRate, csv_records, read_csv_records, records_model};
use crate::text::{parse_u32, parse_u32_spec};

verus! {

broadcast use vstd::std_specs::hash::group_hash_axioms;

/// A line of the rate table after the line of zone numbers, as read: the
/// weight limit in grams (`None` where the weight cell is no number) and,
/// for each zone column, the price as the bits of its double-precision value
/// (`None` where the cell is no number).
#[derive(Debug)]
pub struct RateRecord {
    pub weight_g: Option<u32>,
    pub prices: Vec<Option<u64>>,
}

/// The line of zone numbers as the CSV reader gave it.
#[derive(Debug)]
pub enum ZoneRow {
    /// The table has no line after the header.
    Missing,
    /// The reader could not read the line.
    Broken,
    /// The cells of the line.
    Read(Vec<String>),
}

/// Why a rate table is refused.  Rate lines are counted from 0 after the
/// line of zone numbers (rate line `k` is line `k + 3` of the file); price
/// cells from 0 after the weight cell.
#[derive(Clone, Copy, PartialEq, Eq, Debug, Structural)]
pub enum RatesCsvError {
    /// The table has no line of zone numbers.
    ZoneRowMissing,
    /// The reader could not read the line of zone numbers.
    InvalidZoneRow,
    /// A zone number is no decimal `u32`.
    InvalidZoneNumbers,
    /// The line of zone numbers names no zone.
    NoZones,
    /// The reader could not read the rate line.
    InvalidRecord { record: usize },
    /// The rate line has `prices` price cells where there are `zones` zones.
    WrongColumnCount { record: usize, prices: usize, zones: usize },
    /// The weight of the rate line is no number.
    InvalidWeight { record: usize },
    /// The price cell of the rate line is no number.
    InvalidPrice { record: usize, column: usize },
}

/// The texts of a line's cells.
pub open spec fn fields_model(v: Seq<String>) -> Seq<Seq<char>> {
    v.map_values(|s: String| s@)
}

/// The cells of the line of zone numbers that hold zone numbers: all but
/// the first.
pub open spec fn zone_cells(fields: Seq<Seq<char>>) -> Seq<Seq<char>> {
    if fields.len() == 0 {
        Seq::empty()
    } else {
        fields.skip(1)
    }
}

/// The zone numbers of the line of zone numbers, when every zone cell reads
/// as a decimal `u32`.
pub open spec fn zone_numbers(fields: Seq<Seq<char>>) -> Option<Seq<u32>> {
    let cells = zone_cells(fields);
    if forall|i: int| 0 <= i < cells.len() ==> (#[trigger] parse_u32_spec(cells[i])) is Some {
        Some(Seq::new(cells.len(), |i: int| parse_u32_spec(cells[i])->0))
    } else {
        None
    }
}

/// Whether price cell `c` is the first one that is no number.
pub open spec fn is_first_missing(ps: Seq<Option<u64>>, c: int) -> bool {
    0 <= c < ps.len() && ps[c] is None && forall|d: int| 0 <= d < c ==> ps[d] is Some
}

/// What is wrong with rate line `k`, checked in order: the number of price
/// cells, the weight, then the first price that is no number.
pub open spec fn record_error(r: RateRecord, k: int, zs: Seq<u32>) -> Option<RatesCsvError> {
    if r.prices@.len() != zs.len() {
        Some(
            RatesCsvError::WrongColumnCount {
                record: k as usize,
                prices: r.prices@.len() as usize,
                zones: zs.len() as usize,
            },
        )
    } else if r.weight_g is None {
        Some(RatesCsvError::InvalidWeight { record: k as usize })
    } else if exists|c: int| 0 <= c < r.prices@.len() && #[trigger] r.prices@[c] is None {
        let c = choose|c: int| #[trigger] is_first_missing(r.prices@, c);
        Some(RatesCsvError::InvalidPrice { record: k as usize, column: c as usize })
    } else {
        None
    }
}

/// The rates of zone `z` in `m` (none where `m` has no entry for `z`).
pub open spec fn rates_at(m: Map<u32, Seq<ShippingRate>>, z: u32) -> Seq<ShippingRate> {
    if m.contains_key(z) {
        m[z]
    } else {
        Seq::empty()
    }
}

/// `m` with the rates of the first `n` price cells of a rate line added:
/// weight `w` and price `ps[c]` go to the end of the rates of zone `zs[c]`.
pub open spec fn add_rates(
    m: Map<u32, Seq<ShippingRate>>,
    zs: Seq<u32>,
    w: u32,
    ps: Seq<Option<u64>>,
    n: int,
) -> Map<u32, Seq<ShippingRate>>
    decreases n,
{
    if n <= 0 {
        m
    } else {
        let m1 = add_rates(m, zs, w, ps, n - 1);
        let z = zs[n - 1];
        m1.insert(z, rates_at(m1, z).push(ShippingRate { weight_g: w, price: ps[n - 1]->0 }))
    }
}

/// The rates of the first `k` rate lines, or the error of the first line
/// that is wrong.
pub open spec fn rates_fold(recs: Seq<RateRecord>, zs: Seq<u32>, k: int) -> Result<
    Map<u32, Seq<ShippingRate>>,
    RatesCsvError,
>
    decreases k,
{
    if k <= 0 {
        Ok(Map::empty())
    } else {
        match rates_fold(recs, zs, k - 1) {
            Err(e) => Err(e),
            Ok(m) => match record_error(recs[k - 1], k - 1, zs) {
                Some(e) => Err(e),
                None => Ok(
                    add_rates(m, zs, recs[k - 1].weight_g->0, recs[k - 1].prices@, zs.len() as int),
                ),
            },
        }
    }
}

/// The rates by zone that a rate table gives: its line of zone numbers
/// must name zones, and every rate line must have a weight and a price for
/// each zone; the reader failing on the line after `recs` (`broken`) is an
/// error too.
pub open spec fn rates_of_records(zone_row: ZoneRow, recs: Seq<RateRecord>, broken: bool) -> Result<
    Map<u32, Seq<ShippingRate>>,
    RatesCsvError,
> {
    match zone_row {
        ZoneRow::Missing => Err(RatesCsvError::ZoneRowMissing),
        ZoneRow::Broken => Err(RatesCsvError::InvalidZoneRow),
        ZoneRow::Read(fields) => match zone_numbers(fields_model(fields@)) {
            None => Err(RatesCsvError::InvalidZoneNumbers),
            Some(zs) => if zs.len() == 0 {
                Err(RatesCsvError::NoZones)
            } else {
                finish(rates_fold(recs, zs, recs.len() as int), recs.len() as int, broken)
            },
        },
    }
}

/// The rates of all `n` rate lines read, or the error of the first wrong
/// one, or the reader's failure on the line after them (`broken`).
pub open spec fn finish(
    folded: Result<Map<u32, Seq<ShippingRate>>, RatesCsvError>,
    n: int,
    broken: bool,
) -> Result<Map<u32, Seq<ShippingRate>>, RatesCsvError> {
    match folded {
        Err(e) => Err(e),
        Ok(m) => if broken {
            Err(RatesCsvError::InvalidRecord { record: n as usize })
        } else {
            Ok(m)
        },
    }
}

/// The rates by zone of a rate table held in a map.
pub open spec fn rates_model(h: Map<u32, Vec<ShippingRate>>) -> Map<u32, Seq<ShippingRate>> {
    h.map_values(|v: Vec<ShippingRate>| v@)
}

/// Once a rate line is wrong, the table stays refused with its error.
proof fn lemma_fold_error_stays(recs: Seq<RateRecord>, zs: Seq<u32>, k: int, n: int)
    requires
        0 <= k <= n,
        rates_fold(recs, zs, k) is Err,
    ensures
        rates_fold(recs, zs, n) == rates_fold(recs, zs, k),
    decreases n - k,
{
    if k < n {
        lemma_fold_error_stays(recs, zs, k, n - 1);
    }
}

/// Reads the zone numbers of the line of zone numbers.
fn parse_zone_numbers(fields: &Vec<String>) -> (res: Option<Vec<u32>>)
    ensures
        match zone_numbers(fields_model(fields@)) {
            Some(zs) => res matches Some(v) && v@ == zs,
            None => res is None,
        },
{
    let ghost cells = zone_cells(fields_model(fields@));
    let mut zones: Vec<u32> = Vec::new();
    if fields.len() == 0 {
        assert(cells.len() == 0);
        assert(zones@ =~= Seq::new(cells.len(), |i: int| parse_u32_spec(cells[i])->0));
        return Some(zones);
    }
    let mut i: usize = 1;
    while i < fields.len()
        invariant
            1 <= i <= fields@.len(),
            cells == fields_model(fields@).skip(1),
            cells.len() == fields@.len() - 1,
            forall|j: int| 0 <= j < i - 1 ==> (#[trigger] parse_u32_spec(cells[j])) is Some,
            zones@ =~= Seq::new((i - 1) as nat, |j: int| parse_u32_spec(cells[j])->0),
        decreases fields.len() - i,
    {
        assert(cells[i - 1] == fields@[i as int]@);
        match parse_u32(fields[i].as_str()) {
            Some(z) => {
                zones.push(z);
            },
            None => {
                assert(parse_u32_spec(cells[i - 1]) is None);
                return None;
            },
        }
        i = i + 1;
    }
    Some(zones)
}

/// Whether every price cell of a rate line is a number; `Err` names the
/// first one that is not.
fn first_missing_price(prices: &Vec<Option<u64>>) -> (res: Option<usize>)
    ensures
        match res {
            Some(c) => is_first_missing(prices@, c as int),
            None => forall|c: int| 0 <= c < prices@.len() ==> (#[trigger] prices@[c]) is Some,
        },
{
    let mut c: usize = 0;
    while c < prices.len()
        invariant
            0 <= c <= prices@.len(),
            forall|d: int| 0 <= d < c ==> (#[trigger] prices@[d]) is Some,
        decreases prices.len() - c,
    {
        if prices[c].is_none() {
            return Some(c);
        }
        c = c + 1;
    }
    None
}

/// Adds the rates of a rate line: weight `w` and the price of each cell go
/// to the end of the rates of the cell's zone.
fn add_record_rates(
    map: &mut HashMap<u32, Vec<ShippingRate>>,
    zones: &Vec<u32>,
    w: u32,
    prices: &Vec<Option<u64>>,
)
    requires
        prices@.len() == zones@.len(),
        forall|c: int| 0 <= c < prices@.len() ==> (#[trigger] prices@[c]) is Some,
    ensures
        rates_model(final(map)@) == add_rates(rates_model(old(map)@), zones@, w, prices@, zones@.len() as int),
{
    let ghost m0 = rates_model(map@);
    let mut c: usize = 0;
    while c < zones.len()
        invariant
            0 <= c <= zones@.len(),
            prices@.len() == zones@.len(),
            forall|d: int| 0 <= d < prices@.len() ==> (#[trigger] prices@[d]) is Some,
            rates_model(map@) == add_rates(m0, zones@, w, prices@, c as int),
        decreases zones.len() - c,
    {
        let z = zones[c];
        let price = match prices[c] {
            Some(p) => p,
            None => 0,
        };
        assert(Some(price) == prices@[c as int]);
        let ghost before = rates_model(map@);
        let mut v = match map.remove(&z) {
            Some(v) => v,
            None => Vec::new(),
        };
        assert(v@ == rates_at(before, z));
        v.push(ShippingRate { weight_g: w, price });
        let ghost pushed = v@;
        map.insert(z, v);
        assert(rates_model(map@) =~= before.insert(z, pushed));
        c = c + 1;
    }
}

/// The records of a rate table in CSV (the first line is the header): the
/// line of zone numbers as the reader gave it, the cells of the rate lines
/// read after it, and whether the reader failed on the line after those.
pub fn rate_table_records(csv: &[u8]) -> (res: (ZoneRow, Vec<Vec<String>>, bool))
    ensures
        csv_records(csv@).0.len() == 0 ==> res.1@.len() == 0 && !res.2 && (if csv_records(csv@).1 {
            res.0 is Broken
        } else {
            res.0 is Missing
        }),
        csv_records(csv@).0.len() > 0 ==> (res.0 matches ZoneRow::Read(f) && fields_model(f@)
            == csv_records(csv@).0[0]) && records_model(res.1@) == csv_records(csv@).0.skip(1)
            && res.2 == csv_records(csv@).1,
{
    let (mut rows, broken) = read_csv_records(csv);
    if rows.len() == 0 {
        if broken {
            (ZoneRow::Broken, rows, false)
        } else {
            (ZoneRow::Missing, rows, false)
        }
    } else {
        let ghost all = rows@;
        let first = rows.remove(0);
        assert(rows@ =~= all.skip(1));
        assert(records_model(rows@) =~= records_model(all).skip(1));
        (ZoneRow::Read(first), rows, broken)
    }
}

impl RatesCsvData {
    /// The rates by zone of a rate table, from its line of zone numbers and
    /// its rate lines as read (`broken` tells that the reader failed on the
    /// line after them).
    pub fn from_records(zone_row: ZoneRow, records: Vec<RateRecord>, broken: bool) -> (res: Result<
        RatesCsvData,
        RatesCsvError,
    >)
        ensures
            match rates_of_records(zone_row, records@, broken) {
                Ok(m) => res matches Ok(d) && rates_model(d.0@) == m,
                Err(e) => res == Err::<RatesCsvData, RatesCsvError>(e),
            },
    {
        let ghost recs = records@;
        let ghost zr = zone_row;
        let fields = match zone_row {
            ZoneRow::Missing => {
                return Err(RatesCsvError::ZoneRowMissing);
            },
            ZoneRow::Broken => {
                return Err(RatesCsvError::InvalidZoneRow);
            },
            ZoneRow::Read(f) => f,
        };
        let zones = match parse_zone_numbers(&fields) {
            Some(z) => z,
            None => {
                return Err(RatesCsvError::InvalidZoneNumbers);
            },
        };
        if zones.len() == 0 {
            return Err(RatesCsvError::NoZones);
        }
        let ghost zs = zones@;
        let mut map: HashMap<u32, Vec<ShippingRate>> = HashMap::new();
        assert(rates_model(map@) =~= Map::<u32, Seq<ShippingRate>>::empty());
        let mut k: usize = 0;
        while k < records.len()
            invariant
                0 <= k <= records@.len(),
                recs == records@,
                zr == zone_row,
                zs == zones@,
                zs.len() > 0,
                rates_of_records(zr, recs, broken) == finish(
                    rates_fold(recs, zs, recs.len() as int),
                    recs.len() as int,
                    broken,
                ),
                rates_fold(recs, zs, k as int) == Ok::<Map<u32, Seq<ShippingRate>>, RatesCsvError>(
                    rates_model(map@),
                ),
            decreases records.len() - k,
        {
            let r = &records[k];
            if r.prices.len() != zones.len() {
                proof {
                    lemma_fold_error_stays(recs, zs, k + 1, recs.len() as int);
                }
                return Err(
                    RatesCsvError::WrongColumnCount {
                        record: k,
                        prices: r.prices.len(),
                        zones: zones.len(),
                    },
                );
            }
            let w = match r.weight_g {
                Some(w) => w,
                None => {
                    proof {
                        lemma_fold_error_stays(recs, zs, k + 1, recs.len() as int);
                    }
                    return Err(RatesCsvError::InvalidWeight { record: k });
                },
            };
            match first_missing_price(&r.prices) {
                Some(c) => {
                    proof {
                        assert(recs[k as int].prices@[c as int] is None);
                        let cc = choose|cc: int| #[trigger] is_first_missing(recs[k as int].prices@, cc);
                        assert(cc == c) by {
                            if cc < c {
                                assert(recs[k as int].prices@[cc] is Some);
                            } else if cc > c {
                                assert(recs[k as int].prices@[c as int] is Some);
                            }
                        }
                        lemma_fold_error_stays(recs, zs, k + 1, recs.len() as int);
                    }
                    return Err(RatesCsvError::InvalidPrice { record: k, column: c });
                },
                None => {},
            }
            add_record_rates(&mut map, &zones, w, &r.prices);
            k = k + 1;
        }
        if broken {
            return Err(RatesCsvError::InvalidRecord { record: records.len() });
        }
        Ok(RatesCsvData(map))
    }
}

/// Whether no zone number occurs twice.
pub open spec fn distinct_zones(zs: Seq<u32>) -> bool {
    forall|i: int, j: int| 0 <= i < j < zs.len() ==> zs[i] != zs[j]
}

/// The rates of price column `c` in the first `k` rate lines: the weight
/// of each line with its price in that column, in line order.
pub open spec fn column_rates(recs: Seq<RateRecord>, c: int, k: int) -> Seq<ShippingRate> {
    Seq::new(
        k as nat,
        |i: int| ShippingRate { weight_g: recs[i].weight_g->0, price: recs[i].prices@[c]->0 },
    )
}

/// Adding the rates of a line appends to each zone the rate of its column.
proof fn lemma_add_rates(
    m: Map<u32, Seq<ShippingRate>>,
    zs: Seq<u32>,
    w: u32,
    ps: Seq<Option<u64>>,
    n: int,
)
    requires
        distinct_zones(zs),
        0 <= n <= zs.len(),
    ensures
        forall|c: int|
            0 <= c < zs.len() ==> #[trigger] rates_at(add_rates(m, zs, w, ps, n), zs[c]) == if c < n {
                rates_at(m, zs[c]).push(ShippingRate { weight_g: w, price: ps[c]->0 })
            } else {
                rates_at(m, zs[c])
            },
    decreases n,
{
    if n > 0 {
        lemma_add_rates(m, zs, w, ps, n - 1);
        let m1 = add_rates(m, zs, w, ps, n - 1);
        assert forall|c: int| 0 <= c < zs.len() implies #[trigger] rates_at(
            add_rates(m, zs, w, ps, n),
            zs[c],
        ) == if c < n {
            rates_at(m, zs[c]).push(ShippingRate { weight_g: w, price: ps[c]->0 })
        } else {
            rates_at(m, zs[c])
        } by {
            assert(rates_at(m1, zs[c]) == if c < n - 1 {
                rates_at(m, zs[c]).push(ShippingRate { weight_g: w, price: ps[c]->0 })
            } else {
                rates_at(m, zs[c])
            });
            if c != n - 1 {
                assert(zs[c] != zs[n - 1]);
            }
        }
    }
}

/// With distinct zone numbers, the rates that a table gives to each zone
/// are the weights of its rate lines with the prices of the zone's column,
/// in line order.
pub proof fn lemma_zone_gets_its_column(recs: Seq<RateRecord>, zs: Seq<u32>, k: int)
    requires
        distinct_zones(zs),
        0 <= k <= recs.len(),
        rates_fold(recs, zs, k) is Ok,
    ensures
        forall|c: int|
            0 <= c < zs.len() ==> #[trigger] rates_at(rates_fold(recs, zs, k)->Ok_0, zs[c])
                == column_rates(recs, c, k),
    decreases k,
{
    if k == 0 {
        assert forall|c: int| 0 <= c < zs.len() implies #[trigger] rates_at(
            rates_fold(recs, zs, k)->Ok_0,
            zs[c],
        ) == column_rates(recs, c, k) by {
            assert(column_rates(recs, c, 0) =~= Seq::<ShippingRate>::empty());
        }
    } else {
        lemma_zone_gets_its_column(recs, zs, k - 1);
        let m = rates_fold(recs, zs, k - 1)->Ok_0;
        let r = recs[k - 1];
        lemma_add_rates(m, zs, r.weight_g->0, r.prices@, zs.len() as int);
        assert forall|c: int| 0 <= c < zs.len() implies #[trigger] rates_at(
            rates_fold(recs, zs, k)->Ok_0,
            zs[c],
        ) == column_rates(recs, c, k) by {
            assert(rates_at(m, zs[c]) == column_rates(recs, c, k - 1));
            assert(column_rates(recs, c, k) =~= column_rates(recs, c, k - 1).push(
                ShippingRate { weight_g: r.weight_g->0, price: r.prices@[c]->0 },
            ));
        }
    }
}

/// A rate table that is accepted, with distinct zone numbers, gives each
/// zone the weights of its rate lines with the prices of the zone's
/// column, in line order.
pub proof fn lemma_accepted_table_columns(fields: Vec<String>, recs: Seq<RateRecord>, broken: bool)
    requires
        zone_numbers(fields_model(fields@)) matches Some(zs) && distinct_zones(zs),
        rates_of_records(ZoneRow::Read(fields), recs, broken) is Ok,
    ensures
        forall|c: int|
            0 <= c < zone_numbers(fields_model(fields@))->0.len() ==> #[trigger] rates_at(
                rates_of_records(ZoneRow::Read(fields), recs, broken)->Ok_0,
                zone_numbers(fields_model(fields@))->0[c],
            ) == column_rates(recs, c, recs.len() as int),
{
    let zs = zone_numbers(fields_model(fields@))->0;
    lemma_zone_gets_its_column(recs, zs, recs.len() as int);
}

} // verus!
