//! Shipping rates of a package kind between two countries, the zone and
//! rate tables they are loaded from, and the price of a shipment.
use vstd::prelude::*;
use std::collections::HashMap;
use crate::models::companies_packages::{ShipmentMeasurements, billable_weight};
use crate::text::{ascii_upper_seq, chars_of, has_utf8_len, utf8_len, is_alphabetic, parse_u32, parse_u32_spec, to_ascii_uppercase, alphabetic};
use crate::types::{Alpha3, CompanyPackageId, ShippingRatesId, alpha3_eq};

verus! {

/// The price of shipping up to `weight_g` grams; the price is held as the
/// bits of its IEEE 754 double-precision value.
#[derive(Clone, Copy, PartialEq, Eq, Debug, Structural)]
pub struct ShippingRate {
    pub weight_g: u32,
    pub price: u64,
}

/// Whether `rates[i]` is a rate that applies to `billable_weight_g`: it
/// covers the weight and no rate covering the weight has a smaller weight
/// limit.
pub open spec fn is_applicable_rate(rates: Seq<ShippingRate>, billable_weight_g: int, i: int) -> bool {
    &&& 0 <= i < rates.len()
    &&& rates[i].weight_g >= billable_weight_g
    &&& forall|j: int|
        0 <= j < rates.len() && rates[j].weight_g >= billable_weight_g ==> rates[i].weight_g
            <= #[trigger] rates[j].weight_g
}

/// Whether `rates[i]` is the first rate that applies to `billable_weight_g`.
pub open spec fn is_first_applicable_rate(rates: Seq<ShippingRate>, billable_weight_g: int, i: int) -> bool {
    is_applicable_rate(rates, billable_weight_g, i) && forall|j: int|
        0 <= j < i ==> !#[trigger] is_applicable_rate(rates, billable_weight_g, j)
}

/// The price of shipping `billable_weight_g` grams: the price of the rate
/// with the smallest weight limit that still covers the weight, the first
/// such rate where several share that limit; nothing when no rate covers
/// the weight.
pub open spec fn delivery_price(rates: Seq<ShippingRate>, billable_weight_g: int) -> Option<u64> {
    if exists|i: int| #[trigger] is_applicable_rate(rates, billable_weight_g, i) {
        let i = choose|i: int| #[trigger] is_first_applicable_rate(rates, billable_weight_g, i);
        Some(rates[i].price)
    } else {
        None
    }
}

/// A rate applies exactly when one covers the weight, and the first rate
/// that applies is the only one that is first.
proof fn lemma_first_applicable(rates: Seq<ShippingRate>, w: int, b: int)
    requires
        is_first_applicable_rate(rates, w, b),
    ensures
        delivery_price(rates, w) == Some(rates[b].price),
{
    let i = choose|i: int| #[trigger] is_first_applicable_rate(rates, w, i);
    assert(is_first_applicable_rate(rates, w, i));
    if i < b {
        assert(!is_applicable_rate(rates, w, i));
    } else if i > b {
        assert(!is_applicable_rate(rates, w, b));
    }
}

/// Among the rates covering the weight, one with the smallest limit
/// applies, where some rate covers the weight at all.
proof fn lemma_applicable_exists(rates: Seq<ShippingRate>, w: int, j: int)
    requires
        0 <= j < rates.len(),
        rates[j].weight_g >= w,
    ensures
        exists|i: int| #[trigger] is_applicable_rate(rates, w, i),
    decreases rates[j].weight_g,
{
    if !is_applicable_rate(rates, w, j) {
        let k = choose|k: int|
            0 <= k < rates.len() && rates[k].weight_g >= w && !(rates[j].weight_g
                <= #[trigger] rates[k].weight_g);
        lemma_applicable_exists(rates, w, k);
    }
}

/// Where a rate applies, a first one applies.
proof fn lemma_first_applicable_exists(rates: Seq<ShippingRate>, w: int, i: int)
    requires
        is_applicable_rate(rates, w, i),
    ensures
        exists|b: int| #[trigger] is_first_applicable_rate(rates, w, b),
    decreases i,
{
    if !is_first_applicable_rate(rates, w, i) {
        let j = choose|j: int| 0 <= j < i && #[trigger] is_applicable_rate(rates, w, j);
        lemma_first_applicable_exists(rates, w, j);
    }
}

/// The price of a weight is that of a rate covering the weight whose limit
/// is the smallest among the rates covering it; there is no price exactly
/// when every rate's limit lies below the weight.
pub proof fn lemma_price_of_smallest_covering_limit(rates: Seq<ShippingRate>, w: int)
    ensures
        delivery_price(rates, w) is None <==> forall|j: int| 0 <= j < rates.len() ==> #[trigger] rates[j].weight_g < w,
        delivery_price(rates, w) matches Some(p) ==> exists|i: int|
            0 <= i < rates.len() && #[trigger] rates[i].price == p && rates[i].weight_g >= w && forall|j: int|
                0 <= j < rates.len() && rates[j].weight_g >= w ==> rates[i].weight_g <= #[trigger] rates[j].weight_g,
{
    if exists|j: int| 0 <= j < rates.len() && #[trigger] rates[j].weight_g >= w {
        let j = choose|j: int| 0 <= j < rates.len() && #[trigger] rates[j].weight_g >= w;
        lemma_applicable_exists(rates, w, j);
        let i = choose|i: int| #[trigger] is_applicable_rate(rates, w, i);
        lemma_first_applicable_exists(rates, w, i);
        let b = choose|b: int| #[trigger] is_first_applicable_rate(rates, w, b);
        lemma_first_applicable(rates, w, b);
        assert(rates[b].price == rates[b].price);
    } else {
        assert(forall|j: int| 0 <= j < rates.len() ==> #[trigger] rates[j].weight_g < w);
        assert(!exists|i: int| #[trigger] is_applicable_rate(rates, w, i));
    }
}

/// The price of shipping `billable_weight_g` grams: the price of the rate
/// with the smallest weight limit that still covers the weight (the first
/// of them when several rates share that limit); nothing when no rate
/// covers it.
pub fn calculate_delivery_price(billable_weight_g: u32, rates: Vec<ShippingRate>) -> (res: Option<u64>)
    ensures
        res == delivery_price(rates@, billable_weight_g as int),
        res is None <==> forall|j: int| 0 <= j < rates@.len() ==> #[trigger] rates@[j].weight_g < billable_weight_g,
{
    let mut best: Option<usize> = None;
    let mut i: usize = 0;
    while i < rates.len()
        invariant
            i <= rates@.len(),
            match best {
                Some(b) => b < i && rates@[b as int].weight_g >= billable_weight_g && (forall|j: int|
                    0 <= j < i && rates@[j].weight_g >= billable_weight_g ==> rates@[b as int].weight_g
                        <= #[trigger] rates@[j].weight_g) && (forall|j: int|
                    0 <= j < b && rates@[j].weight_g >= billable_weight_g ==> rates@[b as int].weight_g
                        < #[trigger] rates@[j].weight_g),
                None => forall|j: int| 0 <= j < i ==> #[trigger] rates@[j].weight_g < billable_weight_g,
            },
        decreases rates.len() - i,
    {
        let rate = rates[i];
        if rate.weight_g >= billable_weight_g {
            match best {
                Some(b) => {
                    if rate.weight_g < rates[b].weight_g {
                        best = Some(i);
                    }
                },
                None => {
                    best = Some(i);
                },
            }
        }
        i = i + 1;
    }
    match best {
        Some(b) => {
            assert(is_applicable_rate(rates@, billable_weight_g as int, b as int));
            assert forall|j: int| 0 <= j < b implies !#[trigger] is_applicable_rate(
                rates@,
                billable_weight_g as int,
                j,
            ) by {
                if rates@[j].weight_g >= billable_weight_g {
                    assert(rates@[b as int].weight_g < rates@[j].weight_g);
                }
            }
            proof {
                lemma_first_applicable(rates@, billable_weight_g as int, b as int);
            }
            Some(rates[b].price)
        },
        None => {
            assert(!exists|i: int| #[trigger] is_applicable_rate(rates@, billable_weight_g as int, i));
            None
        },
    }
}

/// A package kind's rates between two countries.
#[derive(Debug)]
pub struct ShippingRates {
    pub id: ShippingRatesId,
    pub company_package_id: CompanyPackageId,
    pub from_alpha3: Alpha3,
    pub to_alpha3: Alpha3,
    pub rates: Vec<ShippingRate>,
}

impl ShippingRates {
    /// The price of shipping a parcel with these measurements: the price of
    /// its billable weight.
    pub fn calculate_delivery_price(&self, measurements: ShipmentMeasurements, dimensional_factor: Option<u32>) -> (res: Option<u64>)
        ensures
            res == delivery_price(self.rates@, billable_weight(measurements, dimensional_factor)),
            res is None <==> forall|j: int| 0 <= j < self.rates@.len() ==> #[trigger] self.rates@[j].weight_g < billable_weight(measurements, dimensional_factor),
    {
        let billable_weight_g = measurements.calculate_billable_weight(dimensional_factor);
        let rates = self.rates.clone();
        assert(rates@ =~= self.rates@);
        calculate_delivery_price(billable_weight_g, rates)
    }
}

/// One line of the zone table: parcels from `from` to `to` are billed by
/// the rates of zone `zone`.
#[derive(Debug, PartialEq)]
pub struct ZonesCsvEntry {
    pub from: Alpha3,
    pub to: Alpha3,
    pub zone: u32,
}

impl Clone for ZonesCsvEntry {
    fn clone(&self) -> (res: Self)
        ensures
            res == *self,
    {
        ZonesCsvEntry { from: self.from.clone(), to: self.to.clone(), zone: self.zone }
    }
}

/// Mathematical picture of a zone table line.
pub struct ZoneEntryModel {
    pub from: Seq<char>,
    pub to: Seq<char>,
    pub zone: u32,
}

impl View for ZonesCsvEntry {
    type V = ZoneEntryModel;

    open spec fn view(&self) -> ZoneEntryModel {
        ZoneEntryModel { from: self.from@, to: self.to@, zone: self.zone }
    }
}

/// The lines of a zone table, without repetitions.
#[derive(Debug, PartialEq)]
pub struct ZonesCsvData(pub Vec<ZonesCsvEntry>);

/// Models of a list of zone table lines.
pub open spec fn entries_model(v: Seq<ZonesCsvEntry>) -> Seq<ZoneEntryModel> {
    v.map_values(|e: ZonesCsvEntry| e@)
}

impl View for ZonesCsvData {
    type V = Seq<ZoneEntryModel>;

    open spec fn view(&self) -> Seq<ZoneEntryModel> {
        entries_model(self.0@)
    }
}

/// Why a zone table is refused.  Records are counted from 0 after the
/// header line (record `k` is line `k + 2` of the file); columns from 1.
#[derive(Debug)]
pub enum ZonesCsvError {
    /// The CSV reader could not read the record.
    InvalidRecord { record: usize },
    /// The record does not have three fields.
    InvalidRow { record: usize },
    /// The field is no ISO alpha-3 country code.
    InvalidCountryCode { record: usize, column: usize },
    /// The zone field is no decimal `u32`.
    InvalidZone { record: usize },
    /// A line gives another zone for a pair of countries that an earlier
    /// line already has.
    ConflictingEntries { existing: ZonesCsvEntry, conflicting: ZonesCsvEntry },
    /// The table has no line.
    Empty,
}

/// Mathematical picture of a zone table error.
pub enum ZonesCsvErrorModel {
    InvalidRecord { record: int },
    InvalidRow { record: int },
    InvalidCountryCode { record: int, column: int },
    InvalidZone { record: int },
    ConflictingEntries { existing: ZoneEntryModel, conflicting: ZoneEntryModel },
    Empty,
}

impl View for ZonesCsvError {
    type V = ZonesCsvErrorModel;

    open spec fn view(&self) -> ZonesCsvErrorModel {
        match self {
            ZonesCsvError::InvalidRecord { record } => ZonesCsvErrorModel::InvalidRecord { record: *record as int },
            ZonesCsvError::InvalidRow { record } => ZonesCsvErrorModel::InvalidRow { record: *record as int },
            ZonesCsvError::InvalidCountryCode { record, column } => ZonesCsvErrorModel::InvalidCountryCode {
                record: *record as int,
                column: *column as int,
            },
            ZonesCsvError::InvalidZone { record } => ZonesCsvErrorModel::InvalidZone { record: *record as int },
            ZonesCsvError::ConflictingEntries { existing, conflicting } => ZonesCsvErrorModel::ConflictingEntries {
                existing: existing@,
                conflicting: conflicting@,
            },
            ZonesCsvError::Empty => ZonesCsvErrorModel::Empty,
        }
    }
}

/// Whether a code (already in upper case) is accepted as an ISO alpha-3
/// code: three bytes long in UTF-8, all of its characters alphabetic.
pub open spec fn valid_code(code: Seq<char>) -> bool {
    utf8_len(code) == 3 && forall|i: int| 0 <= i < code.len() ==> alphabetic(#[trigger] code[i])
}

/// Whether `entries[k]` gives another zone for the pair `from`, `to`.
pub open spec fn conflict_at(entries: Seq<ZoneEntryModel>, k: int, from: Seq<char>, to: Seq<char>, zone: u32) -> bool {
    0 <= k < entries.len() && entries[k].from == from && entries[k].to == to && entries[k].zone != zone
}

/// Reads record `k` of a zone table, given the lines read so far.
pub open spec fn zones_row(entries: Seq<ZoneEntryModel>, row: Seq<Seq<char>>, k: int) -> Result<Seq<ZoneEntryModel>, ZonesCsvErrorModel> {
    if row.len() != 3 {
        Err(ZonesCsvErrorModel::InvalidRow { record: k })
    } else {
        let from = ascii_upper_seq(row[0]);
        let to = ascii_upper_seq(row[1]);
        if !valid_code(from) {
            Err(ZonesCsvErrorModel::InvalidCountryCode { record: k, column: 1 })
        } else if !valid_code(to) {
            Err(ZonesCsvErrorModel::InvalidCountryCode { record: k, column: 2 })
        } else {
            match parse_u32_spec(row[2]) {
                None => Err(ZonesCsvErrorModel::InvalidZone { record: k }),
                Some(zone) => {
                    let new_entry = ZoneEntryModel { from, to, zone };
                    if exists|j: int| #[trigger] conflict_at(entries, j, from, to, zone) {
                        let first = choose|j: int| #[trigger] conflict_at(entries, j, from, to, zone) && forall|j2: int| 0 <= j2 < j ==> !conflict_at(entries, j2, from, to, zone);
                        Err(ZonesCsvErrorModel::ConflictingEntries { existing: entries[first], conflicting: new_entry })
                    } else if entries.contains(new_entry) {
                        Ok(entries)
                    } else {
                        Ok(entries.push(new_entry))
                    }
                },
            }
        }
    }
}

/// Reads the records from `k` on, given the lines read so far.
pub open spec fn zones_fold(rows: Seq<Seq<Seq<char>>>, k: int, entries: Seq<ZoneEntryModel>) -> Result<Seq<ZoneEntryModel>, ZonesCsvErrorModel>
    decreases rows.len() - k,
{
    if k < 0 || k >= rows.len() {
        Ok(entries)
    } else {
        match zones_row(entries, rows[k], k) {
            Err(e) => Err(e),
            Ok(next) => zones_fold(rows, k + 1, next),
        }
    }
}

/// The zone table of the records that the CSV reader gave; `broken` tells
/// that the reader failed on the record after them.
pub open spec fn zones_of_records(rows: Seq<Seq<Seq<char>>>, broken: bool) -> Result<Seq<ZoneEntryModel>, ZonesCsvErrorModel> {
    match zones_fold(rows, 0, Seq::empty()) {
        Err(e) => Err(e),
        Ok(entries) => if broken {
            Err(ZonesCsvErrorModel::InvalidRecord { record: rows.len() as int })
        } else if entries.len() == 0 {
            Err(ZonesCsvErrorModel::Empty)
        } else {
            Ok(entries)
        },
    }
}

/// No two lines of the table give a zone to the same pair of countries, and
/// every code in it is valid.
pub open spec fn well_formed_zones(es: Seq<ZoneEntryModel>) -> bool {
    &&& forall|i: int, j: int|
        0 <= i < es.len() && 0 <= j < es.len() && i != j ==> !(#[trigger] es[i].from == #[trigger] es[j].from
            && es[i].to == es[j].to)
    &&& forall|i: int| 0 <= i < es.len() ==> valid_code(#[trigger] es[i].from) && valid_code(es[i].to)
}

proof fn lemma_zones_row_keeps(entries: Seq<ZoneEntryModel>, row: Seq<Seq<char>>, k: int)
    requires
        well_formed_zones(entries),
    ensures
        zones_row(entries, row, k) matches Ok(next) ==> well_formed_zones(next),
{
    if row.len() == 3 {
        let from = ascii_upper_seq(row[0]);
        let to = ascii_upper_seq(row[1]);
        if valid_code(from) && valid_code(to) {
            if let Some(zone) = parse_u32_spec(row[2]) {
                let new_entry = ZoneEntryModel { from, to, zone };
                if !(exists|j: int| #[trigger] conflict_at(entries, j, from, to, zone)) && !entries.contains(new_entry) {
                    let next = entries.push(new_entry);
                    assert forall|i: int, j: int|
                        0 <= i < next.len() && 0 <= j < next.len() && i != j implies !(#[trigger] next[i].from
                            == #[trigger] next[j].from && next[i].to == next[j].to) by {
                        if i == entries.len() as int && next[j].from == from && next[j].to == to {
                            assert(!conflict_at(entries, j, from, to, zone));
                            assert(entries[j] == new_entry);
                        }
                        if j == entries.len() as int && next[i].from == from && next[i].to == to {
                            assert(!conflict_at(entries, i, from, to, zone));
                            assert(entries[i] == new_entry);
                        }
                    }
                }
            }
        }
    }
}

proof fn lemma_zones_fold_keeps(rows: Seq<Seq<Seq<char>>>, k: int, entries: Seq<ZoneEntryModel>)
    requires
        well_formed_zones(entries),
    ensures
        zones_fold(rows, k, entries) matches Ok(es) ==> well_formed_zones(es),
    decreases rows.len() - k,
{
    if 0 <= k < rows.len() {
        lemma_zones_row_keeps(entries, rows[k], k);
        if let Ok(next) = zones_row(entries, rows[k], k) {
            lemma_zones_fold_keeps(rows, k + 1, next);
        }
    }
}

/// A zone table that is read gives each pair of countries at most one
/// zone, holds only valid codes, and is not empty.
pub proof fn lemma_zone_table_well_formed(rows: Seq<Seq<Seq<char>>>, broken: bool)
    ensures
        zones_of_records(rows, broken) matches Ok(es) ==> well_formed_zones(es) && es.len() > 0,
{
    lemma_zones_fold_keeps(rows, 0, Seq::empty());
}

/// The line that a record of three fields stands for: its codes in upper
/// case and its zone number.
pub open spec fn row_entry(row: Seq<Seq<char>>) -> ZoneEntryModel {
    ZoneEntryModel {
        from: ascii_upper_seq(row[0]),
        to: ascii_upper_seq(row[1]),
        zone: parse_u32_spec(row[2])->0,
    }
}

/// Reading a record keeps the lines read so far and adds (or finds) the
/// record's own line, and nothing else.
proof fn lemma_zones_row_grows(entries: Seq<ZoneEntryModel>, row: Seq<Seq<char>>, k: int)
    ensures
        zones_row(entries, row, k) matches Ok(next) ==> {
            &&& next.contains(row_entry(row))
            &&& forall|i: int| 0 <= i < entries.len() ==> next.contains(#[trigger] entries[i])
            &&& forall|i: int|
                0 <= i < next.len() ==> entries.contains(#[trigger] next[i]) || next[i] == row_entry(row)
        },
{
    if let Ok(next) = zones_row(entries, row, k) {
        let e = row_entry(row);
        if next.len() == entries.len() {
            assert(next == entries);
            assert forall|i: int| 0 <= i < entries.len() implies next.contains(#[trigger] entries[i]) by {
                assert(next[i] == entries[i]);
            }
            assert forall|i: int| 0 <= i < next.len() implies entries.contains(#[trigger] next[i])
                || next[i] == e by {
                assert(entries[i] == next[i]);
            }
        } else {
            assert(next == entries.push(e));
            assert(next[entries.len() as int] == e);
            assert forall|i: int| 0 <= i < entries.len() implies next.contains(#[trigger] entries[i]) by {
                assert(next[i] == entries[i]);
            }
            assert forall|i: int| 0 <= i < next.len() implies entries.contains(#[trigger] next[i])
                || next[i] == e by {
                if i < entries.len() {
                    assert(entries[i] == next[i]);
                }
            }
        }
    }
}

/// Reading the records from `k` on keeps the lines read so far, finds or
/// adds the line of each record, and adds nothing else.
proof fn lemma_zones_fold_grows(rows: Seq<Seq<Seq<char>>>, k: int, entries: Seq<ZoneEntryModel>)
    requires
        0 <= k,
    ensures
        zones_fold(rows, k, entries) matches Ok(es) ==> {
            &&& forall|i: int| 0 <= i < entries.len() ==> es.contains(#[trigger] entries[i])
            &&& forall|j: int| k <= j < rows.len() ==> es.contains(row_entry(#[trigger] rows[j]))
            &&& forall|i: int|
                0 <= i < es.len() ==> entries.contains(#[trigger] es[i]) || exists|j: int|
                    k <= j < rows.len() && es[i] == row_entry(#[trigger] rows[j])
        },
    decreases rows.len() - k,
{
    if k < rows.len() {
        lemma_zones_row_grows(entries, rows[k], k);
        if let Ok(next) = zones_row(entries, rows[k], k) {
            lemma_zones_fold_grows(rows, k + 1, next);
            if let Ok(es) = zones_fold(rows, k + 1, next) {
                let mine = row_entry(rows[k]);
                let m = choose|m: int| 0 <= m < next.len() && next[m] == mine;
                assert(es.contains(next[m]));
                assert forall|i: int| 0 <= i < entries.len() implies es.contains(#[trigger] entries[i]) by {
                    assert(next.contains(entries[i]));
                    let n = choose|n: int| 0 <= n < next.len() && next[n] == entries[i];
                    assert(es.contains(next[n]));
                }
                assert forall|i: int|
                    0 <= i < es.len() implies entries.contains(#[trigger] es[i]) || exists|j: int|
                        k <= j < rows.len() && es[i] == row_entry(#[trigger] rows[j]) by {
                    if next.contains(es[i]) {
                        let n = choose|n: int| 0 <= n < next.len() && next[n] == es[i];
                        if !entries.contains(next[n]) {
                            assert(next[n] == row_entry(rows[k]));
                        }
                    }
                }
            }
        }
    } else {
        assert forall|i: int| 0 <= i < entries.len() implies entries.contains(#[trigger] entries[i]) by {}
    }
}

/// Every record of a zone table that is read has its line in the table, and
/// every line of the table comes from a record.
pub proof fn lemma_zone_table_lines(rows: Seq<Seq<Seq<char>>>, broken: bool)
    ensures
        zones_of_records(rows, broken) matches Ok(es) ==> {
            &&& forall|j: int| 0 <= j < rows.len() ==> es.contains(row_entry(#[trigger] rows[j]))
            &&& forall|i: int|
                0 <= i < es.len() ==> exists|j: int|
                    0 <= j < rows.len() && #[trigger] es[i] == row_entry(rows[j])
        },
{
    lemma_zones_fold_grows(rows, 0, Seq::empty());
}

/// Models of the fields of CSV records.
pub open spec fn records_model(rows: Seq<Vec<String>>) -> Seq<Seq<Seq<char>>> {
    rows.map_values(|r: Vec<String>| r@.map_values(|f: String| f@))
}

/// Model of a zone table result.
pub open spec fn zones_result_model(res: Result<ZonesCsvData, ZonesCsvError>) -> Result<Seq<ZoneEntryModel>, ZonesCsvErrorModel> {
    match res {
        Ok(d) => Ok(d@),
        Err(e) => Err(e@),
    }
}

/// Whether `code` is accepted as an ISO alpha-3 code.
fn is_valid_code(code: &String) -> (res: bool)
    ensures
        res == valid_code(code@),
{
    let text = code.as_str();
    let cs = chars_of(text);
    if !has_utf8_len(&cs, 3) {
        return false;
    }
    let mut i: usize = 0;
    while i < cs.len()
        invariant
            i <= cs@.len(),
            cs@ == code@,
            utf8_len(code@) == 3,
            forall|j: int| 0 <= j < i ==> alphabetic(#[trigger] cs@[j]),
        decreases cs.len() - i,
    {
        if !is_alphabetic(cs[i]) {
            return false;
        }
        i = i + 1;
    }
    assert(forall|j: int| 0 <= j < code@.len() ==> alphabetic(#[trigger] code@[j]));
    true
}

/// Reads record `record` of a zone table into `entries`.
fn read_zone_row(entries: &mut Vec<ZonesCsvEntry>, row: &Vec<String>, record: usize) -> (res: Result<(), ZonesCsvError>)
    ensures
        match zones_row(entries_model(old(entries)@), row@.map_values(|f: String| f@), record as int) {
            Ok(next) => res is Ok && entries_model(final(entries)@) == next,
            Err(e) => res matches Err(err) && err@ == e,
        },
{
    let ghost fields = row@.map_values(|f: String| f@);
    let ghost old_entries = entries_model(entries@);
    if row.len() != 3 {
        return Err(ZonesCsvError::InvalidRow { record });
    }
    let from_s = to_ascii_uppercase(row[0].as_str());
    if !is_valid_code(&from_s) {
        return Err(ZonesCsvError::InvalidCountryCode { record, column: 1 });
    }
    let to_s = to_ascii_uppercase(row[1].as_str());
    if !is_valid_code(&to_s) {
        return Err(ZonesCsvError::InvalidCountryCode { record, column: 2 });
    }
    let zone = match parse_u32(row[2].as_str()) {
        Some(z) => z,
        None => {
            return Err(ZonesCsvError::InvalidZone { record });
        },
    };
    let from = Alpha3(from_s);
    let to = Alpha3(to_s);
    let ghost new_entry = ZoneEntryModel { from: from@, to: to@, zone };
    assert(fields[0] == row@[0]@ && fields[1] == row@[1]@ && fields[2] == row@[2]@);
    let mut k: usize = 0;
    let mut duplicate = false;
    while k < entries.len()
        invariant
            k <= entries@.len(),
            old_entries == entries_model(old(entries)@),
            fields == row@.map_values(|f: String| f@),
            fields.len() == 3,
            from@ == ascii_upper_seq(fields[0]),
            to@ == ascii_upper_seq(fields[1]),
            valid_code(from@),
            valid_code(to@),
            parse_u32_spec(fields[2]) == Some(zone),
            new_entry == (ZoneEntryModel { from: from@, to: to@, zone }),
            entries_model(entries@) == old_entries,
            old_entries.len() == entries@.len(),
            forall|j: int| 0 <= j < k ==> !conflict_at(old_entries, j, from@, to@, zone),
            duplicate == exists|j: int| 0 <= j < k && old_entries[j] == new_entry,
        decreases entries.len() - k,
    {
        let e = &entries[k];
        assert(old_entries[k as int] == e@);
        if alpha3_eq(&e.from, &from) && alpha3_eq(&e.to, &to) {
            if e.zone != zone {
                let existing = e.clone();
                assert(conflict_at(old_entries, k as int, from@, to@, zone));
                let ghost first = choose|j: int| #[trigger] conflict_at(old_entries, j, from@, to@, zone) && forall|j2: int| 0 <= j2 < j ==> !conflict_at(old_entries, j2, from@, to@, zone);
                assert(conflict_at(old_entries, first, from@, to@, zone) && forall|j2: int| 0 <= j2 < first ==> !conflict_at(old_entries, j2, from@, to@, zone));
                assert(first == k as int) by {
                    if first < k {
                        assert(!conflict_at(old_entries, first, from@, to@, zone));
                    } else if first > k {
                        assert(!conflict_at(old_entries, k as int, from@, to@, zone));
                    }
                }
                let conflicting = ZonesCsvEntry { from, to, zone };
                return Err(ZonesCsvError::ConflictingEntries { existing, conflicting });
            }
            duplicate = true;
            assert(old_entries[k as int] == new_entry);
        } else {
            assert(old_entries[k as int] != new_entry) by {
                if old_entries[k as int] == new_entry {
                    assert(e.from@ == from@ && e.to@ == to@);
                }
            }
        }
        k = k + 1;
    }
    assert(!exists|j: int| #[trigger] conflict_at(old_entries, j, from@, to@, zone));
    if duplicate {
        assert(old_entries.contains(new_entry));
    } else {
        assert(!old_entries.contains(new_entry));
        let ghost before = entries@;
        entries.push(ZonesCsvEntry { from, to, zone });
        assert(entries_model(entries@) =~= old_entries.push(new_entry));
    }
    Ok(())
}

/// The zone table of the records that the CSV reader gave (`broken` tells
/// that the reader failed on the record after them): each record must hold
/// a pair of ISO alpha-3 codes (upper-cased) and a zone number, a pair may
/// not get two zones, repeated lines count once, and the table may not be
/// empty.
pub fn zones_from_records(rows: &Vec<Vec<String>>, broken: bool) -> (res: Result<ZonesCsvData, ZonesCsvError>)
    ensures
        zones_result_model(res) == zones_of_records(records_model(rows@), broken),
{
    let ghost model = records_model(rows@);
    let mut entries: Vec<ZonesCsvEntry> = Vec::new();
    let mut k: usize = 0;
    assert(entries_model(entries@) =~= Seq::<ZoneEntryModel>::empty());
    while k < rows.len()
        invariant
            k <= rows@.len(),
            model == records_model(rows@),
            model.len() == rows@.len(),
            zones_fold(model, 0, Seq::empty()) == zones_fold(model, k as int, entries_model(entries@)),
        decreases rows.len() - k,
    {
        assert(model[k as int] == rows@[k as int]@.map_values(|f: String| f@));
        match read_zone_row(&mut entries, &rows[k], k) {
            Ok(()) => {},
            Err(e) => {
                return Err(e);
            },
        }
        k = k + 1;
    }
    if broken {
        return Err(ZonesCsvError::InvalidRecord { record: rows.len() });
    }
    if entries.len() == 0 {
        return Err(ZonesCsvError::Empty);
    }
    Ok(ZonesCsvData(entries))
}

/// What the CSV reader (with a header line) gives for `bytes`: the fields
/// of the records up to the first one it fails on, and whether it failed.
pub uninterp spec fn csv_records(bytes: Seq<u8>) -> (Seq<Seq<Seq<char>>>, bool);

/// Reads CSV records with `csv::Reader` (first line taken as the header):
/// the fields of each record until the reader fails or the input ends, and
/// whether it failed.  The contract names what the reader gives.
#[verifier::external_body]
pub(crate) fn read_csv_records(csv_bytes: &[u8]) -> (res: (Vec<Vec<String>>, bool))
    ensures
        (records_model(res.0@), res.1) == csv_records(csv_bytes@),
{
    let mut reader = csv::Reader::from_reader(csv_bytes);
    let mut rows: Vec<Vec<String>> = Vec::new();
    for record in reader.records() {
        match record {
            Ok(r) => rows.push(r.iter().map(String::from).collect()),
            Err(_) => return (rows, true),
        }
    }
    (rows, false)
}

impl ZonesCsvData {
    /// Reads a zone table ("From,To,Zone" with one line per pair of
    /// countries) from CSV text.
    pub fn parse_csv(csv: &[u8]) -> (res: Result<ZonesCsvData, ZonesCsvError>)
        ensures
            zones_result_model(res) == zones_of_records(csv_records(csv@).0, csv_records(csv@).1),
    {
        let (rows, broken) = read_csv_records(csv);
        zones_from_records(&rows, broken)
    }
}

/// The rate table: the rates of each zone, by zone number.
#[derive(Debug)]
pub struct RatesCsvData(pub HashMap<u32, Vec<ShippingRate>>);

/// The rates of a package kind from one country to each destination.
#[derive(Debug)]
pub struct NewShippingRatesBatch {
    pub company_package_id: CompanyPackageId,
    pub delivery_from: Alpha3,
    pub delivery_to_rates: Vec<(Alpha3, Vec<ShippingRate>)>,
}

/// Why a zone table and a rate table do not make a batch of rates.
#[derive(Clone, Copy, PartialEq, Eq, Debug, Structural)]
pub enum ShippingRatesBatchError {
    /// The zone table has no line.
    ZoneTableEmpty,
    /// The rate table has no zone.
    RateTableEmpty,
    /// The lines of the zone table do not all start from the same country.
    MixedDeliveryFrom,
    /// The rate table has no rates for this zone of the zone table.
    ZoneRatesNotFound { zone: u32 },
}

/// Whether line `i` of the zone table names a zone that the rate table lacks.
pub open spec fn zone_missing(zones: Seq<ZoneEntryModel>, rates: Map<u32, Vec<ShippingRate>>, i: int) -> bool {
    0 <= i < zones.len() && !rates.contains_key(zones[i].zone)
}

/// The batch of rates that a zone table and a rate table make: the common
/// starting country and, for each line of the zone table in order, its
/// destination with the rates of its zone.
pub open spec fn batch_of(zones: Seq<ZoneEntryModel>, rates: Map<u32, Vec<ShippingRate>>) -> Result<
    (Seq<char>, Seq<(Seq<char>, Seq<ShippingRate>)>),
    ShippingRatesBatchError,
> {
    if zones.len() == 0 {
        Err(ShippingRatesBatchError::ZoneTableEmpty)
    } else if rates.is_empty() {
        Err(ShippingRatesBatchError::RateTableEmpty)
    } else if exists|i: int| 0 <= i < zones.len() && #[trigger] zones[i].from != zones[0].from {
        Err(ShippingRatesBatchError::MixedDeliveryFrom)
    } else if exists|i: int| #[trigger] zone_missing(zones, rates, i) {
        let first = choose|i: int| #[trigger] zone_missing(zones, rates, i) && forall|j: int| 0 <= j < i ==> !zone_missing(zones, rates, j);
        Err(ShippingRatesBatchError::ZoneRatesNotFound { zone: zones[first].zone })
    } else {
        Ok((
            zones[0].from,
            Seq::new(zones.len(), |i: int| (zones[i].to, rates[zones[i].zone]@)),
        ))
    }
}

/// Model of the destinations and rates of a batch.
pub open spec fn batch_rates_model(v: Seq<(Alpha3, Vec<ShippingRate>)>) -> Seq<(Seq<char>, Seq<ShippingRate>)> {
    v.map_values(|p: (Alpha3, Vec<ShippingRate>)| (p.0@, p.1@))
}

/// A copy of a list of rates.
pub fn copy_rates(rates: &Vec<ShippingRate>) -> (res: Vec<ShippingRate>)
    ensures
        res@ == rates@,
{
    let mut res: Vec<ShippingRate> = Vec::new();
    let mut i: usize = 0;
    while i < rates.len()
        invariant
            i <= rates@.len(),
            res@ == rates@.take(i as int),
        decreases rates.len() - i,
    {
        res.push(rates[i]);
        assert(res@ =~= rates@.take(i + 1));
        i = i + 1;
    }
    assert(rates@.take(i as int) =~= rates@);
    res
}

impl NewShippingRatesBatch {
    /// Puts a zone table and a rate table together into the rates of each
    /// destination.  Both tables must be non-empty, every line of the zone
    /// table must start from the same country, and every zone it names must
    /// have rates (the first zone without rates is named).
    pub fn try_from_csv_data(
        company_package_id: CompanyPackageId,
        zones: ZonesCsvData,
        rates: RatesCsvData,
    ) -> (res: Result<NewShippingRatesBatch, ShippingRatesBatchError>)
        ensures
            match batch_of(zones@, rates.0@) {
                Ok((from, to_rates)) => res matches Ok(b) && b.company_package_id == company_package_id
                    && b.delivery_from@ == from && batch_rates_model(b.delivery_to_rates@) == to_rates,
                Err(e) => res == Err::<NewShippingRatesBatch, ShippingRatesBatchError>(e),
            },
    {
        broadcast use vstd::std_specs::hash::group_hash_axioms;
        let ghost zm = zones@;
        let ghost rm = rates.0@;
        proof {
            assert(zm.len() == zones.0@.len());
        }
        if zones.0.len() == 0 {
            return Err(ShippingRatesBatchError::ZoneTableEmpty);
        }
        if rates.0.is_empty() {
            return Err(ShippingRatesBatchError::RateTableEmpty);
        }
        let from = zones.0[0].from.clone();
        let mut i: usize = 0;
        while i < zones.0.len()
            invariant
                i <= zones.0@.len(),
                zm == zones@,
                rm == rates.0@,
                zm.len() == zones.0@.len(),
                zm.len() > 0,
                !rm.is_empty(),
                from@ == zm[0].from,
                forall|j: int| 0 <= j < i ==> #[trigger] zm[j].from == zm[0].from,
            decreases zones.0.len() - i,
        {
            assert(zm[i as int] == zones.0@[i as int]@);
            if !alpha3_eq(&zones.0[i].from, &from) {
                assert(zm[i as int].from != zm[0].from);
                return Err(ShippingRatesBatchError::MixedDeliveryFrom);
            }
            i = i + 1;
        }
        let mut delivery_to_rates: Vec<(Alpha3, Vec<ShippingRate>)> = Vec::new();
        let mut k: usize = 0;
        while k < zones.0.len()
            invariant
                k <= zones.0@.len(),
                zm == zones@,
                rm == rates.0@,
                zm.len() == zones.0@.len(),
                zm.len() > 0,
                !rm.is_empty(),
                from@ == zm[0].from,
                forall|j: int| 0 <= j < zm.len() ==> #[trigger] zm[j].from == zm[0].from,
                forall|j: int| 0 <= j < k ==> !zone_missing(zm, rm, j),
                batch_rates_model(delivery_to_rates@) == Seq::new(k as nat, |j: int| (zm[j].to, rm[zm[j].zone]@)),
            decreases zones.0.len() - k,
        {
            let entry = &zones.0[k];
            assert(zm[k as int] == entry@);
            match rates.0.get(&entry.zone) {
                Some(found) => {
                    assert(rm.contains_key(entry.zone) && rm[entry.zone] == *found);
                    let copied = copy_rates(found);
                    let ghost before = delivery_to_rates@;
                    let to = entry.to.clone();
                    assert(to@ == zm[k as int].to);
                    assert(copied@ == rm[zm[k as int].zone]@);
                    delivery_to_rates.push((to, copied));
                    assert(delivery_to_rates@ == before.push((to, copied)));
                    assert(batch_rates_model(delivery_to_rates@) =~= batch_rates_model(before).push((to@, copied@)));
                    assert(batch_rates_model(delivery_to_rates@) =~= Seq::new((k + 1) as nat, |j: int| (zm[j].to, rm[zm[j].zone]@)));
                },
                None => {
                    assert(zone_missing(zm, rm, k as int));
                    let ghost first = choose|i: int| #[trigger] zone_missing(zm, rm, i) && forall|j: int| 0 <= j < i ==> !zone_missing(zm, rm, j);
                    assert(first == k as int) by {
                        if first < k {
                            assert(!zone_missing(zm, rm, first));
                        } else if first > k {
                            assert(!zone_missing(zm, rm, k as int));
                        }
                    }
                    return Err(ShippingRatesBatchError::ZoneRatesNotFound { zone: entry.zone });
                },
            }
            k = k + 1;
        }
        assert(!exists|i: int| #[trigger] zone_missing(zm, rm, i));
        Ok(NewShippingRatesBatch { company_package_id, delivery_from: from, delivery_to_rates })
    }
}

} // verus!
