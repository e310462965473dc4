//! Report rows: the display text of each selected record, and the engine's
//! entry point from the two documents to ordered rows.
use vstd::prelude::*;
use crate::advisor::{
    advisor_records, advisor_records_of, advisor_table, build_spec_index, linux_records, region_records,
    spec_index_of,
};
use crate::records::{AdvisorView, InstanceSpecView, PriceView};
use crate::merge::{fold_advisor, fold_price, with_advisor, with_price, MergedFields};
use crate::price::{region_price_records, size_records, type_records};
use crate::bucket::{label_of, InterruptionBucket};
use crate::json::Json;
use crate::merge::{keys_unique, lemma_map_index, merge_records, merged_map, merged_of, MergedRecord};
use crate::price::{price_records, price_records_of};
use crate::records::{opt_text, DocumentError};
use crate::select::{filter_view, select_records, selected, sorted_by_type};
use crate::text::{decimal, decimal_text};

verus! {

/// The display form of one merged record; absent fields read `N/A`.
#[derive(Clone, Debug)]
pub struct InstanceInfo {
    pub interruption_rate: String,
    pub savings: String,
    pub linux_spot_price: String,
    pub windows_spot_price: String,
    pub memory_gb: String,
    pub cores: String,
}

/// The text shown for an optional string.
pub open spec fn shown_text(o: Option<Seq<char>>) -> Seq<char> {
    match o {
        Some(s) => s,
        None => "N/A"@,
    }
}

/// The text shown for an optional count.
pub open spec fn shown_count(o: Option<u64>) -> Seq<char> {
    match o {
        Some(n) => decimal(n as nat),
        None => "N/A"@,
    }
}

/// The text shown for an optional bucket.
pub open spec fn shown_bucket(o: Option<InterruptionBucket>) -> Seq<char> {
    match o {
        Some(b) => label_of(b),
        None => "N/A"@,
    }
}

/// The text shown for an optional savings percentage.
pub open spec fn shown_savings(o: Option<u64>) -> Seq<char> {
    match o {
        Some(n) => decimal(n as nat) + "%"@,
        None => "N/A"@,
    }
}

impl InstanceInfo {
    /// Whether this is the display form of `r`.
    pub open spec fn describes(self, r: MergedRecord) -> bool {
        &&& self.interruption_rate@ == shown_bucket(r.bucket)
        &&& self.savings@ == shown_savings(r.savings_pct)
        &&& self.linux_spot_price@ == shown_text(opt_text(r.linux_price))
        &&& self.windows_spot_price@ == shown_text(opt_text(r.windows_price))
        &&& self.memory_gb@ == shown_text(opt_text(r.memory_gb))
        &&& self.cores@ == shown_count(r.cores)
    }

    /// The display form of a merged record.
    pub fn from_record(r: &MergedRecord) -> (info: InstanceInfo)
        ensures
            info.describes(*r),
    {
        let interruption_rate = match r.bucket {
            Some(b) => b.label(),
            None => String::from_str("N/A"),
        };
        let savings = match r.savings_pct {
            Some(n) => {
                let mut s = decimal_text(n);
                s.append("%");
                s
            },
            None => String::from_str("N/A"),
        };
        InstanceInfo {
            interruption_rate,
            savings,
            linux_spot_price: shown(&r.linux_price),
            windows_spot_price: shown(&r.windows_price),
            memory_gb: shown(&r.memory_gb),
            cores: match r.cores {
                Some(n) => decimal_text(n),
                None => String::from_str("N/A"),
            },
        }
    }
}

fn shown(o: &Option<String>) -> (r: String)
    ensures
        r@ == shown_text(opt_text(*o)),
{
    match o {
        Some(s) => s.clone(),
        None => String::from_str("N/A"),
    }
}

/// The characters of each cell of a row.
pub open spec fn cells(v: Seq<String>) -> Seq<Seq<char>> {
    v.map_values(|s: String| s@)
}

/// The cells of a row: instance type, region, interruption rate, memory,
/// cores, then the Linux and Windows prices when they are shown, then savings.
pub open spec fn info_row(name: Seq<char>, region: Seq<char>, info: InstanceInfo, show_price: bool) -> Seq<Seq<char>> {
    seq![name, region, info.interruption_rate@, info.memory_gb@, info.cores@] + (if show_price {
        seq![info.linux_spot_price@, info.windows_spot_price@]
    } else {
        Seq::empty()
    }) + seq![info.savings@]
}

/// The row shown for a merged record.
pub open spec fn row_of(r: MergedRecord, region: Seq<char>, show_price: bool) -> Seq<Seq<char>> {
    seq![r.instance_type@, region, shown_bucket(r.bucket), shown_text(opt_text(r.memory_gb)), shown_count(r.cores)]
        + (if show_price {
        seq![shown_text(opt_text(r.linux_price)), shown_text(opt_text(r.windows_price))]
    } else {
        Seq::empty()
    }) + seq![shown_savings(r.savings_pct)]
}

/// The cells of one report row.
pub fn row_cells(name: &String, region: &str, info: &InstanceInfo, show_price: bool) -> (r: Vec<String>)
    ensures
        cells(r@) == info_row(name@, region@, *info, show_price),
{
    let mut v: Vec<String> = Vec::new();
    v.push(name.clone());
    v.push(String::from_str(region));
    v.push(info.interruption_rate.clone());
    v.push(info.memory_gb.clone());
    v.push(info.cores.clone());
    if show_price {
        v.push(info.linux_spot_price.clone());
        v.push(info.windows_spot_price.clone());
    }
    v.push(info.savings.clone());
    assert(cells(v@) =~= info_row(name@, region@, *info, show_price));
    v
}

/// The rows of the selected records, in order.
pub fn report_rows(selected: &Vec<MergedRecord>, region: &str, show_price: bool) -> (r: Vec<Vec<String>>)
    ensures
        r@.len() == selected@.len(),
        forall|i: int| 0 <= i < r@.len() ==> cells(#[trigger] r@[i]@) == row_of(selected@[i], region@, show_price),
{
    let mut rows: Vec<Vec<String>> = Vec::new();
    let mut i: usize = 0;
    while i < selected.len()
        invariant
            i <= selected@.len(),
            rows@.len() == i,
            forall|k: int| 0 <= k < i ==> cells(#[trigger] rows@[k]@) == row_of(selected@[k], region@, show_price),
        decreases selected@.len() - i,
    {
        let info = InstanceInfo::from_record(&selected[i]);
        let row = row_cells(&selected[i].instance_type, region, &info, show_price);
        assert(info_row(selected@[i as int].instance_type@, region@, info, show_price) =~= row_of(selected@[i as int], region@, show_price));
        rows.push(row);
        i = i + 1;
    }
    rows
}

/// Whether `rows` is the report of `region` and `filter` over the mapping `m`:
/// the rows of the matching records of some collection with that mapping,
/// in increasing order of instance type.
pub open spec fn is_report(
    rows: Seq<Vec<String>>,
    m: Map<(Seq<char>, Seq<char>), crate::merge::MergedFields>,
    region: Seq<char>,
    filter: Option<Seq<char>>,
    show_price: bool,
) -> bool {
    exists|merged: Seq<MergedRecord>, sel: Seq<MergedRecord>|
        {
            &&& keys_unique(merged)
            &&& merged_map(merged) == m
            &&& sorted_by_type(sel)
            &&& forall|x: MergedRecord| sel.contains(x) <==> (merged.contains(x) && selected(x, region, filter))
            &&& rows.len() == sel.len()
            &&& forall|i: int| 0 <= i < rows.len() ==> cells(#[trigger] rows[i]@) == row_of(sel[i], region, show_price)
        }
}

/// Whether a price-document region entry is named `region`.
pub open spec fn names_region(entry: Json, region: Seq<char>) -> bool {
    match entry.field("region"@) {
        Some(Json::Str(n)) => n@ == region,
        _ => false,
    }
}

/// Whether neither document names `region`: no member of the advisor tree has
/// that name, and no region entry of the price document has it.
pub open spec fn documents_lack_region(advisor_doc: Json, price_doc: Json, region: Seq<char>) -> bool {
    &&& match advisor_doc.field("spot_advisor"@) {
        Some(Json::Object(rs)) => forall|j: int| 0 <= j < rs@.len() ==> (#[trigger] rs@[j]).0@ != region,
        _ => true,
    }
    &&& match price_doc.field("config"@) {
        Some(c) => match c.field("regions"@) {
            Some(Json::Array(a)) => forall|j: int| 0 <= j < a@.len() ==> !names_region(#[trigger] a@[j], region),
            _ => true,
        },
        None => true,
    }
}

proof fn lemma_linux_records_region(name: Seq<char>, e: Seq<(String, Json)>)
    ensures
        forall|i: int| 0 <= i < linux_records(name, e).len() ==> (#[trigger] linux_records(name, e)[i]).region == name,
    decreases e.len(),
{
    if e.len() > 0 {
        lemma_linux_records_region(name, e.drop_last());
    }
}

proof fn lemma_advisor_table_regions(rs: Seq<(String, Json)>, region: Seq<char>)
    requires
        forall|j: int| 0 <= j < rs.len() ==> (#[trigger] rs[j]).0@ != region,
    ensures
        forall|i: int| 0 <= i < advisor_table(rs).len() ==> (#[trigger] advisor_table(rs)[i]).region != region,
    decreases rs.len(),
{
    if rs.len() > 0 {
        let prev = rs.drop_last();
        assert forall|j: int| 0 <= j < prev.len() implies (#[trigger] prev[j]).0@ != region by {
            assert(prev[j] == rs[j]);
        }
        lemma_advisor_table_regions(prev, region);
        let last = rs.last();
        assert(last == rs[rs.len() - 1]);
        match last.1.field("Linux"@) {
            Some(Json::Object(e)) => lemma_linux_records_region(last.0@, e@),
            _ => {},
        }
        let t = advisor_table(rs);
        assert(t == advisor_table(prev) + region_records(last.0@, last.1));
        assert forall|i: int| 0 <= i < t.len() implies (#[trigger] t[i]).region != region by {
            if i >= advisor_table(prev).len() {
                assert(t[i] == region_records(last.0@, last.1)[i - advisor_table(prev).len()]);
            }
        }
    }
}

proof fn lemma_size_records_region(region: Seq<char>, t: Seq<char>, sizes: Seq<Json>)
    ensures
        forall|i: int| 0 <= i < size_records(region, t, sizes).len() ==> (#[trigger] size_records(region, t, sizes)[i]).region == region,
    decreases sizes.len(),
{
    if sizes.len() > 0 {
        lemma_size_records_region(region, t, sizes.drop_last());
    }
}

proof fn lemma_type_records_region(region: Seq<char>, types: Seq<Json>)
    ensures
        forall|i: int| 0 <= i < type_records(region, types).len() ==> (#[trigger] type_records(region, types)[i]).region == region,
    decreases types.len(),
{
    if types.len() > 0 {
        let prev = type_records(region, types.drop_last());
        lemma_type_records_region(region, types.drop_last());
        match (types.last().field("type"@), types.last().field("sizes"@)) {
            (Some(Json::Str(t)), Some(Json::Array(sz))) => {
                lemma_size_records_region(region, t@, sz@);
                let all = type_records(region, types);
                assert(all == prev + size_records(region, t@, sz@));
                assert forall|i: int| 0 <= i < all.len() implies (#[trigger] all[i]).region == region by {
                    if i >= prev.len() {
                        assert(all[i] == size_records(region, t@, sz@)[i - prev.len()]);
                    }
                }
            },
            _ => {},
        }
    }
}

proof fn lemma_price_table_regions(regions: Seq<Json>, region: Seq<char>)
    requires
        forall|j: int| 0 <= j < regions.len() ==> !names_region(#[trigger] regions[j], region),
    ensures
        forall|i: int| 0 <= i < region_price_records(regions).len() ==> (#[trigger] region_price_records(regions)[i]).region != region,
    decreases regions.len(),
{
    if regions.len() > 0 {
        let before = regions.drop_last();
        assert forall|j: int| 0 <= j < before.len() implies !names_region(#[trigger] before[j], region) by {
            assert(before[j] == regions[j]);
        }
        lemma_price_table_regions(before, region);
        let prev = region_price_records(before);
        let last = regions.last();
        assert(last == regions[regions.len() - 1]);
        match (last.field("region"@), last.field("instanceTypes"@)) {
            (Some(Json::Str(n)), Some(Json::Array(ts))) => {
                lemma_type_records_region(n@, ts@);
                let all = region_price_records(regions);
                assert(all == prev + type_records(n@, ts@));
                assert forall|i: int| 0 <= i < all.len() implies (#[trigger] all[i]).region != region by {
                    if i >= prev.len() {
                        assert(all[i] == type_records(n@, ts@)[i - prev.len()]);
                    }
                }
            },
            _ => {},
        }
    }
}

proof fn lemma_fold_advisor_regions(
    m: Map<(Seq<char>, Seq<char>), MergedFields>,
    advs: Seq<AdvisorView>,
    specs: Seq<InstanceSpecView>,
    region: Seq<char>,
)
    requires
        forall|k: (Seq<char>, Seq<char>)| #[trigger] m.contains_key(k) ==> k.1 != region,
        forall|i: int| 0 <= i < advs.len() ==> (#[trigger] advs[i]).region != region,
    ensures
        forall|k: (Seq<char>, Seq<char>)| #[trigger] fold_advisor(m, advs, specs).contains_key(k) ==> k.1 != region,
    decreases advs.len(),
{
    if advs.len() > 0 {
        let prev = advs.drop_last();
        assert forall|i: int| 0 <= i < prev.len() implies (#[trigger] prev[i]).region != region by {
            assert(prev[i] == advs[i]);
        }
        lemma_fold_advisor_regions(m, prev, specs, region);
        let a = advs.last();
        assert(a == advs[advs.len() - 1]);
        let before = fold_advisor(m, prev, specs);
        let after = fold_advisor(m, advs, specs);
        assert(after == with_advisor(before, a, specs));
        assert forall|k: (Seq<char>, Seq<char>)| #[trigger] after.contains_key(k) implies k.1 != region by {
            if k != (a.instance_type, a.region) {
                assert(before.contains_key(k));
            }
        }
    }
}

proof fn lemma_fold_price_regions(
    m: Map<(Seq<char>, Seq<char>), MergedFields>,
    prices: Seq<PriceView>,
    region: Seq<char>,
)
    requires
        forall|k: (Seq<char>, Seq<char>)| #[trigger] m.contains_key(k) ==> k.1 != region,
        forall|i: int| 0 <= i < prices.len() ==> (#[trigger] prices[i]).region != region,
    ensures
        forall|k: (Seq<char>, Seq<char>)| #[trigger] fold_price(m, prices).contains_key(k) ==> k.1 != region,
    decreases prices.len(),
{
    if prices.len() > 0 {
        let prev = prices.drop_last();
        assert forall|i: int| 0 <= i < prev.len() implies (#[trigger] prev[i]).region != region by {
            assert(prev[i] == prices[i]);
        }
        lemma_fold_price_regions(m, prev, region);
        let p = prices.last();
        assert(p == prices[prices.len() - 1]);
        let before = fold_price(m, prev);
        let after = fold_price(m, prices);
        assert(after == with_price(before, p));
        assert forall|k: (Seq<char>, Seq<char>)| #[trigger] after.contains_key(k) implies k.1 != region by {
            if k != (p.instance_type, p.region) {
                assert(before.contains_key(k));
            }
        }
    }
}

/// A region that neither document names has no key in the merged mapping, so
/// it gets no rows.
pub proof fn lemma_unknown_region_has_no_keys(advisor_doc: Json, price_doc: Json, region: Seq<char>)
    requires
        advisor_records_of(advisor_doc) is Some,
        price_records_of(price_doc) is Some,
        documents_lack_region(advisor_doc, price_doc, region),
    ensures
        forall|k: (Seq<char>, Seq<char>)|
            #[trigger] merged_of(
                spec_index_of(advisor_doc),
                advisor_records_of(advisor_doc).unwrap(),
                price_records_of(price_doc).unwrap(),
            ).contains_key(k) ==> k.1 != region,
{
    match advisor_doc.field("spot_advisor"@) {
        Some(Json::Object(rs)) => lemma_advisor_table_regions(rs@, region),
        _ => {},
    }
    match price_doc.field("config"@) {
        Some(c) => match c.field("regions"@) {
            Some(Json::Array(a)) => lemma_price_table_regions(a@, region),
            _ => {},
        },
        None => {},
    }
    let e: Map<(Seq<char>, Seq<char>), MergedFields> = Map::empty();
    let specs = spec_index_of(advisor_doc);
    let advs = advisor_records_of(advisor_doc).unwrap();
    lemma_fold_advisor_regions(e, advs, specs, region);
    lemma_fold_price_regions(fold_advisor(e, advs, specs), price_records_of(price_doc).unwrap(), region);
}

proof fn lemma_linux_names(name: Seq<char>, e: Seq<(String, Json)>, k: Seq<char>)
    requires
        forall|j: int| 0 <= j < e.len() ==> (#[trigger] e[j]).0@ != k,
    ensures
        forall|i: int| 0 <= i < linux_records(name, e).len() ==> (#[trigger] linux_records(name, e)[i]).instance_type != k,
    decreases e.len(),
{
    if e.len() > 0 {
        let prev = e.drop_last();
        assert forall|j: int| 0 <= j < prev.len() implies (#[trigger] prev[j]).0@ != k by {
            assert(prev[j] == e[j]);
        }
        lemma_linux_names(name, prev, k);
        assert(e.last() == e[e.len() - 1]);
    }
}

proof fn lemma_linux_entry(name: Seq<char>, e: Seq<(String, Json)>, ki: int) -> (i: int)
    requires
        0 <= ki < e.len(),
        e[ki].1 is Object,
        forall|j: int| 0 <= j < e.len() && j != ki ==> (#[trigger] e[j]).0@ != e[ki].0@,
    ensures
        0 <= i < linux_records(name, e).len(),
        linux_records(name, e)[i] == crate::advisor::advisor_entry(name, e[ki].0@, e[ki].1),
        forall|j: int|
            0 <= j < linux_records(name, e).len() && j != i ==> (#[trigger] linux_records(name, e)[j]).instance_type
                != e[ki].0@,
    decreases e.len(),
{
    let prev = e.drop_last();
    let k = e[ki].0@;
    let lr = linux_records(name, e);
    if ki == e.len() - 1 {
        assert forall|j: int| 0 <= j < prev.len() implies (#[trigger] prev[j]).0@ != k by {
            assert(prev[j] == e[j]);
        }
        lemma_linux_names(name, prev, k);
        assert(lr == linux_records(name, prev).push(crate::advisor::advisor_entry(name, k, e[ki].1)));
        linux_records(name, prev).len() as int
    } else {
        assert(prev[ki] == e[ki]);
        assert forall|j: int| 0 <= j < prev.len() && j != ki implies (#[trigger] prev[j]).0@ != prev[ki].0@ by {
            assert(prev[j] == e[j]);
        }
        let i = lemma_linux_entry(name, prev, ki);
        assert(e.last() == e[e.len() - 1]);
        assert(e.last().0@ != k);
        i
    }
}

proof fn lemma_table_entry(rs: Seq<(String, Json)>, ri: int, e: Seq<(String, Json)>, ki: int) -> (i: int)
    requires
        0 <= ri < rs.len(),
        forall|j: int| 0 <= j < rs.len() && j != ri ==> (#[trigger] rs[j]).0@ != rs[ri].0@,
        rs[ri].1.field("Linux"@) matches Some(Json::Object(v)) && v@ == e,
        0 <= ki < e.len(),
        e[ki].1 is Object,
        forall|j: int| 0 <= j < e.len() && j != ki ==> (#[trigger] e[j]).0@ != e[ki].0@,
    ensures
        0 <= i < advisor_table(rs).len(),
        advisor_table(rs)[i] == crate::advisor::advisor_entry(rs[ri].0@, e[ki].0@, e[ki].1),
        forall|j: int|
            0 <= j < advisor_table(rs).len() && j != i ==> ((#[trigger] advisor_table(rs)[j]).instance_type,
            advisor_table(rs)[j].region) != (e[ki].0@, rs[ri].0@),
    decreases rs.len(),
{
    let prev = rs.drop_last();
    let region = rs[ri].0@;
    let t = advisor_table(rs);
    let last = rs.last();
    assert(last == rs[rs.len() - 1]);
    assert(t == advisor_table(prev) + region_records(last.0@, last.1));
    if ri == rs.len() - 1 {
        assert forall|j: int| 0 <= j < prev.len() implies (#[trigger] prev[j]).0@ != region by {
            assert(prev[j] == rs[j]);
        }
        lemma_advisor_table_regions(prev, region);
        let i = lemma_linux_entry(region, e, ki);
        let n = advisor_table(prev).len() as int;
        assert(region_records(last.0@, last.1) == linux_records(region, e));
        assert forall|j: int| 0 <= j < t.len() && j != n + i implies ((#[trigger] t[j]).instance_type, t[j].region) != (e[ki].0@, region) by {
            if j >= n {
                assert(t[j] == linux_records(region, e)[j - n]);
            } else {
                assert(t[j] == advisor_table(prev)[j]);
            }
        }
        n + i
    } else {
        assert(prev[ri] == rs[ri]);
        assert forall|j: int| 0 <= j < prev.len() && j != ri implies (#[trigger] prev[j]).0@ != prev[ri].0@ by {
            assert(prev[j] == rs[j]);
        }
        let i = lemma_table_entry(prev, ri, e, ki);
        let n = advisor_table(prev).len() as int;
        match last.1.field("Linux"@) {
            Some(Json::Object(le)) => lemma_linux_records_region(last.0@, le@),
            _ => {},
        }
        assert forall|j: int| 0 <= j < t.len() && j != i implies ((#[trigger] t[j]).instance_type, t[j].region) != (e[ki].0@, region) by {
            if j >= n {
                assert(t[j] == region_records(last.0@, last.1)[j - n]);
            } else {
                assert(t[j] == advisor_table(prev)[j]);
            }
        }
        i
    }
}

proof fn lemma_fold_advisor_at(
    m: Map<(Seq<char>, Seq<char>), MergedFields>,
    advs: Seq<AdvisorView>,
    specs: Seq<InstanceSpecView>,
    i: int,
)
    requires
        0 <= i < advs.len(),
        forall|j: int|
            0 <= j < advs.len() && j != i ==> ((#[trigger] advs[j]).instance_type, advs[j].region) != (
            advs[i].instance_type, advs[i].region),
    ensures
        fold_advisor(m, advs, specs).contains_key((advs[i].instance_type, advs[i].region)),
        fold_advisor(m, advs, specs)[(advs[i].instance_type, advs[i].region)].bucket == Some(advs[i].bucket),
        fold_advisor(m, advs, specs)[(advs[i].instance_type, advs[i].region)].savings_pct == Some(advs[i].savings_pct),
    decreases advs.len(),
{
    let prev = advs.drop_last();
    assert(advs.last() == advs[advs.len() - 1]);
    if i < advs.len() - 1 {
        assert(prev[i] == advs[i]);
        assert forall|j: int| 0 <= j < prev.len() && j != i implies ((#[trigger] prev[j]).instance_type, prev[j].region) != (
            prev[i].instance_type, prev[i].region) by {
            assert(prev[j] == advs[j]);
        }
        lemma_fold_advisor_at(m, prev, specs, i);
    }
}

proof fn lemma_fold_price_keeps_advisor(
    m: Map<(Seq<char>, Seq<char>), MergedFields>,
    prices: Seq<PriceView>,
    k: (Seq<char>, Seq<char>),
)
    requires
        m.contains_key(k),
    ensures
        fold_price(m, prices).contains_key(k),
        fold_price(m, prices)[k].bucket == m[k].bucket,
        fold_price(m, prices)[k].savings_pct == m[k].savings_pct,
    decreases prices.len(),
{
    if prices.len() > 0 {
        lemma_fold_price_keeps_advisor(m, prices.drop_last(), k);
    }
}

/// The merged record of an instance type in a region carries the bucket and
/// savings of its Linux advisor entry: where the advisor tree names the region
/// once, and that region's Linux object names the instance type once with an
/// object entry, the merged mapping holds the key, with the bucket of the
/// entry's code `r` and the savings `s` (each 0 when missing or not a
/// non-negative integer), whatever the price document holds.
pub proof fn lemma_advisor_entry_bucket(
    advisor_doc: Json,
    price_doc: Json,
    rs: Seq<(String, Json)>,
    ri: int,
    e: Seq<(String, Json)>,
    ki: int,
)
    requires
        advisor_doc.field("spot_advisor"@) matches Some(Json::Object(v)) && v@ == rs,
        price_records_of(price_doc) is Some,
        0 <= ri < rs.len(),
        forall|j: int| 0 <= j < rs.len() && j != ri ==> (#[trigger] rs[j]).0@ != rs[ri].0@,
        rs[ri].1.field("Linux"@) matches Some(Json::Object(v)) && v@ == e,
        0 <= ki < e.len(),
        e[ki].1 is Object,
        forall|j: int| 0 <= j < e.len() && j != ki ==> (#[trigger] e[j]).0@ != e[ki].0@,
    ensures
        ({
            let m = merged_of(
                spec_index_of(advisor_doc),
                advisor_records_of(advisor_doc).unwrap(),
                price_records_of(price_doc).unwrap(),
            );
            let key = (e[ki].0@, rs[ri].0@);
            &&& m.contains_key(key)
            &&& m[key].bucket == Some(crate::bucket::bucket_of(crate::advisor::code_or_zero(e[ki].1.field("r"@))))
            &&& m[key].savings_pct == Some(crate::advisor::code_or_zero(e[ki].1.field("s"@)))
        }),
{
    let advs = advisor_records_of(advisor_doc).unwrap();
    assert(advs == advisor_table(rs));
    let i = lemma_table_entry(rs, ri, e, ki);
    let specs = spec_index_of(advisor_doc);
    let empty: Map<(Seq<char>, Seq<char>), MergedFields> = Map::empty();
    lemma_fold_advisor_at(empty, advs, specs, i);
    lemma_fold_price_keeps_advisor(fold_advisor(empty, advs, specs), price_records_of(price_doc).unwrap(), (e[ki].0@, rs[ri].0@));
}

/// A report holds a row for every key of its region that the filter admits:
/// its first cell is the instance type and its third the interruption-rate
/// text of the mapped bucket.
pub proof fn lemma_report_has_row(
    rows: Seq<Vec<String>>,
    m: Map<(Seq<char>, Seq<char>), MergedFields>,
    region: Seq<char>,
    filter: Option<Seq<char>>,
    show_price: bool,
    k: Seq<char>,
)
    requires
        is_report(rows, m, region, filter, show_price),
        m.contains_key((k, region)),
        match filter {
            Some(f) => crate::select::filter_matches(k, f),
            None => true,
        },
    ensures
        exists|i: int|
            0 <= i < rows.len() && cells(#[trigger] rows[i]@)[0] == k && cells(rows[i]@)[2] == shown_bucket(
                m[(k, region)].bucket,
            ),
{
    let (merged, sel) = choose|merged: Seq<MergedRecord>, sel: Seq<MergedRecord>|
        {
            &&& keys_unique(merged)
            &&& merged_map(merged) == m
            &&& sorted_by_type(sel)
            &&& forall|x: MergedRecord| sel.contains(x) <==> (merged.contains(x) && selected(x, region, filter))
            &&& rows.len() == sel.len()
            &&& forall|i: int| 0 <= i < rows.len() ==> cells(#[trigger] rows[i]@) == row_of(sel[i], region, show_price)
        };
    crate::merge::lemma_map_domain(merged, (k, region));
    let j = choose|j: int| 0 <= j < merged.len() && merged[j].key() == (k, region);
    lemma_map_index(merged, j);
    assert(merged.contains(merged[j]));
    assert(selected(merged[j], region, filter));
    assert(sel.contains(merged[j]));
    let i = choose|i: int| 0 <= i < sel.len() && sel[i] == merged[j];
    let row = row_of(sel[i], region, show_price);
    assert(row[0] == k);
    assert(row[2] == shown_bucket(sel[i].bucket));
    assert(cells(rows[i]@) == row);
}

/// Builds the report rows for `region` and an optional instance-type filter
/// from the advisor and price documents. A document without its top-level
/// table is an error; a region that neither document names gives no rows.
pub fn spot_rows(
    region: &str,
    filter: Option<&str>,
    advisor_doc: &Json,
    price_doc: &Json,
    show_price: bool,
) -> (r: Result<Vec<Vec<String>>, DocumentError>)
    ensures
        advisor_records_of(*advisor_doc) is None ==> r == Err::<Vec<Vec<String>>, DocumentError>(
            DocumentError::MissingAdvisorTable,
        ),
        advisor_records_of(*advisor_doc) is Some && price_records_of(*price_doc) is None ==> r == Err::<
            Vec<Vec<String>>,
            DocumentError,
        >(DocumentError::MissingPriceRegions),
        advisor_records_of(*advisor_doc) is Some && price_records_of(*price_doc) is Some ==> {
            let m = merged_of(
                spec_index_of(*advisor_doc),
                advisor_records_of(*advisor_doc).unwrap(),
                price_records_of(*price_doc).unwrap(),
            );
            &&& r matches Ok(rows)
            &&& is_report(rows@, m, region@, filter_view(filter), show_price)
            &&& (forall|k: (Seq<char>, Seq<char>)| #[trigger] m.contains_key(k) ==> k.1 != region@) ==> rows@.len() == 0
            &&& documents_lack_region(*advisor_doc, *price_doc, region@) ==> rows@.len() == 0
        },
{
    let specs = build_spec_index(advisor_doc);
    let advs = match advisor_records(advisor_doc) {
        Ok(a) => a,
        Err(e) => {
            return Err(e);
        },
    };
    let prices = match price_records(price_doc) {
        Ok(p) => p,
        Err(e) => {
            return Err(e);
        },
    };
    let merged = merge_records(&specs, &advs, &prices);
    let sel = select_records(&merged, region, filter);
    let rows = report_rows(&sel, region, show_price);
    proof {
        if documents_lack_region(*advisor_doc, *price_doc, region@) {
            lemma_unknown_region_has_no_keys(*advisor_doc, *price_doc, region@);
        }
        let m = merged_map(merged@);
        if forall|k: (Seq<char>, Seq<char>)| #[trigger] m.contains_key(k) ==> k.1 != region@ {
            assert forall|k: int| 0 <= k < merged@.len() implies #[trigger] merged@[k].region@ != region@ by {
                lemma_map_index(merged@, k);
            }
        }
    }
    Ok(rows)
}

} // verus!
