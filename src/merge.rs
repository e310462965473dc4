//! The merger: joins advisor and price records on (instance type, region),
//! enriched with the hardware index.
use vstd::prelude::*;
use crate::advisor::spec_lookup;
use crate::bucket::InterruptionBucket;
use crate::records::{
    advisor_views, copy_text, opt_text, price_views, spec_views, AdvisorRecord, AdvisorView, InstanceSpec,
    InstanceSpecView, PriceRecord, PriceView,
};

verus! {

/// The reconciled view of one instance type in one region. A field that no
/// source gave is absent.
#[derive(Debug)]
pub struct MergedRecord {
    pub instance_type: String,
    pub region: String,
    pub bucket: Option<InterruptionBucket>,
    pub savings_pct: Option<u64>,
    pub memory_gb: Option<String>,
    pub cores: Option<u64>,
    pub linux_price: Option<String>,
    pub windows_price: Option<String>,
}

/// The fields of a merged record other than its key.
pub struct MergedFields {
    pub bucket: Option<InterruptionBucket>,
    pub savings_pct: Option<u64>,
    pub memory_gb: Option<Seq<char>>,
    pub cores: Option<u64>,
    pub linux_price: Option<Seq<char>>,
    pub windows_price: Option<Seq<char>>,
}

impl MergedRecord {
    /// The (instance type, region) pair that identifies the record.
    pub open spec fn key(self) -> (Seq<char>, Seq<char>) {
        (self.instance_type@, self.region@)
    }

    pub open spec fn fields(self) -> MergedFields {
        MergedFields {
            bucket: self.bucket,
            savings_pct: self.savings_pct,
            memory_gb: opt_text(self.memory_gb),
            cores: self.cores,
            linux_price: opt_text(self.linux_price),
            windows_price: opt_text(self.windows_price),
        }
    }
}

/// No two records share a key.
pub open spec fn keys_unique(s: Seq<MergedRecord>) -> bool {
    forall|i: int, j: int|
        0 <= i < s.len() && 0 <= j < s.len() && i != j ==> #[trigger] s[i].key() != #[trigger] s[j].key()
}

/// The mapping from key to fields that a sequence of records stands for.
pub open spec fn merged_map(s: Seq<MergedRecord>) -> Map<(Seq<char>, Seq<char>), MergedFields>
    decreases s.len(),
{
    if s.len() == 0 {
        Map::empty()
    } else {
        merged_map(s.drop_last()).insert(s.last().key(), s.last().fields())
    }
}

/// Folds one advisor record in: its risk, savings and hardware figures replace
/// those under its key; prices already there stay.
pub open spec fn with_advisor(
    m: Map<(Seq<char>, Seq<char>), MergedFields>,
    a: AdvisorView,
    specs: Seq<InstanceSpecView>,
) -> Map<(Seq<char>, Seq<char>), MergedFields> {
    let k = (a.instance_type, a.region);
    let hw = spec_lookup(specs, a.instance_type);
    m.insert(
        k,
        MergedFields {
            bucket: Some(a.bucket),
            savings_pct: Some(a.savings_pct),
            memory_gb: match hw {
                Some(h) => h.memory_gb,
                None => None,
            },
            cores: match hw {
                Some(h) => h.cores,
                None => None,
            },
            linux_price: if m.contains_key(k) { m[k].linux_price } else { None },
            windows_price: if m.contains_key(k) { m[k].windows_price } else { None },
        },
    )
}

/// A price field after folding in `incoming`: a price already present stays,
/// an absent one takes the incoming value.
pub open spec fn kept_price(current: Option<Seq<char>>, incoming: Option<Seq<char>>) -> Option<Seq<char>> {
    if current is Some {
        current
    } else {
        incoming
    }
}

/// Folds one price record in: it fills the price fields under its key that
/// are still absent, and never resets a present one; the advisor fields
/// already there stay.
pub open spec fn with_price(m: Map<(Seq<char>, Seq<char>), MergedFields>, p: PriceView) -> Map<
    (Seq<char>, Seq<char>),
    MergedFields,
> {
    let k = (p.instance_type, p.region);
    m.insert(
        k,
        MergedFields {
            bucket: if m.contains_key(k) { m[k].bucket } else { None },
            savings_pct: if m.contains_key(k) { m[k].savings_pct } else { None },
            memory_gb: if m.contains_key(k) { m[k].memory_gb } else { None },
            cores: if m.contains_key(k) { m[k].cores } else { None },
            linux_price: if m.contains_key(k) {
                kept_price(m[k].linux_price, p.linux_price)
            } else {
                p.linux_price
            },
            windows_price: if m.contains_key(k) {
                kept_price(m[k].windows_price, p.windows_price)
            } else {
                p.windows_price
            },
        },
    )
}

/// Folds advisor records in, in order.
pub open spec fn fold_advisor(
    m: Map<(Seq<char>, Seq<char>), MergedFields>,
    advs: Seq<AdvisorView>,
    specs: Seq<InstanceSpecView>,
) -> Map<(Seq<char>, Seq<char>), MergedFields>
    decreases advs.len(),
{
    if advs.len() == 0 {
        m
    } else {
        with_advisor(fold_advisor(m, advs.drop_last(), specs), advs.last(), specs)
    }
}

/// Folds price records in, in order.
pub open spec fn fold_price(m: Map<(Seq<char>, Seq<char>), MergedFields>, prices: Seq<PriceView>) -> Map<
    (Seq<char>, Seq<char>),
    MergedFields,
>
    decreases prices.len(),
{
    if prices.len() == 0 {
        m
    } else {
        with_price(fold_price(m, prices.drop_last()), prices.last())
    }
}

/// The merged mapping: advisor records first, then price records.
pub open spec fn merged_of(
    specs: Seq<InstanceSpecView>,
    advs: Seq<AdvisorView>,
    prices: Seq<PriceView>,
) -> Map<(Seq<char>, Seq<char>), MergedFields> {
    fold_price(fold_advisor(Map::empty(), advs, specs), prices)
}

proof fn lemma_advisor_price_commute(
    m: Map<(Seq<char>, Seq<char>), MergedFields>,
    a: AdvisorView,
    p: PriceView,
    specs: Seq<InstanceSpecView>,
)
    ensures
        with_advisor(with_price(m, p), a, specs) == with_price(with_advisor(m, a, specs), p),
{
    assert(with_advisor(with_price(m, p), a, specs) =~= with_price(with_advisor(m, a, specs), p));
}

proof fn lemma_advisor_through_prices(
    m: Map<(Seq<char>, Seq<char>), MergedFields>,
    a: AdvisorView,
    prices: Seq<PriceView>,
    specs: Seq<InstanceSpecView>,
)
    ensures
        with_advisor(fold_price(m, prices), a, specs) == fold_price(with_advisor(m, a, specs), prices),
    decreases prices.len(),
{
    if prices.len() > 0 {
        lemma_advisor_through_prices(m, a, prices.drop_last(), specs);
        lemma_advisor_price_commute(fold_price(m, prices.drop_last()), a, prices.last(), specs);
    }
}

proof fn lemma_folds_commute(
    m: Map<(Seq<char>, Seq<char>), MergedFields>,
    advs: Seq<AdvisorView>,
    prices: Seq<PriceView>,
    specs: Seq<InstanceSpecView>,
)
    ensures
        fold_advisor(fold_price(m, prices), advs, specs) == fold_price(fold_advisor(m, advs, specs), prices),
    decreases advs.len(),
{
    if advs.len() > 0 {
        lemma_folds_commute(m, advs.drop_last(), prices, specs);
        lemma_advisor_through_prices(fold_advisor(m, advs.drop_last(), specs), advs.last(), prices, specs);
    }
}

/// Merging is independent of the order of the two sources: folding the price
/// records in before the advisor records gives the same mapping as folding
/// them in after.
pub proof fn lemma_merge_order_independent(
    specs: Seq<InstanceSpecView>,
    advs: Seq<AdvisorView>,
    prices: Seq<PriceView>,
)
    ensures
        fold_advisor(fold_price(Map::empty(), prices), advs, specs) == merged_of(specs, advs, prices),
{
    lemma_folds_commute(Map::empty(), advs, prices, specs);
}

/// Two price records commute when they have different keys, or when they do
/// not both carry a Linux price nor both carry a Windows price: a present
/// price is never replaced, so which of them comes first does not matter.
pub proof fn lemma_price_records_commute(
    m: Map<(Seq<char>, Seq<char>), MergedFields>,
    p: PriceView,
    q: PriceView,
)
    requires
        (p.instance_type, p.region) != (q.instance_type, q.region) || (!(p.linux_price is Some
            && q.linux_price is Some) && !(p.windows_price is Some && q.windows_price is Some)),
    ensures
        with_price(with_price(m, p), q) == with_price(with_price(m, q), p),
{
    assert(with_price(with_price(m, p), q) =~= with_price(with_price(m, q), p));
}

/// Folding in a price record never turns a present price into an absent one.
pub proof fn lemma_price_never_reset(
    m: Map<(Seq<char>, Seq<char>), MergedFields>,
    p: PriceView,
    k: (Seq<char>, Seq<char>),
)
    requires
        m.contains_key(k),
    ensures
        with_price(m, p).contains_key(k),
        m[k].linux_price is Some ==> with_price(m, p)[k].linux_price == m[k].linux_price,
        m[k].windows_price is Some ==> with_price(m, p)[k].windows_price == m[k].windows_price,
{
}

pub(crate) proof fn lemma_map_domain(s: Seq<MergedRecord>, k: (Seq<char>, Seq<char>))
    ensures
        merged_map(s).contains_key(k) <==> exists|i: int| 0 <= i < s.len() && s[i].key() == k,
    decreases s.len(),
{
    if s.len() > 0 {
        lemma_map_domain(s.drop_last(), k);
        if merged_map(s).contains_key(k) && k != s.last().key() {
            let i = choose|i: int| 0 <= i < s.len() - 1 && s.drop_last()[i].key() == k;
            assert(s[i].key() == k);
        }
        if exists|i: int| 0 <= i < s.len() && s[i].key() == k {
            let i = choose|i: int| 0 <= i < s.len() && s[i].key() == k;
            if i < s.len() - 1 {
                assert(s.drop_last()[i].key() == k);
            }
        }
    }
}

pub(crate) proof fn lemma_map_index(s: Seq<MergedRecord>, i: int)
    requires
        keys_unique(s),
        0 <= i < s.len(),
    ensures
        merged_map(s).contains_key(s[i].key()),
        merged_map(s)[s[i].key()] == s[i].fields(),
    decreases s.len(),
{
    if i < s.len() - 1 {
        assert(s.drop_last()[i] == s[i]);
        assert(keys_unique(s.drop_last()));
        lemma_map_index(s.drop_last(), i);
        assert(s[s.len() - 1].key() != s[i].key());
    }
}

proof fn lemma_map_update(s: Seq<MergedRecord>, j: int, r: MergedRecord)
    requires
        keys_unique(s),
        0 <= j < s.len(),
        r.key() == s[j].key(),
    ensures
        keys_unique(s.update(j, r)),
        merged_map(s.update(j, r)) == merged_map(s).insert(r.key(), r.fields()),
    decreases s.len(),
{
    let t = s.update(j, r);
    assert forall|a: int, b: int| 0 <= a < t.len() && 0 <= b < t.len() && a != b implies #[trigger] t[a].key() != #[trigger] t[b].key() by {
        assert(s[a].key() != s[b].key());
    }
    if j == s.len() - 1 {
        assert(t.drop_last() =~= s.drop_last());
        assert(merged_map(t) =~= merged_map(s).insert(r.key(), r.fields()));
    } else {
        assert(t.drop_last() =~= s.drop_last().update(j, r));
        assert(s.drop_last()[j] == s[j]);
        assert(keys_unique(s.drop_last()));
        lemma_map_update(s.drop_last(), j, r);
        assert(s[s.len() - 1].key() != s[j].key());
        assert(merged_map(t) =~= merged_map(s).insert(r.key(), r.fields()));
    }
}

proof fn lemma_map_push(s: Seq<MergedRecord>, r: MergedRecord)
    requires
        keys_unique(s),
        !merged_map(s).contains_key(r.key()),
    ensures
        keys_unique(s.push(r)),
        merged_map(s.push(r)) == merged_map(s).insert(r.key(), r.fields()),
{
    let t = s.push(r);
    assert(t.drop_last() =~= s);
    assert forall|a: int, b: int| 0 <= a < t.len() && 0 <= b < t.len() && a != b implies #[trigger] t[a].key() != #[trigger] t[b].key() by {
        if a == s.len() {
            lemma_map_domain(s, r.key());
            assert(s[b] == t[b]);
        } else if b == s.len() {
            lemma_map_domain(s, r.key());
            assert(s[a] == t[a]);
        } else {
            assert(s[a].key() != s[b].key());
        }
    }
}

/// The position of the record with key (`instance_type`, `region`), if any.
fn find_key(merged: &Vec<MergedRecord>, instance_type: &String, region: &String) -> (r: Option<usize>)
    requires
        keys_unique(merged@),
    ensures
        r matches Some(j) ==> j < merged@.len() && merged@[j as int].key() == (instance_type@, region@)
            && merged_map(merged@).contains_key((instance_type@, region@))
            && merged_map(merged@)[(instance_type@, region@)] == merged@[j as int].fields(),
        r is None ==> !merged_map(merged@).contains_key((instance_type@, region@)),
{
    let mut i: usize = 0;
    while i < merged.len()
        invariant
            i <= merged@.len(),
            keys_unique(merged@),
            forall|k: int| 0 <= k < i ==> #[trigger] merged@[k].key() != (instance_type@, region@),
        decreases merged@.len() - i,
    {
        if merged[i].instance_type == *instance_type && merged[i].region == *region {
            proof {
                lemma_map_index(merged@, i as int);
            }
            return Some(i);
        }
        i = i + 1;
    }
    proof {
        lemma_map_domain(merged@, (instance_type@, region@));
    }
    None
}

/// A price field after folding in `incoming`: a present price stays.
fn keep_price(current: &Option<String>, incoming: &Option<String>) -> (r: Option<String>)
    ensures
        opt_text(r) == kept_price(opt_text(*current), opt_text(*incoming)),
{
    if current.is_some() {
        copy_text(current)
    } else {
        copy_text(incoming)
    }
}

/// Folds advisor records into a merged collection, looking up hardware
/// figures in `specs`.
pub fn apply_advisor_records(
    merged: &mut Vec<MergedRecord>,
    specs: &Vec<InstanceSpec>,
    advs: &Vec<AdvisorRecord>,
)
    requires
        keys_unique(old(merged)@),
    ensures
        keys_unique(final(merged)@),
        merged_map(final(merged)@) == fold_advisor(
            merged_map(old(merged)@),
            advisor_views(advs@),
            spec_views(specs@),
        ),
{
    let ghost m0 = merged_map(merged@);
    let ghost av = advisor_views(advs@);
    let mut i: usize = 0;
    assert(av.take(0) =~= Seq::<AdvisorView>::empty());
    while i < advs.len()
        invariant
            i <= advs@.len(),
            av == advisor_views(advs@),
            keys_unique(merged@),
            merged_map(merged@) == fold_advisor(m0, av.take(i as int), spec_views(specs@)),
        decreases advs@.len() - i,
    {
        assert(av.take(i as int + 1).drop_last() =~= av.take(i as int));
        assert(av.take(i as int + 1).last() == advs@[i as int]@);
        let a = &advs[i];
        let (memory_gb, cores) = crate::advisor::lookup_spec(specs, &a.instance_type);
        match find_key(merged, &a.instance_type, &a.region) {
            Some(j) => {
                let rec = MergedRecord {
                    instance_type: a.instance_type.clone(),
                    region: a.region.clone(),
                    bucket: Some(a.bucket),
                    savings_pct: Some(a.savings_pct),
                    memory_gb,
                    cores,
                    linux_price: copy_text(&merged[j].linux_price),
                    windows_price: copy_text(&merged[j].windows_price),
                };
                proof {
                    lemma_map_update(merged@, j as int, rec);
                }
                merged.set(j, rec);
                assert(merged_map(merged@) =~= fold_advisor(m0, av.take(i as int + 1), spec_views(specs@)));
            },
            None => {
                let rec = MergedRecord {
                    instance_type: a.instance_type.clone(),
                    region: a.region.clone(),
                    bucket: Some(a.bucket),
                    savings_pct: Some(a.savings_pct),
                    memory_gb,
                    cores,
                    linux_price: None,
                    windows_price: None,
                };
                proof {
                    lemma_map_push(merged@, rec);
                }
                merged.push(rec);
                assert(merged_map(merged@) =~= fold_advisor(m0, av.take(i as int + 1), spec_views(specs@)));
            },
        }
        i = i + 1;
    }
    assert(av.take(advs@.len() as int) =~= av);
}

/// Folds price records into a merged collection.
pub fn apply_price_records(merged: &mut Vec<MergedRecord>, prices: &Vec<PriceRecord>)
    requires
        keys_unique(old(merged)@),
    ensures
        keys_unique(final(merged)@),
        merged_map(final(merged)@) == fold_price(merged_map(old(merged)@), price_views(prices@)),
{
    let ghost m0 = merged_map(merged@);
    let ghost pv = price_views(prices@);
    let mut i: usize = 0;
    assert(pv.take(0) =~= Seq::<PriceView>::empty());
    while i < prices.len()
        invariant
            i <= prices@.len(),
            pv == price_views(prices@),
            keys_unique(merged@),
            merged_map(merged@) == fold_price(m0, pv.take(i as int)),
        decreases prices@.len() - i,
    {
        assert(pv.take(i as int + 1).drop_last() =~= pv.take(i as int));
        assert(pv.take(i as int + 1).last() == prices@[i as int]@);
        let p = &prices[i];
        match find_key(merged, &p.instance_type, &p.region) {
            Some(j) => {
                let rec = MergedRecord {
                    instance_type: p.instance_type.clone(),
                    region: p.region.clone(),
                    bucket: merged[j].bucket,
                    savings_pct: merged[j].savings_pct,
                    memory_gb: copy_text(&merged[j].memory_gb),
                    cores: merged[j].cores,
                    linux_price: keep_price(&merged[j].linux_price, &p.linux_price),
                    windows_price: keep_price(&merged[j].windows_price, &p.windows_price),
                };
                proof {
                    lemma_map_update(merged@, j as int, rec);
                }
                merged.set(j, rec);
                assert(merged_map(merged@) =~= fold_price(m0, pv.take(i as int + 1)));
            },
            None => {
                let rec = MergedRecord {
                    instance_type: p.instance_type.clone(),
                    region: p.region.clone(),
                    bucket: None,
                    savings_pct: None,
                    memory_gb: None,
                    cores: None,
                    linux_price: copy_text(&p.linux_price),
                    windows_price: copy_text(&p.windows_price),
                };
                proof {
                    lemma_map_push(merged@, rec);
                }
                merged.push(rec);
                assert(merged_map(merged@) =~= fold_price(m0, pv.take(i as int + 1)));
            },
        }
        i = i + 1;
    }
    assert(pv.take(prices@.len() as int) =~= pv);
}

/// Joins the advisor and price records into one record per (instance type,
/// region) pair that either source names.
pub fn merge_records(
    specs: &Vec<InstanceSpec>,
    advs: &Vec<AdvisorRecord>,
    prices: &Vec<PriceRecord>,
) -> (r: Vec<MergedRecord>)
    ensures
        keys_unique(r@),
        merged_map(r@) == merged_of(spec_views(specs@), advisor_views(advs@), price_views(prices@)),
{
    let mut merged: Vec<MergedRecord> = Vec::new();
    assert(merged_map(merged@) =~= Map::empty());
    apply_advisor_records(&mut merged, specs, advs);
    apply_price_records(&mut merged, prices);
    merged
}

} // verus!
