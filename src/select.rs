//! The selector: keeps the records of one region that match an optional
//! instance-type filter, ordered by instance type.
use vstd::prelude::*;
use crate::merge::{keys_unique, MergedRecord};
use crate::records::copy_text;
use crate::text::{
    contains_seq, contains_text, family, family_of, lemma_text_order, same_text, size, size_of,
    text_less, text_lt,
};

verus! {

/// Whether an instance type matches a filter: the filter equals its family or
/// its size, or occurs anywhere in it.
pub open spec fn filter_matches(name: Seq<char>, f: Seq<char>) -> bool {
    family_of(name) == f || size_of(name) == f || contains_seq(name, f)
}

/// The characters of an optional filter.
pub open spec fn filter_view(filter: Option<&str>) -> Option<Seq<char>> {
    match filter {
        Some(f) => Some(f@),
        None => None,
    }
}

/// Whether a record belongs to the selection for `region` and `filter`.
pub open spec fn selected(r: MergedRecord, region: Seq<char>, filter: Option<Seq<char>>) -> bool {
    r.region@ == region && match filter {
        Some(f) => filter_matches(r.instance_type@, f),
        None => true,
    }
}

/// Records in strictly increasing order of instance type.
pub open spec fn sorted_by_type(s: Seq<MergedRecord>) -> bool {
    forall|i: int, j: int|
        0 <= i < j < s.len() ==> text_lt(#[trigger] s[i].instance_type@, #[trigger] s[j].instance_type@)
}

/// No two records have the same instance type.
pub open spec fn types_distinct(s: Seq<MergedRecord>) -> bool {
    forall|i: int, j: int|
        0 <= i < s.len() && 0 <= j < s.len() && i != j ==> #[trigger] s[i].instance_type@ != #[trigger] s[j].instance_type@
}

proof fn lemma_contains_push(s: Seq<MergedRecord>, a: MergedRecord, y: MergedRecord)
    ensures
        s.push(a).contains(y) <==> (s.contains(y) || y == a),
{
    if s.contains(y) {
        let k = choose|k: int| 0 <= k < s.len() && s[k] == y;
        assert(s.push(a)[k] == y);
    }
    if y == a {
        assert(s.push(a)[s.len() as int] == y);
    }
    if s.push(a).contains(y) && y != a {
        let k = choose|k: int| 0 <= k < s.len() + 1 && s.push(a)[k] == y;
        assert(s[k] == y);
    }
}

/// Whether `name` matches `filter` by family, size or substring.
pub fn matches_filter(name: &str, filter: &str) -> (r: bool)
    ensures
        r == filter_matches(name@, filter@),
{
    let fam = family(name);
    if same_text(fam.as_str(), filter) {
        return true;
    }
    let sz = size(name);
    if same_text(sz.as_str(), filter) {
        return true;
    }
    contains_text(name, filter)
}

impl MergedRecord {
    /// A field-by-field copy.
    pub fn duplicate(&self) -> (r: MergedRecord)
        ensures
            r == *self,
    {
        MergedRecord {
            instance_type: self.instance_type.clone(),
            region: self.region.clone(),
            bucket: self.bucket,
            savings_pct: self.savings_pct,
            memory_gb: copy_text(&self.memory_gb),
            cores: self.cores,
            linux_price: copy_text(&self.linux_price),
            windows_price: copy_text(&self.windows_price),
        }
    }
}

/// Orders records of distinct instance types by instance type.
pub fn sort_by_type(v: &Vec<MergedRecord>) -> (r: Vec<MergedRecord>)
    requires
        types_distinct(v@),
    ensures
        sorted_by_type(r@),
        r@.len() == v@.len(),
        forall|x: MergedRecord| r@.contains(x) <==> v@.contains(x),
{
    let mut out: Vec<MergedRecord> = Vec::new();
    let mut i: usize = 0;
    while i < v.len()
        invariant
            i <= v@.len(),
            types_distinct(v@),
            sorted_by_type(out@),
            out@.len() == i,
            forall|x: MergedRecord| out@.contains(x) <==> v@.take(i as int).contains(x),
        decreases v@.len() - i,
    {
        let x = v[i].duplicate();
        assert forall|k: int| 0 <= k < out@.len() implies #[trigger] out@[k].instance_type@ != x.instance_type@ by {
            assert(out@.contains(out@[k]));
            let m = choose|m: int| 0 <= m < i && v@.take(i as int)[m] == out@[k];
            assert(v@[m] == out@[k]);
        }
        let mut p: usize = 0;
        while p < out.len() && !text_less(x.instance_type.as_str(), out[p].instance_type.as_str())
            invariant
                p <= out@.len(),
                forall|k: int| 0 <= k < p ==> text_lt(#[trigger] out@[k].instance_type@, x.instance_type@),
                forall|k: int| 0 <= k < out@.len() ==> #[trigger] out@[k].instance_type@ != x.instance_type@,
            decreases out@.len() - p,
        {
            proof {
                lemma_text_order(x.instance_type@, out@[p as int].instance_type@, x.instance_type@);
            }
            p = p + 1;
        }
        let ghost before = out@;
        out.insert(p, x);
        assert(out@ == before.insert(p as int, x));
        assert forall|a: int, b: int| 0 <= a < b < out@.len() implies text_lt(
            #[trigger] out@[a].instance_type@,
            #[trigger] out@[b].instance_type@,
        ) by {
            if b < p {
                assert(out@[a] == before[a] && out@[b] == before[b]);
            } else if b == p {
                assert(out@[a] == before[a]);
            } else if a == p {
                assert(out@[b] == before[b - 1]);
                if b - 1 > p {
                    assert(text_lt(before[p as int].instance_type@, before[b - 1].instance_type@));
                    lemma_text_order(x.instance_type@, before[p as int].instance_type@, before[b - 1].instance_type@);
                }
            } else if a < p {
                assert(out@[a] == before[a] && out@[b] == before[b - 1]);
            } else {
                assert(out@[a] == before[a - 1] && out@[b] == before[b - 1]);
            }
        }
        assert forall|y: MergedRecord| out@.contains(y) <==> v@.take(i as int + 1).contains(y) by {
            assert(v@.take(i as int + 1) == v@.take(i as int).push(v@[i as int]));
            lemma_contains_push(v@.take(i as int), v@[i as int], y);
            if out@.contains(y) {
                let k = choose|k: int| 0 <= k < out@.len() && out@[k] == y;
                if k < p {
                    assert(before[k] == y);
                    assert(before.contains(y));
                } else if k > p {
                    assert(before[k - 1] == y);
                    assert(before.contains(y));
                }
            }
            if v@.take(i as int + 1).contains(y) {
                if y == x {
                    assert(out@[p as int] == y);
                } else {
                    assert(v@.take(i as int).contains(y));
                    assert(before.contains(y));
                    let k = choose|k: int| 0 <= k < before.len() && before[k] == y;
                    if k < p {
                        assert(out@[k] == y);
                    } else {
                        assert(out@[k + 1] == y);
                    }
                }
            }
        }
        i = i + 1;
    }
    assert(v@.take(v@.len() as int) =~= v@);
    out
}

/// The records of `region` whose instance type matches `filter` (all of them
/// when there is none), in increasing order of instance type. A region that
/// no record names gives an empty selection.
pub fn select_records(merged: &Vec<MergedRecord>, region: &str, filter: Option<&str>) -> (r: Vec<MergedRecord>)
    requires
        keys_unique(merged@),
    ensures
        sorted_by_type(r@),
        forall|x: MergedRecord| r@.contains(x) <==> (merged@.contains(x) && selected(x, region@, filter_view(filter))),
        (forall|k: int| 0 <= k < merged@.len() ==> #[trigger] merged@[k].region@ != region@) ==> r@.len() == 0,
{
    let ghost f = filter_view(filter);
    let mut kept: Vec<MergedRecord> = Vec::new();
    let mut i: usize = 0;
    while i < merged.len()
        invariant
            i <= merged@.len(),
            keys_unique(merged@),
            f == filter_view(filter),
            forall|k: int| 0 <= k < kept@.len() ==> (#[trigger] kept@[k]).region@ == region@,
            forall|k: int| 0 <= k < kept@.len() ==> exists|m: int| 0 <= m < i && merged@[m] == #[trigger] kept@[k],
            types_distinct(kept@),
            forall|x: MergedRecord| kept@.contains(x) <==> (merged@.take(i as int).contains(x) && selected(x, region@, f)),
        decreases merged@.len() - i,
    {
        let rec = &merged[i];
        let keep = same_text(rec.region.as_str(), region) && match filter {
            Some(flt) => matches_filter(rec.instance_type.as_str(), flt),
            None => true,
        };
        assert(merged@.take(i as int + 1) == merged@.take(i as int).push(merged@[i as int]));
        if keep {
            let x = rec.duplicate();
            let ghost before = kept@;
            assert forall|k: int| 0 <= k < before.len() implies #[trigger] before[k].instance_type@ != x.instance_type@ by {
                let m = choose|m: int| 0 <= m < i && merged@[m] == before[k];
                assert(merged@[m].key() != merged@[i as int].key());
            }
            kept.push(x);
            assert forall|k: int| 0 <= k < kept@.len() implies exists|m: int| 0 <= m < i + 1 && merged@[m] == #[trigger] kept@[k] by {
                if k < before.len() {
                    assert(kept@[k] == before[k]);
                    let m = choose|m: int| 0 <= m < i && merged@[m] == before[k];
                    assert(merged@[m] == kept@[k]);
                } else {
                    assert(merged@[i as int] == kept@[k]);
                }
            }
            assert forall|a: int, b: int| 0 <= a < kept@.len() && 0 <= b < kept@.len() && a != b implies #[trigger] kept@[a].instance_type@ != #[trigger] kept@[b].instance_type@ by {
                if a < before.len() && b < before.len() {
                    assert(kept@[a] == before[a] && kept@[b] == before[b]);
                } else if a < before.len() {
                    assert(kept@[a] == before[a]);
                } else {
                    assert(kept@[b] == before[b]);
                }
            }
            assert forall|y: MergedRecord| kept@.contains(y) <==> (merged@.take(i as int + 1).contains(y) && selected(y, region@, f)) by {
                lemma_contains_push(merged@.take(i as int), merged@[i as int], y);
                lemma_contains_push(before, x, y);
                if before.contains(y) {
                    assert(merged@.take(i as int).contains(y) && selected(y, region@, f));
                }
                if merged@.take(i as int).contains(y) && selected(y, region@, f) {
                    assert(before.contains(y));
                }
            }
        } else {
            assert forall|k: int| 0 <= k < kept@.len() implies exists|m: int| 0 <= m < i + 1 && merged@[m] == #[trigger] kept@[k] by {
                let m = choose|m: int| 0 <= m < i && merged@[m] == kept@[k];
                assert(merged@[m] == kept@[k]);
            }
            assert forall|y: MergedRecord| kept@.contains(y) <==> (merged@.take(i as int + 1).contains(y) && selected(y, region@, f)) by {
                lemma_contains_push(merged@.take(i as int), merged@[i as int], y);
                if kept@.contains(y) {
                    assert(merged@.take(i as int).contains(y) && selected(y, region@, f));
                }
                if merged@.take(i as int).contains(y) && selected(y, region@, f) {
                    assert(kept@.contains(y));
                }
            }
        }
        i = i + 1;
    }
    assert(merged@.take(merged@.len() as int) =~= merged@);
    let r = sort_by_type(&kept);
    proof {
        if forall|k: int| 0 <= k < merged@.len() ==> #[trigger] merged@[k].region@ != region@ {
            if r@.len() > 0 {
                assert(r@.contains(r@[0]));
                assert(kept@.contains(r@[0]));
                let m = choose|m: int| 0 <= m < merged@.len() && merged@[m] == r@[0];
            }
        }
    }
    r
}

proof fn lemma_sorted_tail(a: Seq<MergedRecord>, x: MergedRecord)
    requires
        sorted_by_type(a),
        a.len() > 0,
    ensures
        sorted_by_type(a.drop_first()),
        a.drop_first().contains(x) <==> (a.contains(x) && x != a[0]),
{
    if a.drop_first().contains(x) {
        let k = choose|k: int| 0 <= k < a.len() - 1 && a.drop_first()[k] == x;
        assert(a[k + 1] == x);
        assert(text_lt(a[0].instance_type@, a[k + 1].instance_type@));
        lemma_text_order(a[0].instance_type@, a[0].instance_type@, a[0].instance_type@);
    }
    if a.contains(x) && x != a[0] {
        let k = choose|k: int| 0 <= k < a.len() && a[k] == x;
        assert(a.drop_first()[k - 1] == x);
    }
    assert forall|i: int, j: int| 0 <= i < j < a.drop_first().len() implies text_lt(
        #[trigger] a.drop_first()[i].instance_type@,
        #[trigger] a.drop_first()[j].instance_type@,
    ) by {
        assert(a.drop_first()[i] == a[i + 1] && a.drop_first()[j] == a[j + 1]);
    }
}

/// The order of a selection is fixed by its records alone: two sequences that
/// hold the same records, each in increasing order of instance type, are the
/// same sequence, whatever order the records were visited in.
pub proof fn lemma_sorted_unique(a: Seq<MergedRecord>, b: Seq<MergedRecord>)
    requires
        sorted_by_type(a),
        sorted_by_type(b),
        forall|x: MergedRecord| a.contains(x) <==> b.contains(x),
    ensures
        a == b,
    decreases a.len(),
{
    if a.len() == 0 {
        if b.len() > 0 {
            assert(b.contains(b[0]));
        }
        assert(a =~= b);
    } else {
        assert(a.contains(a[0]));
        assert(b.contains(a[0]));
        assert(b.contains(b[0]));
        assert(a.contains(b[0]));
        let i = choose|i: int| 0 <= i < a.len() && a[i] == b[0];
        let j = choose|j: int| 0 <= j < b.len() && b[j] == a[0];
        lemma_text_order(a[0].instance_type@, b[0].instance_type@, a[0].instance_type@);
        lemma_text_order(b[0].instance_type@, a[0].instance_type@, b[0].instance_type@);
        if i > 0 {
            assert(text_lt(a[0].instance_type@, a[i].instance_type@));
        }
        if j > 0 {
            assert(text_lt(b[0].instance_type@, b[j].instance_type@));
        }
        assert(a[0] == b[0]);
        assert forall|x: MergedRecord| a.drop_first().contains(x) <==> b.drop_first().contains(x) by {
            lemma_sorted_tail(a, x);
            lemma_sorted_tail(b, x);
        }
        lemma_sorted_tail(a, a[0]);
        lemma_sorted_tail(b, b[0]);
        lemma_sorted_unique(a.drop_first(), b.drop_first());
        assert(a =~= b.drop_first().insert(0, b[0]));
        assert(b =~= b.drop_first().insert(0, b[0]));
    }
}

} // verus!
