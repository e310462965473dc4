//! The advisor document: its hardware table and its per-region Linux entries.
use vstd::prelude::*;
use crate::bucket::{bucket_of, InterruptionBucket};
use crate::json::Json;
use crate::records::{
    advisor_views, spec_views, AdvisorRecord, AdvisorView, DocumentError, InstanceSpec,
    InstanceSpecView,
};

verus! {

/// The index entry of an instance type whose table value is `info`.
pub open spec fn spec_entry(name: Seq<char>, info: Json) -> InstanceSpecView {
    InstanceSpecView {
        instance_type: name,
        memory_gb: match info.field("ram_gb"@) {
            Some(v) => v.number_text(),
            None => None,
        },
        cores: match info.field("cores"@) {
            Some(v) => v.unsigned(),
            None => None,
        },
    }
}

/// The index built from the members of the hardware table: one entry per
/// member whose value is an object, in table order.
pub open spec fn spec_table(e: Seq<(String, Json)>) -> Seq<InstanceSpecView>
    decreases e.len(),
{
    if e.len() == 0 {
        Seq::empty()
    } else {
        let prev = spec_table(e.drop_last());
        let last = e.last();
        if last.1 is Object {
            prev.push(spec_entry(last.0@, last.1))
        } else {
            prev
        }
    }
}

/// The hardware index of an advisor document; empty when it has no table.
pub open spec fn spec_index_of(doc: Json) -> Seq<InstanceSpecView> {
    match doc.field("instance_types"@) {
        Some(Json::Object(e)) => spec_table(e@),
        _ => Seq::empty(),
    }
}

/// The last index entry for `name`, if any.
pub open spec fn spec_lookup(s: Seq<InstanceSpecView>, name: Seq<char>) -> Option<InstanceSpecView>
    decreases s.len(),
{
    if s.len() == 0 {
        None
    } else if s.last().instance_type == name {
        Some(s.last())
    } else {
        spec_lookup(s.drop_last(), name)
    }
}

/// Builds the hardware index from the advisor document's `instance_types`
/// table. Missing or non-numeric figures are left absent.
pub fn build_spec_index(advisor_doc: &Json) -> (r: Vec<InstanceSpec>)
    ensures
        spec_views(r@) == spec_index_of(*advisor_doc),
{
    let mut out: Vec<InstanceSpec> = Vec::new();
    match advisor_doc.get("instance_types") {
        Some(Json::Object(e)) => {
            let mut i: usize = 0;
            while i < e.len()
                invariant
                    i <= e@.len(),
                    spec_views(out@) == spec_table(e@.take(i as int)),
                decreases e@.len() - i,
            {
                assert(e@.take(i as int + 1).drop_last() =~= e@.take(i as int));
                let name = &e[i].0;
                let info = &e[i].1;
                match info {
                    Json::Object(_) => {
                        let memory_gb = match info.get("ram_gb") {
                            Some(v) => v.as_number_text(),
                            None => None,
                        };
                        let cores = match info.get("cores") {
                            Some(v) => v.as_u64(),
                            None => None,
                        };
                        let entry = InstanceSpec { instance_type: name.clone(), memory_gb, cores };
                        let ghost before = out@;
                        out.push(entry);
                        assert(spec_views(out@) =~= spec_views(before).push(entry@));
                    },
                    _ => {},
                }
                i = i + 1;
            }
            assert(e@.take(e@.len() as int) =~= e@);
        },
        _ => {},
    }
    out
}

/// Finds the memory and core figures recorded for `name`; the last entry wins.
pub fn lookup_spec(specs: &Vec<InstanceSpec>, name: &String) -> (r: (Option<String>, Option<u64>))
    ensures
        match spec_lookup(spec_views(specs@), name@) {
            Some(v) => crate::records::opt_text(r.0) == v.memory_gb && r.1 == v.cores,
            None => r.0 is None && r.1 is None,
        },
{
    let ghost all = spec_views(specs@);
    let mut i: usize = specs.len();
    assert(all.take(i as int) =~= all);
    while i > 0
        invariant
            i <= specs@.len(),
            all == spec_views(specs@),
            spec_lookup(all, name@) == spec_lookup(all.take(i as int), name@),
        decreases i,
    {
        assert(all.take(i as int).drop_last() =~= all.take(i as int - 1));
        if specs[i - 1].instance_type == *name {
            return (specs[i - 1].memory_gb.clone(), specs[i - 1].cores);
        }
        i = i - 1;
    }
    (None, None)
}

/// The value of an integer member, with 0 standing in for one that is
/// missing or not a non-negative integer.
pub open spec fn code_or_zero(f: Option<Json>) -> u64 {
    match f {
        Some(v) => match v.unsigned() {
            Some(n) => n,
            None => 0,
        },
        None => 0,
    }
}

/// The record of instance type `name` in `region`, whose Linux entry is `info`.
pub open spec fn advisor_entry(region: Seq<char>, name: Seq<char>, info: Json) -> AdvisorView {
    AdvisorView {
        instance_type: name,
        region,
        bucket: bucket_of(code_or_zero(info.field("r"@))),
        savings_pct: code_or_zero(info.field("s"@)),
    }
}

/// The records of a region's Linux entries, skipping those that are not objects.
pub open spec fn linux_records(region: Seq<char>, e: Seq<(String, Json)>) -> Seq<AdvisorView>
    decreases e.len(),
{
    if e.len() == 0 {
        Seq::empty()
    } else {
        let prev = linux_records(region, e.drop_last());
        let last = e.last();
        if last.1 is Object {
            prev.push(advisor_entry(region, last.0@, last.1))
        } else {
            prev
        }
    }
}

/// The records of one region of the advisor tree; none without a `Linux` object.
pub open spec fn region_records(region: Seq<char>, data: Json) -> Seq<AdvisorView> {
    match data.field("Linux"@) {
        Some(Json::Object(e)) => linux_records(region, e@),
        _ => Seq::empty(),
    }
}

/// The records of every region of the advisor tree, region by region.
pub open spec fn advisor_table(regions: Seq<(String, Json)>) -> Seq<AdvisorView>
    decreases regions.len(),
{
    if regions.len() == 0 {
        Seq::empty()
    } else {
        advisor_table(regions.drop_last()) + region_records(regions.last().0@, regions.last().1)
    }
}

/// The advisor records of a document, or nothing when it has no `spot_advisor` object.
pub open spec fn advisor_records_of(doc: Json) -> Option<Seq<AdvisorView>> {
    match doc.field("spot_advisor"@) {
        Some(Json::Object(r)) => Some(advisor_table(r@)),
        _ => None,
    }
}

fn linux_records_into(region: &String, e: &Vec<(String, Json)>, out: &mut Vec<AdvisorRecord>)
    ensures
        advisor_views(final(out)@) == advisor_views(old(out)@) + linux_records(region@, e@),
{
    let ghost start = advisor_views(out@);
    let mut i: usize = 0;
    assert(start =~= start + linux_records(region@, e@.take(0)));
    while i < e.len()
        invariant
            i <= e@.len(),
            advisor_views(out@) == start + linux_records(region@, e@.take(i as int)),
        decreases e@.len() - i,
    {
        assert(e@.take(i as int + 1).drop_last() =~= e@.take(i as int));
        let name = &e[i].0;
        let info = &e[i].1;
        match info {
            Json::Object(_) => {
                let code = match info.get("r") {
                    Some(v) => match v.as_u64() {
                        Some(n) => n,
                        None => 0,
                    },
                    None => 0,
                };
                let savings = match info.get("s") {
                    Some(v) => match v.as_u64() {
                        Some(n) => n,
                        None => 0,
                    },
                    None => 0,
                };
                let rec = AdvisorRecord {
                    instance_type: name.clone(),
                    region: region.clone(),
                    bucket: InterruptionBucket::from_code(code),
                    savings_pct: savings,
                };
                let ghost before = out@;
                out.push(rec);
                assert(advisor_views(out@) =~= advisor_views(before).push(rec@));
            },
            _ => {},
        }
        i = i + 1;
    }
    assert(e@.take(e@.len() as int) =~= e@);
}

/// Reads every region's Linux entries from the advisor document.
pub fn advisor_records(advisor_doc: &Json) -> (r: Result<Vec<AdvisorRecord>, DocumentError>)
    ensures
        match advisor_records_of(*advisor_doc) {
            Some(s) => r matches Ok(v) && advisor_views(v@) == s,
            None => r == Err::<Vec<AdvisorRecord>, DocumentError>(DocumentError::MissingAdvisorTable),
        },
{
    match advisor_doc.get("spot_advisor") {
        Some(Json::Object(regions)) => {
            let mut out: Vec<AdvisorRecord> = Vec::new();
            let mut i: usize = 0;
            assert(advisor_views(out@) =~= advisor_table(regions@.take(0)));
            while i < regions.len()
                invariant
                    i <= regions@.len(),
                    advisor_views(out@) == advisor_table(regions@.take(i as int)),
                decreases regions@.len() - i,
            {
                assert(regions@.take(i as int + 1).drop_last() =~= regions@.take(i as int));
                let name = &regions[i].0;
                match regions[i].1.get("Linux") {
                    Some(Json::Object(e)) => {
                        linux_records_into(name, e, &mut out);
                    },
                    _ => {
                        assert(advisor_views(out@) =~= advisor_views(out@) + Seq::<AdvisorView>::empty());
                    },
                }
                i = i + 1;
            }
            assert(regions@.take(regions@.len() as int) =~= regions@);
            Ok(out)
        },
        _ => Err(DocumentError::MissingAdvisorTable),
    }
}

} // verus!
