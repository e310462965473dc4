//! The records that the reconcilers produce, and their mathematical views.
use vstd::prelude::*;
use crate::bucket::InterruptionBucket;

verus! {

/// The characters of an optional string.
pub open spec fn opt_text(o: Option<String>) -> Option<Seq<char>> {
    match o {
        Some(s) => Some(s@),
        None => None,
    }
}

/// A copy of an optional string.
pub fn copy_text(o: &Option<String>) -> (r: Option<String>)
    ensures
        r == *o,
{
    match o {
        Some(s) => Some(s.clone()),
        None => None,
    }
}

/// Hardware figures of one instance type.
#[derive(Debug)]
pub struct InstanceSpec {
    pub instance_type: String,
    /// Memory in GB, as decimal text.
    pub memory_gb: Option<String>,
    pub cores: Option<u64>,
}

pub struct InstanceSpecView {
    pub instance_type: Seq<char>,
    pub memory_gb: Option<Seq<char>>,
    pub cores: Option<u64>,
}

impl View for InstanceSpec {
    type V = InstanceSpecView;

    open spec fn view(&self) -> InstanceSpecView {
        InstanceSpecView {
            instance_type: self.instance_type@,
            memory_gb: opt_text(self.memory_gb),
            cores: self.cores,
        }
    }
}

/// Interruption risk and savings of one instance type in one region, for Linux.
#[derive(Debug)]
pub struct AdvisorRecord {
    pub instance_type: String,
    pub region: String,
    pub bucket: InterruptionBucket,
    pub savings_pct: u64,
}

pub struct AdvisorView {
    pub instance_type: Seq<char>,
    pub region: Seq<char>,
    pub bucket: InterruptionBucket,
    pub savings_pct: u64,
}

impl View for AdvisorRecord {
    type V = AdvisorView;

    open spec fn view(&self) -> AdvisorView {
        AdvisorView {
            instance_type: self.instance_type@,
            region: self.region@,
            bucket: self.bucket,
            savings_pct: self.savings_pct,
        }
    }
}

/// Current spot prices of one instance type in one region.
#[derive(Debug)]
pub struct PriceRecord {
    pub instance_type: String,
    pub region: String,
    pub linux_price: Option<String>,
    pub windows_price: Option<String>,
}

pub struct PriceView {
    pub instance_type: Seq<char>,
    pub region: Seq<char>,
    pub linux_price: Option<Seq<char>>,
    pub windows_price: Option<Seq<char>>,
}

impl View for PriceRecord {
    type V = PriceView;

    open spec fn view(&self) -> PriceView {
        PriceView {
            instance_type: self.instance_type@,
            region: self.region@,
            linux_price: opt_text(self.linux_price),
            windows_price: opt_text(self.windows_price),
        }
    }
}

pub open spec fn spec_views(s: Seq<InstanceSpec>) -> Seq<InstanceSpecView> {
    s.map_values(|x: InstanceSpec| x@)
}

pub open spec fn advisor_views(s: Seq<AdvisorRecord>) -> Seq<AdvisorView> {
    s.map_values(|x: AdvisorRecord| x@)
}

pub open spec fn price_views(s: Seq<PriceRecord>) -> Seq<PriceView> {
    s.map_values(|x: PriceRecord| x@)
}

} // verus!

verus! {

/// A source document lacks the top-level part that the reconciler needs.
#[derive(Clone, Copy, Debug, PartialEq, Eq, Structural)]
pub enum DocumentError {
    /// The advisor document has no `spot_advisor` object.
    MissingAdvisorTable,
    /// The price document has no `config.regions` array.
    MissingPriceRegions,
}

} // verus!
