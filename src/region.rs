//! Validation of the requested region code.
use vstd::prelude::*;
use crate::text::same_text;

verus! {

/// The region codes that the report accepts.
pub open spec fn known_regions() -> Seq<Seq<char>> {
    seq![
        "us-east-1"@, "us-east-2"@, "us-west-1"@, "us-west-2"@, "af-south-1"@, "ap-east-1"@,
        "ap-south-1"@, "ap-south-2"@, "ap-southeast-1"@, "ap-southeast-2"@, "ap-southeast-3"@,
        "ap-southeast-4"@, "ap-northeast-1"@, "ap-northeast-2"@, "ap-northeast-3"@,
        "ca-central-1"@, "ca-west-1"@, "eu-central-1"@, "eu-central-2"@, "eu-west-1"@,
        "eu-west-2"@, "eu-west-3"@, "eu-south-1"@, "eu-south-2"@, "eu-north-1"@,
        "il-central-1"@, "me-south-1"@, "me-central-1"@, "sa-east-1"@,
    ]
}

/// A region code that is not among the known regions.
#[derive(Debug)]
pub struct InvalidRegionError {
    pub region: String,
}

/// The message of an invalid-region error.
pub open spec fn invalid_region_message(region: Seq<char>) -> Seq<char> {
    "Invalid AWS region '"@ + region
        + "'. Please use a valid AWS region code (e.g., us-east-1, eu-west-1, ap-northeast-1)"@
}

impl InvalidRegionError {
    /// The message shown to the user.
    pub fn message(&self) -> (r: String)
        ensures
            r@ == invalid_region_message(self.region@),
    {
        let mut s = String::from_str("Invalid AWS region '");
        s.append(self.region.as_str());
        s.append("'. Please use a valid AWS region code (e.g., us-east-1, eu-west-1, ap-northeast-1)");
        s
    }
}

fn region_names() -> (r: Vec<&'static str>)
    ensures
        r@.len() == known_regions().len(),
        forall|k: int| 0 <= k < r@.len() ==> (#[trigger] r@[k])@ == known_regions()[k],
{
    let r = vec![
        "us-east-1", "us-east-2", "us-west-1", "us-west-2", "af-south-1", "ap-east-1",
        "ap-south-1", "ap-south-2", "ap-southeast-1", "ap-southeast-2", "ap-southeast-3",
        "ap-southeast-4", "ap-northeast-1", "ap-northeast-2", "ap-northeast-3",
        "ca-central-1", "ca-west-1", "eu-central-1", "eu-central-2", "eu-west-1",
        "eu-west-2", "eu-west-3", "eu-south-1", "eu-south-2", "eu-north-1",
        "il-central-1", "me-south-1", "me-central-1", "sa-east-1",
    ];
    r
}

/// Accepts a known region code and rejects any other with an error that
/// carries it.
pub fn validate_region(region: &str) -> (r: Result<(), InvalidRegionError>)
    ensures
        r is Ok <==> known_regions().contains(region@),
        r matches Err(e) ==> e.region@ == region@,
{
    let names = region_names();
    let mut i: usize = 0;
    while i < names.len()
        invariant
            i <= names@.len(),
            names@.len() == known_regions().len(),
            forall|k: int| 0 <= k < names@.len() ==> (#[trigger] names@[k])@ == known_regions()[k],
            forall|k: int| 0 <= k < i ==> known_regions()[k] != region@,
        decreases names@.len() - i,
    {
        if same_text(names[i], region) {
            assert(known_regions()[i as int] == region@);
            return Ok(());
        }
        i = i + 1;
    }
    Err(InvalidRegionError { region: String::from_str(region) })
}

} // verus!
