//! Interruption-rate buckets derived from the advisor's integer code.
use vstd::prelude::*;

verus! {

/// Discrete interruption-risk category.
#[derive(Clone, Copy, Debug, PartialEq, Eq, Structural)]
pub enum InterruptionBucket {
    UnderFive,
    FiveToTen,
    TenToFifteen,
    FifteenToTwenty,
    OverTwenty,
}

/// The bucket that an advisor code stands for: codes 0 to 3 index the first
/// four buckets, every larger code means more than twenty percent.
pub open spec fn bucket_of(code: u64) -> InterruptionBucket {
    if code == 0 {
        InterruptionBucket::UnderFive
    } else if code == 1 {
        InterruptionBucket::FiveToTen
    } else if code == 2 {
        InterruptionBucket::TenToFifteen
    } else if code == 3 {
        InterruptionBucket::FifteenToTwenty
    } else {
        InterruptionBucket::OverTwenty
    }
}

/// The text shown for a bucket.
pub open spec fn label_of(b: InterruptionBucket) -> Seq<char> {
    match b {
        InterruptionBucket::UnderFive => "<5%"@,
        InterruptionBucket::FiveToTen => "5-10%"@,
        InterruptionBucket::TenToFifteen => "10-15%"@,
        InterruptionBucket::FifteenToTwenty => "15-20%"@,
        InterruptionBucket::OverTwenty => ">20%"@,
    }
}

impl InterruptionBucket {
    /// Maps an advisor code to its bucket.
    pub fn from_code(code: u64) -> (r: InterruptionBucket)
        ensures
            r == bucket_of(code),
    {
        if code == 0 {
            InterruptionBucket::UnderFive
        } else if code == 1 {
            InterruptionBucket::FiveToTen
        } else if code == 2 {
            InterruptionBucket::TenToFifteen
        } else if code == 3 {
            InterruptionBucket::FifteenToTwenty
        } else {
            InterruptionBucket::OverTwenty
        }
    }

    /// The label of this bucket, as shown in a report.
    pub fn label(&self) -> (r: String)
        ensures
            r@ == label_of(*self),
    {
        match self {
            InterruptionBucket::UnderFive => String::from_str("<5%"),
            InterruptionBucket::FiveToTen => String::from_str("5-10%"),
            InterruptionBucket::TenToFifteen => String::from_str("10-15%"),
            InterruptionBucket::FifteenToTwenty => String::from_str("15-20%"),
            InterruptionBucket::OverTwenty => String::from_str(">20%"),
        }
    }
}

/// Every code of four or more falls in the highest bucket, and smaller codes
/// select distinct buckets.
pub proof fn lemma_bucket_mapping(code: u64)
    ensures
        code >= 4 ==> bucket_of(code) == InterruptionBucket::OverTwenty,
        code < 4 ==> bucket_of(code) != InterruptionBucket::OverTwenty,
        forall|other: u64| other < 4 && code < 4 && other != code ==> bucket_of(other) != bucket_of(code),
{
}

} // verus!
