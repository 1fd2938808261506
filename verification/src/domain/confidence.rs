//! How strongly evidence supports a derived fact.

use vstd::prelude::*;

verus! {

#[derive(Clone, Copy, PartialEq, Eq, Debug, Structural)]
pub enum Confidence {
    Verified,
    High,
    Partial,
    Unknown,
}

/// The confidence band of a score: 80 and above, 55 to 79, 30 to 54, below 30.
pub open spec fn confidence_from_score(score: u8) -> Confidence {
    if score >= 80 {
        Confidence::Verified
    } else if score >= 55 {
        Confidence::High
    } else if score >= 30 {
        Confidence::Partial
    } else {
        Confidence::Unknown
    }
}

/// Strength order: Unknown < Partial < High < Verified.
pub open spec fn confidence_rank(c: Confidence) -> int {
    match c {
        Confidence::Verified => 4,
        Confidence::High => 3,
        Confidence::Partial => 2,
        Confidence::Unknown => 1,
    }
}

impl Confidence {
    pub fn from_score(score: u8) -> (r: Confidence)
        ensures
            r == confidence_from_score(score),
    {
        if score >= 80 {
            Confidence::Verified
        } else if score >= 55 {
            Confidence::High
        } else if score >= 30 {
            Confidence::Partial
        } else {
            Confidence::Unknown
        }
    }
}

/// A higher score never yields a weaker confidence.
pub proof fn law_from_score_monotone(a: u8, b: u8)
    requires
        a <= b,
    ensures
        confidence_rank(confidence_from_score(a)) <= confidence_rank(confidence_from_score(b)),
{
}

} // verus!
