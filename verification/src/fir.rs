//! The French flight information regions.

use vstd::prelude::*;

verus! {

/// A flight information region, by its ICAO code.
#[derive(Debug, Clone, Copy, PartialEq, Eq, PartialOrd, Ord, Hash, Structural)]
pub enum FirCode {
    LFBB,
    LFEE,
    LFFF,
    LFMM,
    LFRR,
}

impl FirCode {
    /// Every region, in the order of their codes.
    pub const ALL: [FirCode; 5] = [
        FirCode::LFBB,
        FirCode::LFEE,
        FirCode::LFFF,
        FirCode::LFMM,
        FirCode::LFRR,
    ];

    /// The region's ICAO code.
    pub open spec fn code(self) -> Seq<char> {
        match self {
            FirCode::LFBB => "LFBB"@,
            FirCode::LFEE => "LFEE"@,
            FirCode::LFFF => "LFFF"@,
            FirCode::LFMM => "LFMM"@,
            FirCode::LFRR => "LFRR"@,
        }
    }

    /// The region's place in [`FirCode::ALL`].
    pub open spec fn rank(self) -> int {
        match self {
            FirCode::LFBB => 0,
            FirCode::LFEE => 1,
            FirCode::LFFF => 2,
            FirCode::LFMM => 3,
            FirCode::LFRR => 4,
        }
    }

    /// The region's ICAO code.
    pub fn as_str(self) -> (r: &'static str)
        ensures
            r@ == self.code(),
    {
        match self {
            FirCode::LFBB => "LFBB",
            FirCode::LFEE => "LFEE",
            FirCode::LFFF => "LFFF",
            FirCode::LFMM => "LFMM",
            FirCode::LFRR => "LFRR",
        }
    }
}

/// Every region stands in [`FirCode::ALL`], at its rank.
pub proof fn law_all_regions_are_listed(fir: FirCode)
    ensures
        0 <= fir.rank() < FirCode::ALL@.len(),
        FirCode::ALL@[fir.rank()] == fir,
{
}

} // verus!
