//! Armor quality and mitigation.

use vstd::prelude::*;

verus! {

#[derive(Clone, Copy, Debug, PartialEq, Eq, Structural)]
pub enum ArmorQuality {
    Poor,
    Common,
    Good,
    Superior,
    Legendary,
}

/// How much a quality multiplies the base mitigation.
pub open spec fn spec_mitigation_multiplier(q: ArmorQuality) -> u32 {
    match q {
        ArmorQuality::Poor => 1,
        ArmorQuality::Common => 2,
        ArmorQuality::Good => 3,
        ArmorQuality::Superior => 5,
        ArmorQuality::Legendary => 8,
    }
}

impl ArmorQuality {
    pub fn mitigation_multiplier(&self) -> (m: u32)
        ensures
            m == spec_mitigation_multiplier(*self),
    {
        match self {
            ArmorQuality::Poor => 1,
            ArmorQuality::Common => 2,
            ArmorQuality::Good => 3,
            ArmorQuality::Superior => 5,
            ArmorQuality::Legendary => 8,
        }
    }
}

pub struct Armor {
    pub base_mitigation: u32,
    pub quality: ArmorQuality,
}

impl Armor {
    /// The base mitigation times the quality's multiplier.
    pub fn mitigation(&self) -> (m: u32)
        requires
            self.base_mitigation * spec_mitigation_multiplier(self.quality) <= u32::MAX,
        ensures
            m == self.base_mitigation * spec_mitigation_multiplier(self.quality),
    {
        self.base_mitigation * self.quality.mitigation_multiplier()
    }
}

} // verus!
