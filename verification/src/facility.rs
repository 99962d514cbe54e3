//! Room kinds and their per-level parameters.

use vstd::prelude::*;
use crate::enums::{RoomCategory, RoomType};
use crate::layout::GridSize;

verus! {

/// One upgrade level of a room kind.
#[derive(Debug, Clone, Copy, PartialEq, Eq, Structural)]
pub struct FacilityPhase {
    /// 1-based level.
    pub level: u8,
    /// Power draw (negative) or supply (positive) at this level.
    pub electricity: i32,
    /// How many operators can be stationed.
    pub max_stationed: u8,
    /// Upstream `manpowerCost`.
    pub manpower_cost: i32,
    /// Drones required to build this level.
    pub build_labor: i32,
}

/// A kind of room, with its parameters at every level.
#[derive(Debug, Clone, PartialEq, Eq)]
pub struct Facility {
    /// Which room this describes.
    pub room_type: RoomType,
    /// Localised display name.
    pub name: String,
    /// Localised flavour description.
    pub description: String,
    /// Upstream grouping.
    pub category: RoomCategory,
    /// Maximum number of this room a base may contain; `None` means
    /// unlimited (elevators and corridors).
    pub max_count: Option<u32>,
    /// Footprint in the layout grid.
    pub size: GridSize,
    /// Per-level parameters; index 0 is level 1.
    pub phases: Vec<FacilityPhase>,
}

impl Facility {
    /// Highest upgrade level: the number of phases, saturating at 255.
    pub open spec fn spec_max_level(&self) -> u8 {
        if self.phases@.len() <= 255 {
            self.phases@.len() as u8
        } else {
            255
        }
    }

    /// Parameters at a 1-based level, if the kind has that level.
    pub open spec fn spec_phase(&self, level: u8) -> Option<FacilityPhase> {
        if 1 <= level && level <= self.phases@.len() {
            Some(self.phases@[level - 1])
        } else {
            None
        }
    }

    /// Highest upgrade level.
    pub fn max_level(&self) -> (r: u8)
        ensures
            r == self.spec_max_level(),
    {
        if self.phases.len() <= 255 {
            self.phases.len() as u8
        } else {
            255
        }
    }

    /// Parameters at a 1-based level.
    pub fn phase(&self, level: u8) -> (r: Option<&FacilityPhase>)
        ensures
            match r {
                Some(p) => self.spec_phase(level) == Some(*p),
                None => self.spec_phase(level) is None,
            },
    {
        if level == 0 {
            return None;
        }
        let i = (level - 1) as usize;
        if i < self.phases.len() {
            Some(&self.phases[i])
        } else {
            None
        }
    }

    /// Whether operators can be stationed here at any level: some phase
    /// takes at least one operator.
    pub fn is_staffable(&self) -> (r: bool)
        ensures
            r == exists|i: int| 0 <= i < self.phases@.len() && self.phases@[i].max_stationed > 0,
    {
        let mut i: usize = 0;
        while i < self.phases.len()
            invariant
                i <= self.phases@.len(),
                forall|j: int| 0 <= j < i ==> self.phases@[j].max_stationed == 0,
            decreases self.phases@.len() - i,
        {
            if self.phases[i].max_stationed > 0 {
                return true;
            }
            i = i + 1;
        }
        false
    }
}

} // verus!
