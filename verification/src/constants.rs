//! Global building constants that have integer parameters: Control Center,
//! Dormitory, Reception Room and Training Room tables.

use vstd::prelude::*;

verus! {

/// Control Center parameters.
#[derive(Debug, Clone, Copy, PartialEq, Eq, Structural)]
pub struct ControlData {
    /// Upstream `basicCostBuff`.
    pub basic_cost_buff: i32,
}

/// Dormitory parameters at one level.
#[derive(Debug, Clone, Copy, PartialEq, Eq, Structural)]
pub struct DormPhase {
    /// Upstream `manpowerRecover` (morale recovery, in upstream units).
    pub manpower_recover: u32,
    /// Maximum ambience (decoration) points.
    pub decoration_limit: u32,
}

/// Dormitory parameters.
#[derive(Debug, Clone, PartialEq, Eq)]
pub struct DormData {
    /// Per level; index 0 is level 1.
    pub phases: Vec<DormPhase>,
}

/// Reception Room parameters at one level.
#[derive(Debug, Clone, Copy, PartialEq, Eq, Structural)]
pub struct MeetingPhase {
    /// Upstream `friendSlotInc`.
    pub friend_slot_inc: u32,
    /// Upstream `maxVisitorNum`.
    pub max_visitor_num: u32,
    /// Upstream `gatheringSpeed` (clue search speed, percent).
    pub gathering_speed: u32,
}

/// Training Room parameters at one level.
#[derive(Debug, Clone, Copy, PartialEq, Eq, Structural)]
pub struct TrainingPhase {
    /// Highest specialisation level trainable.
    pub spec_skill_lvl_limit: u32,
}

} // verus!
