//! The integer vocabulary of parsed skill mechanics: who a clause counts,
//! where it looks, which rooms it reaches and which formulas it filters.
//!
//! Anything the description parser can name but not quantify is kept as an
//! explicit `Unmodeled` variant rather than silently dropped, so coverage
//! stays honest and the evaluator can warn instead of guessing.

use vstd::prelude::*;
use crate::enums::{ProductType, Profession, RoomType};
use crate::ids::{OperatorId, PowerId};

verus! {

/// Upstream stacking note.
#[derive(Debug, Clone, Copy, PartialEq, Eq, Structural)]
pub enum Stacking {
    /// Adds with everything else (the default).
    Additive,
    /// "Only the strongest effect of this type takes place."
    StrongestOfType,
}

/// A reference to a specific operator by display name. `id` is filled in
/// when the name resolves against the loaded operator table.
#[derive(Debug, Clone, PartialEq, Eq)]
pub struct OperatorRef {
    /// Display name as written in the description, e.g. `Texas`.
    pub name: String,
    /// Resolved id, if the name matched exactly one operator.
    pub id: Option<OperatorId>,
}

impl OperatorRef {
    /// An unresolved reference.
    pub fn named(name: &str) -> (r: Self)
        ensures
            r.name@ == name@,
            r.id is None,
    {
        OperatorRef { name: name.to_owned(), id: None }
    }
}

/// A set of operators, used by counters and predicates.
#[derive(Debug, Clone, PartialEq, Eq)]
pub enum Group {
    /// Nation, group, or team from the handbook team table.
    Power(PowerId),
    /// An upstream glossary tag with no table behind it (e.g. `knight`,
    /// `op` for Operation Platforms). Membership is defined elsewhere.
    Tag(String),
    /// An operator class.
    Profession(Profession),
    /// A subclass by display name, e.g. `Wandering Medic`.
    Subclass(String),
}

/// Where a counter looks.
#[derive(Debug, Clone, Copy, PartialEq, Eq, Structural)]
pub enum CountScope {
    /// The room this operator is assigned to.
    SameRoom,
    /// Anywhere in the base (upstream: "excluding Assistants and Activity
    /// Room users").
    Base,
    /// Any room of the given kind.
    Rooms(RoomType),
    /// Any room except Dormitories.
    WorkAreas,
    /// The room receiving the effect, for effects that reach every room of
    /// a kind but scale with who is in each of those rooms.
    TargetRoom,
}

/// A stat other operators contribute, for "for every N X provided by all
/// other operators" counters.
#[derive(Debug, Clone, Copy, PartialEq, Eq, Structural)]
pub enum Stat {
    Productivity,
    OrderEfficiency,
    OrderLimit,
    Capacity,
}

/// Something that can be counted to scale an effect.
#[derive(Debug, Clone, PartialEq, Eq)]
pub enum Counter {
    /// Operators in a group within a scope. The skill owner counts when they
    /// are in the group and the scope, unless `excluding_self` is set.
    Operators { group: Group, scope: CountScope, excluding_self: bool },
    /// Other operators in this room, any kind.
    OtherOperatorsInRoom,
    /// All operators in this room, including self.
    OperatorsInRoom,
    /// Operators assigned to rooms of a kind, anywhere in the base.
    OperatorsInRooms { room: RoomType },
    /// Number of rooms of a kind in the base.
    RoomCount { room: RoomType },
    /// Sum of levels over every room of a kind.
    RoomLevels { room: RoomType },
    /// Level of the room this operator is in.
    ThisRoomLevel,
    /// Recruitment slots in the Office beyond the default ones.
    RecruitSlots,
    /// Accumulated units of a named resource (e.g. `worldly_plight`).
    Resource { resource: String },
    /// Pure Gold Production Lines (Factories producing gold).
    GoldProductionLines,
    /// Operators in this room whose active skill belongs to a family.
    OperatorsWithSkillFamily { family: String },
    /// Points of a stat contributed by other operators in this room.
    OthersStat { stat: Stat },
    /// This operator's morale deficit below maximum.
    SelfMoodDeficit,
    /// Recognised but not modelled.
    Unmodeled { text: String },
}

/// Which rooms an effect reaches.
#[derive(Debug, Clone, PartialEq, Eq)]
pub enum Scope {
    /// The room this operator is assigned to.
    ThisRoom,
    /// Every room of a kind (Control Center skills).
    AllRooms(RoomType),
    /// The room a named operator is assigned to.
    RoomOf(OperatorRef),
}

/// Who a morale effect applies to.
#[derive(Debug, Clone, PartialEq, Eq)]
pub enum MoodTarget {
    /// The skill owner.
    SelfOnly,
    /// Everyone in this room, including self.
    AllInRoom,
    /// Everyone in this room except self.
    OthersInRoom,
    /// One other operator in this room whose morale is not full.
    OneOtherInRoom,
    /// Everyone assigned to rooms of a kind, anywhere in the base.
    Rooms(RoomType),
    /// Everyone working in a non-Dormitory room.
    AllWorkAreas,
    /// A specific operator, wherever they are.
    Named(OperatorRef),
    /// Split evenly among operators in this room whose morale is not full.
    DistributedInRoom,
}

/// Which Workshop materials an effect applies to.
#[derive(Debug, Clone, PartialEq, Eq)]
pub enum MaterialFilter {
    /// Every formula.
    Any,
    /// A product family (elite materials, skill summaries, ...).
    Product(ProductType),
    /// A named material family, e.g. `Device`, `Crystal`.
    Named(String),
}

/// A filter on a formula's base morale cost.
#[derive(Debug, Clone, Copy, PartialEq, Eq, Structural)]
pub enum CostFilter {
    Exactly(u32),
    AtLeast(u32),
}

} // verus!
