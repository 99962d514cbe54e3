//! Nations, groups, and teams ("powers" upstream), e.g. Rhodes Island,
//! Rhine Lab, Reserve Op Team A4.

use vstd::prelude::*;
use crate::ids::PowerId;

verus! {

/// The three tiers of affiliation. Upstream encodes these as `powerLevel`
/// 0, 1, 2 and stores the id in `nationId`, `groupId`, `teamId` respectively.
#[derive(Debug, Clone, Copy, PartialEq, Eq, Hash, PartialOrd, Ord, Structural)]
pub enum PowerLevel {
    /// e.g. Rhodes Island, Victoria.
    Nation,
    /// e.g. Rhine Lab, Penguin Logistics.
    Group,
    /// e.g. Reserve Op Team A4, Rainbow.
    Team,
}

impl PowerLevel {
    /// The upstream integer of a level.
    pub open spec fn code(self) -> int {
        match self {
            PowerLevel::Nation => 0,
            PowerLevel::Group => 1,
            PowerLevel::Team => 2,
        }
    }

    /// Maps the upstream integer encoding: 0, 1, 2 to nation, group, team,
    /// and anything else to `None`.
    pub fn from_upstream(level: i64) -> (r: Option<Self>)
        ensures
            match r {
                Some(p) => p.code() == level,
                None => !(0 <= level <= 2),
            },
    {
        match level {
            0 => Some(PowerLevel::Nation),
            1 => Some(PowerLevel::Group),
            2 => Some(PowerLevel::Team),
            _ => None,
        }
    }

    /// Lower-case English label.
    pub open spec fn spec_str(self) -> Seq<char> {
        match self {
            PowerLevel::Nation => "nation"@,
            PowerLevel::Group => "group"@,
            PowerLevel::Team => "team"@,
        }
    }

    /// Lower-case English label.
    pub fn as_str(self) -> (r: &'static str)
        ensures
            r@ == self.spec_str(),
    {
        match self {
            PowerLevel::Nation => "nation",
            PowerLevel::Group => "group",
            PowerLevel::Team => "team",
        }
    }
}

/// A nation, group, or team.
#[derive(Debug, Clone, PartialEq, Eq)]
pub struct Power {
    /// Upstream id, e.g. `rhine`.
    pub id: PowerId,
    /// Localised display name, e.g. `Rhine Lab`.
    pub name: String,
    /// Short code, e.g. `Rhine·Lab`.
    pub code: String,
    /// Which tier of affiliation this is.
    pub level: PowerLevel,
    /// Upstream display ordering.
    pub order: i32,
}

} // verus!
