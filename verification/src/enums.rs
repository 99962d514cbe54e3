//! Closed enums for vocabularies fixed by the game client. Each variant
//! parses from exactly one upstream string, and any other string is refused
//! with an `UnknownVariant` naming the enum.

use vstd::prelude::*;
use crate::text::str_eq;

verus! {

/// Error returned when an upstream string matches no variant of a closed enum.
#[derive(Debug, Clone, PartialEq, Eq)]
pub struct UnknownVariant {
    /// Name of the enum type that rejected the value.
    pub enum_name: &'static str,
    /// The offending upstream value.
    pub value: String,
}

/// Every kind of room in the base, including the non-staffable ones.
#[derive(Debug, Clone, Copy, PartialEq, Eq, Hash, PartialOrd, Ord, Structural)]
pub enum RoomType {
    /// Control Center.
    Control,
    /// Power Plant.
    Power,
    /// Factory.
    Manufacture,
    /// Trading Post.
    Trading,
    Dormitory,
    /// The Doctor's private quarters. Cosmetic; no base skills target it.
    Private,
    Workshop,
    /// Office (upstream calls it `HIRE`).
    Hire,
    /// Training Room.
    Training,
    /// Reception Room (upstream calls it `MEETING`).
    Meeting,
    Elevator,
    Corridor,
}

impl RoomType {
    /// Position in declaration order, which is the order kinds sort in.
    pub open spec fn rank(self) -> int {
        match self {
            RoomType::Control => 0,
            RoomType::Power => 1,
            RoomType::Manufacture => 2,
            RoomType::Trading => 3,
            RoomType::Dormitory => 4,
            RoomType::Private => 5,
            RoomType::Workshop => 6,
            RoomType::Hire => 7,
            RoomType::Training => 8,
            RoomType::Meeting => 9,
            RoomType::Elevator => 10,
            RoomType::Corridor => 11,
        }
    }

    /// Position in declaration order.
    pub(crate) fn index(self) -> (r: u8)
        ensures
            r as int == self.rank(),
    {
        match self {
            RoomType::Control => 0,
            RoomType::Power => 1,
            RoomType::Manufacture => 2,
            RoomType::Trading => 3,
            RoomType::Dormitory => 4,
            RoomType::Private => 5,
            RoomType::Workshop => 6,
            RoomType::Hire => 7,
            RoomType::Training => 8,
            RoomType::Meeting => 9,
            RoomType::Elevator => 10,
            RoomType::Corridor => 11,
        }
    }

    /// Every variant, in declaration order.
    pub const ALL: [RoomType; 12] = [
        RoomType::Control,
        RoomType::Power,
        RoomType::Manufacture,
        RoomType::Trading,
        RoomType::Dormitory,
        RoomType::Private,
        RoomType::Workshop,
        RoomType::Hire,
        RoomType::Training,
        RoomType::Meeting,
        RoomType::Elevator,
        RoomType::Corridor,
    ];

    /// The upstream string of a variant.
    pub open spec fn spec_str(self) -> Seq<char> {
        match self {
            RoomType::Control => "CONTROL"@,
            RoomType::Power => "POWER"@,
            RoomType::Manufacture => "MANUFACTURE"@,
            RoomType::Trading => "TRADING"@,
            RoomType::Dormitory => "DORMITORY"@,
            RoomType::Private => "PRIVATE"@,
            RoomType::Workshop => "WORKSHOP"@,
            RoomType::Hire => "HIRE"@,
            RoomType::Training => "TRAINING"@,
            RoomType::Meeting => "MEETING"@,
            RoomType::Elevator => "ELEVATOR"@,
            RoomType::Corridor => "CORRIDOR"@,
        }
    }

    /// The upstream string this variant is parsed from.
    pub fn as_str(self) -> (r: &'static str)
        ensures
            r@ == self.spec_str(),
    {
        match self {
            RoomType::Control => "CONTROL",
            RoomType::Power => "POWER",
            RoomType::Manufacture => "MANUFACTURE",
            RoomType::Trading => "TRADING",
            RoomType::Dormitory => "DORMITORY",
            RoomType::Private => "PRIVATE",
            RoomType::Workshop => "WORKSHOP",
            RoomType::Hire => "HIRE",
            RoomType::Training => "TRAINING",
            RoomType::Meeting => "MEETING",
            RoomType::Elevator => "ELEVATOR",
            RoomType::Corridor => "CORRIDOR",
        }
    }

    /// Distinct variants have distinct upstream strings.
    pub proof fn lemma_str_injective(a: RoomType, b: RoomType)
        requires
            a.spec_str() == b.spec_str(),
        ensures
            a == b,
    {
        reveal_strlit("CONTROL");
        reveal_strlit("POWER");
        reveal_strlit("MANUFACTURE");
        reveal_strlit("TRADING");
        reveal_strlit("DORMITORY");
        reveal_strlit("PRIVATE");
        reveal_strlit("WORKSHOP");
        reveal_strlit("HIRE");
        reveal_strlit("TRAINING");
        reveal_strlit("MEETING");
        reveal_strlit("ELEVATOR");
        reveal_strlit("CORRIDOR");
        match (a, b) {
            (RoomType::Control, RoomType::Control) => {}
            (RoomType::Control, RoomType::Power) => { assert("CONTROL"@.len() == 7); assert("POWER"@.len() == 5); assert(a.spec_str() == "CONTROL"@); assert(b.spec_str() == "POWER"@); assert(a.spec_str().len() != b.spec_str().len()); }
            (RoomType::Control, RoomType::Manufacture) => { assert("CONTROL"@.len() == 7); assert("MANUFACTURE"@.len() == 11); assert(a.spec_str() == "CONTROL"@); assert(b.spec_str() == "MANUFACTURE"@); assert(a.spec_str().len() != b.spec_str().len()); }
            (RoomType::Control, RoomType::Trading) => { assert("CONTROL"@[0] == 'C'); assert("TRADING"@[0] == 'T'); assert(a.spec_str() == "CONTROL"@); assert(b.spec_str() == "TRADING"@); assert(a.spec_str()[0] != b.spec_str()[0]); }
            (RoomType::Control, RoomType::Dormitory) => { assert("CONTROL"@.len() == 7); assert("DORMITORY"@.len() == 9); assert(a.spec_str() == "CONTROL"@); assert(b.spec_str() == "DORMITORY"@); assert(a.spec_str().len() != b.spec_str().len()); }
            (RoomType::Control, RoomType::Private) => { assert("CONTROL"@[0] == 'C'); assert("PRIVATE"@[0] == 'P'); assert(a.spec_str() == "CONTROL"@); assert(b.spec_str() == "PRIVATE"@); assert(a.spec_str()[0] != b.spec_str()[0]); }
            (RoomType::Control, RoomType::Workshop) => { assert("CONTROL"@.len() == 7); assert("WORKSHOP"@.len() == 8); assert(a.spec_str() == "CONTROL"@); assert(b.spec_str() == "WORKSHOP"@); assert(a.spec_str().len() != b.spec_str().len()); }
            (RoomType::Control, RoomType::Hire) => { assert("CONTROL"@.len() == 7); assert("HIRE"@.len() == 4); assert(a.spec_str() == "CONTROL"@); assert(b.spec_str() == "HIRE"@); assert(a.spec_str().len() != b.spec_str().len()); }
            (RoomType::Control, RoomType::Training) => { assert("CONTROL"@.len() == 7); assert("TRAINING"@.len() == 8); assert(a.spec_str() == "CONTROL"@); assert(b.spec_str() == "TRAINING"@); assert(a.spec_str().len() != b.spec_str().len()); }
            (RoomType::Control, RoomType::Meeting) => { assert("CONTROL"@[0] == 'C'); assert("MEETING"@[0] == 'M'); assert(a.spec_str() == "CONTROL"@); assert(b.spec_str() == "MEETING"@); assert(a.spec_str()[0] != b.spec_str()[0]); }
            (RoomType::Control, RoomType::Elevator) => { assert("CONTROL"@.len() == 7); assert("ELEVATOR"@.len() == 8); assert(a.spec_str() == "CONTROL"@); assert(b.spec_str() == "ELEVATOR"@); assert(a.spec_str().len() != b.spec_str().len()); }
            (RoomType::Control, RoomType::Corridor) => { assert("CONTROL"@.len() == 7); assert("CORRIDOR"@.len() == 8); assert(a.spec_str() == "CONTROL"@); assert(b.spec_str() == "CORRIDOR"@); assert(a.spec_str().len() != b.spec_str().len()); }
            (RoomType::Power, RoomType::Control) => { assert("POWER"@.len() == 5); assert("CONTROL"@.len() == 7); assert(a.spec_str() == "POWER"@); assert(b.spec_str() == "CONTROL"@); assert(a.spec_str().len() != b.spec_str().len()); }
            (RoomType::Power, RoomType::Power) => {}
            (RoomType::Power, RoomType::Manufacture) => { assert("POWER"@.len() == 5); assert("MANUFACTURE"@.len() == 11); assert(a.spec_str() == "POWER"@); assert(b.spec_str() == "MANUFACTURE"@); assert(a.spec_str().len() != b.spec_str().len()); }
            (RoomType::Power, RoomType::Trading) => { assert("POWER"@.len() == 5); assert("TRADING"@.len() == 7); assert(a.spec_str() == "POWER"@); assert(b.spec_str() == "TRADING"@); assert(a.spec_str().len() != b.spec_str().len()); }
            (RoomType::Power, RoomType::Dormitory) => { assert("POWER"@.len() == 5); assert("DORMITORY"@.len() == 9); assert(a.spec_str() == "POWER"@); assert(b.spec_str() == "DORMITORY"@); assert(a.spec_str().len() != b.spec_str().len()); }
            (RoomType::Power, RoomType::Private) => { assert("POWER"@.len() == 5); assert("PRIVATE"@.len() == 7); assert(a.spec_str() == "POWER"@); assert(b.spec_str() == "PRIVATE"@); assert(a.spec_str().len() != b.spec_str().len()); }
            (RoomType::Power, RoomType::Workshop) => { assert("POWER"@.len() == 5); assert("WORKSHOP"@.len() == 8); assert(a.spec_str() == "POWER"@); assert(b.spec_str() == "WORKSHOP"@); assert(a.spec_str().len() != b.spec_str().len()); }
            (RoomType::Power, RoomType::Hire) => { assert("POWER"@.len() == 5); assert("HIRE"@.len() == 4); assert(a.spec_str() == "POWER"@); assert(b.spec_str() == "HIRE"@); assert(a.spec_str().len() != b.spec_str().len()); }
            (RoomType::Power, RoomType::Training) => { assert("POWER"@.len() == 5); assert("TRAINING"@.len() == 8); assert(a.spec_str() == "POWER"@); assert(b.spec_str() == "TRAINING"@); assert(a.spec_str().len() != b.spec_str().len()); }
            (RoomType::Power, RoomType::Meeting) => { assert("POWER"@.len() == 5); assert("MEETING"@.len() == 7); assert(a.spec_str() == "POWER"@); assert(b.spec_str() == "MEETING"@); assert(a.spec_str().len() != b.spec_str().len()); }
            (RoomType::Power, RoomType::Elevator) => { assert("POWER"@.len() == 5); assert("ELEVATOR"@.len() == 8); assert(a.spec_str() == "POWER"@); assert(b.spec_str() == "ELEVATOR"@); assert(a.spec_str().len() != b.spec_str().len()); }
            (RoomType::Power, RoomType::Corridor) => { assert("POWER"@.len() == 5); assert("CORRIDOR"@.len() == 8); assert(a.spec_str() == "POWER"@); assert(b.spec_str() == "CORRIDOR"@); assert(a.spec_str().len() != b.spec_str().len()); }
            (RoomType::Manufacture, RoomType::Control) => { assert("MANUFACTURE"@.len() == 11); assert("CONTROL"@.len() == 7); assert(a.spec_str() == "MANUFACTURE"@); assert(b.spec_str() == "CONTROL"@); assert(a.spec_str().len() != b.spec_str().len()); }
            (RoomType::Manufacture, RoomType::Power) => { assert("MANUFACTURE"@.len() == 11); assert("POWER"@.len() == 5); assert(a.spec_str() == "MANUFACTURE"@); assert(b.spec_str() == "POWER"@); assert(a.spec_str().len() != b.spec_str().len()); }
            (RoomType::Manufacture, RoomType::Manufacture) => {}
            (RoomType::Manufacture, RoomType::Trading) => { assert("MANUFACTURE"@.len() == 11); assert("TRADING"@.len() == 7); assert(a.spec_str() == "MANUFACTURE"@); assert(b.spec_str() == "TRADING"@); assert(a.spec_str().len() != b.spec_str().len()); }
            (RoomType::Manufacture, RoomType::Dormitory) => { assert("MANUFACTURE"@.len() == 11); assert("DORMITORY"@.len() == 9); assert(a.spec_str() == "MANUFACTURE"@); assert(b.spec_str() == "DORMITORY"@); assert(a.spec_str().len() != b.spec_str().len()); }
            (RoomType::Manufacture, RoomType::Private) => { assert("MANUFACTURE"@.len() == 11); assert("PRIVATE"@.len() == 7); assert(a.spec_str() == "MANUFACTURE"@); assert(b.spec_str() == "PRIVATE"@); assert(a.spec_str().len() != b.spec_str().len()); }
            (RoomType::Manufacture, RoomType::Workshop) => { assert("MANUFACTURE"@.len() == 11); assert("WORKSHOP"@.len() == 8); assert(a.spec_str() == "MANUFACTURE"@); assert(b.spec_str() == "WORKSHOP"@); assert(a.spec_str().len() != b.spec_str().len()); }
            (RoomType::Manufacture, RoomType::Hire) => { assert("MANUFACTURE"@.len() == 11); assert("HIRE"@.len() == 4); assert(a.spec_str() == "MANUFACTURE"@); assert(b.spec_str() == "HIRE"@); assert(a.spec_str().len() != b.spec_str().len()); }
            (RoomType::Manufacture, RoomType::Training) => { assert("MANUFACTURE"@.len() == 11); assert("TRAINING"@.len() == 8); assert(a.spec_str() == "MANUFACTURE"@); assert(b.spec_str() == "TRAINING"@); assert(a.spec_str().len() != b.spec_str().len()); }
            (RoomType::Manufacture, RoomType::Meeting) => { assert("MANUFACTURE"@.len() == 11); assert("MEETING"@.len() == 7); assert(a.spec_str() == "MANUFACTURE"@); assert(b.spec_str() == "MEETING"@); assert(a.spec_str().len() != b.spec_str().len()); }
            (RoomType::Manufacture, RoomType::Elevator) => { assert("MANUFACTURE"@.len() == 11); assert("ELEVATOR"@.len() == 8); assert(a.spec_str() == "MANUFACTURE"@); assert(b.spec_str() == "ELEVATOR"@); assert(a.spec_str().len() != b.spec_str().len()); }
            (RoomType::Manufacture, RoomType::Corridor) => { assert("MANUFACTURE"@.len() == 11); assert("CORRIDOR"@.len() == 8); assert(a.spec_str() == "MANUFACTURE"@); assert(b.spec_str() == "CORRIDOR"@); assert(a.spec_str().len() != b.spec_str().len()); }
            (RoomType::Trading, RoomType::Control) => { assert("TRADING"@[0] == 'T'); assert("CONTROL"@[0] == 'C'); assert(a.spec_str() == "TRADING"@); assert(b.spec_str() == "CONTROL"@); assert(a.spec_str()[0] != b.spec_str()[0]); }
            (RoomType::Trading, RoomType::Power) => { assert("TRADING"@.len() == 7); assert("POWER"@.len() == 5); assert(a.spec_str() == "TRADING"@); assert(b.spec_str() == "POWER"@); assert(a.spec_str().len() != b.spec_str().len()); }
            (RoomType::Trading, RoomType::Manufacture) => { assert("TRADING"@.len() == 7); assert("MANUFACTURE"@.len() == 11); assert(a.spec_str() == "TRADING"@); assert(b.spec_str() == "MANUFACTURE"@); assert(a.spec_str().len() != b.spec_str().len()); }
            (RoomType::Trading, RoomType::Trading) => {}
            (RoomType::Trading, RoomType::Dormitory) => { assert("TRADING"@.len() == 7); assert("DORMITORY"@.len() == 9); assert(a.spec_str() == "TRADING"@); assert(b.spec_str() == "DORMITORY"@); assert(a.spec_str().len() != b.spec_str().len()); }
            (RoomType::Trading, RoomType::Private) => { assert("TRADING"@[0] == 'T'); assert("PRIVATE"@[0] == 'P'); assert(a.spec_str() == "TRADING"@); assert(b.spec_str() == "PRIVATE"@); assert(a.spec_str()[0] != b.spec_str()[0]); }
            (RoomType::Trading, RoomType::Workshop) => { assert("TRADING"@.len() == 7); assert("WORKSHOP"@.len() == 8); assert(a.spec_str() == "TRADING"@); assert(b.spec_str() == "WORKSHOP"@); assert(a.spec_str().len() != b.spec_str().len()); }
            (RoomType::Trading, RoomType::Hire) => { assert("TRADING"@.len() == 7); assert("HIRE"@.len() == 4); assert(a.spec_str() == "TRADING"@); assert(b.spec_str() == "HIRE"@); assert(a.spec_str().len() != b.spec_str().len()); }
            (RoomType::Trading, RoomType::Training) => { assert("TRADING"@.len() == 7); assert("TRAINING"@.len() == 8); assert(a.spec_str() == "TRADING"@); assert(b.spec_str() == "TRAINING"@); assert(a.spec_str().len() != b.spec_str().len()); }
            (RoomType::Trading, RoomType::Meeting) => { assert("TRADING"@[0] == 'T'); assert("MEETING"@[0] == 'M'); assert(a.spec_str() == "TRADING"@); assert(b.spec_str() == "MEETING"@); assert(a.spec_str()[0] != b.spec_str()[0]); }
            (RoomType::Trading, RoomType::Elevator) => { assert("TRADING"@.len() == 7); assert("ELEVATOR"@.len() == 8); assert(a.spec_str() == "TRADING"@); assert(b.spec_str() == "ELEVATOR"@); assert(a.spec_str().len() != b.spec_str().len()); }
            (RoomType::Trading, RoomType::Corridor) => { assert("TRADING"@.len() == 7); assert("CORRIDOR"@.len() == 8); assert(a.spec_str() == "TRADING"@); assert(b.spec_str() == "CORRIDOR"@); assert(a.spec_str().len() != b.spec_str().len()); }
            (RoomType::Dormitory, RoomType::Control) => { assert("DORMITORY"@.len() == 9); assert("CONTROL"@.len() == 7); assert(a.spec_str() == "DORMITORY"@); assert(b.spec_str() == "CONTROL"@); assert(a.spec_str().len() != b.spec_str().len()); }
            (RoomType::Dormitory, RoomType::Power) => { assert("DORMITORY"@.len() == 9); assert("POWER"@.len() == 5); assert(a.spec_str() == "DORMITORY"@); assert(b.spec_str() == "POWER"@); assert(a.spec_str().len() != b.spec_str().len()); }
            (RoomType::Dormitory, RoomType::Manufacture) => { assert("DORMITORY"@.len() == 9); assert("MANUFACTURE"@.len() == 11); assert(a.spec_str() == "DORMITORY"@); assert(b.spec_str() == "MANUFACTURE"@); assert(a.spec_str().len() != b.spec_str().len()); }
            (RoomType::Dormitory, RoomType::Trading) => { assert("DORMITORY"@.len() == 9); assert("TRADING"@.len() == 7); assert(a.spec_str() == "DORMITORY"@); assert(b.spec_str() == "TRADING"@); assert(a.spec_str().len() != b.spec_str().len()); }
            (RoomType::Dormitory, RoomType::Dormitory) => {}
            (RoomType::Dormitory, RoomType::Private) => { assert("DORMITORY"@.len() == 9); assert("PRIVATE"@.len() == 7); assert(a.spec_str() == "DORMITORY"@); assert(b.spec_str() == "PRIVATE"@); assert(a.spec_str().len() != b.spec_str().len()); }
            (RoomType::Dormitory, RoomType::Workshop) => { assert("DORMITORY"@.len() == 9); assert("WORKSHOP"@.len() == 8); assert(a.spec_str() == "DORMITORY"@); assert(b.spec_str() == "WORKSHOP"@); assert(a.spec_str().len() != b.spec_str().len()); }
            (RoomType::Dormitory, RoomType::Hire) => { assert("DORMITORY"@.len() == 9); assert("HIRE"@.len() == 4); assert(a.spec_str() == "DORMITORY"@); assert(b.spec_str() == "HIRE"@); assert(a.spec_str().len() != b.spec_str().len()); }
            (RoomType::Dormitory, RoomType::Training) => { assert("DORMITORY"@.len() == 9); assert("TRAINING"@.len() == 8); assert(a.spec_str() == "DORMITORY"@); assert(b.spec_str() == "TRAINING"@); assert(a.spec_str().len() != b.spec_str().len()); }
            (RoomType::Dormitory, RoomType::Meeting) => { assert("DORMITORY"@.len() == 9); assert("MEETING"@.len() == 7); assert(a.spec_str() == "DORMITORY"@); assert(b.spec_str() == "MEETING"@); assert(a.spec_str().len() != b.spec_str().len()); }
            (RoomType::Dormitory, RoomType::Elevator) => { assert("DORMITORY"@.len() == 9); assert("ELEVATOR"@.len() == 8); assert(a.spec_str() == "DORMITORY"@); assert(b.spec_str() == "ELEVATOR"@); assert(a.spec_str().len() != b.spec_str().len()); }
            (RoomType::Dormitory, RoomType::Corridor) => { assert("DORMITORY"@.len() == 9); assert("CORRIDOR"@.len() == 8); assert(a.spec_str() == "DORMITORY"@); assert(b.spec_str() == "CORRIDOR"@); assert(a.spec_str().len() != b.spec_str().len()); }
            (RoomType::Private, RoomType::Control) => { assert("PRIVATE"@[0] == 'P'); assert("CONTROL"@[0] == 'C'); assert(a.spec_str() == "PRIVATE"@); assert(b.spec_str() == "CONTROL"@); assert(a.spec_str()[0] != b.spec_str()[0]); }
            (RoomType::Private, RoomType::Power) => { assert("PRIVATE"@.len() == 7); assert("POWER"@.len() == 5); assert(a.spec_str() == "PRIVATE"@); assert(b.spec_str() == "POWER"@); assert(a.spec_str().len() != b.spec_str().len()); }
            (RoomType::Private, RoomType::Manufacture) => { assert("PRIVATE"@.len() == 7); assert("MANUFACTURE"@.len() == 11); assert(a.spec_str() == "PRIVATE"@); assert(b.spec_str() == "MANUFACTURE"@); assert(a.spec_str().len() != b.spec_str().len()); }
            (RoomType::Private, RoomType::Trading) => { assert("PRIVATE"@[0] == 'P'); assert("TRADING"@[0] == 'T'); assert(a.spec_str() == "PRIVATE"@); assert(b.spec_str() == "TRADING"@); assert(a.spec_str()[0] != b.spec_str()[0]); }
            (RoomType::Private, RoomType::Dormitory) => { assert("PRIVATE"@.len() == 7); assert("DORMITORY"@.len() == 9); assert(a.spec_str() == "PRIVATE"@); assert(b.spec_str() == "DORMITORY"@); assert(a.spec_str().len() != b.spec_str().len()); }
            (RoomType::Private, RoomType::Private) => {}
            (RoomType::Private, RoomType::Workshop) => { assert("PRIVATE"@.len() == 7); assert("WORKSHOP"@.len() == 8); assert(a.spec_str() == "PRIVATE"@); assert(b.spec_str() == "WORKSHOP"@); assert(a.spec_str().len() != b.spec_str().len()); }
            (RoomType::Private, RoomType::Hire) => { assert("PRIVATE"@.len() == 7); assert("HIRE"@.len() == 4); assert(a.spec_str() == "PRIVATE"@); assert(b.spec_str() == "HIRE"@); assert(a.spec_str().len() != b.spec_str().len()); }
            (RoomType::Private, RoomType::Training) => { assert("PRIVATE"@.len() == 7); assert("TRAINING"@.len() == 8); assert(a.spec_str() == "PRIVATE"@); assert(b.spec_str() == "TRAINING"@); assert(a.spec_str().len() != b.spec_str().len()); }
            (RoomType::Private, RoomType::Meeting) => { assert("PRIVATE"@[0] == 'P'); assert("MEETING"@[0] == 'M'); assert(a.spec_str() == "PRIVATE"@); assert(b.spec_str() == "MEETING"@); assert(a.spec_str()[0] != b.spec_str()[0]); }
            (RoomType::Private, RoomType::Elevator) => { assert("PRIVATE"@.len() == 7); assert("ELEVATOR"@.len() == 8); assert(a.spec_str() == "PRIVATE"@); assert(b.spec_str() == "ELEVATOR"@); assert(a.spec_str().len() != b.spec_str().len()); }
            (RoomType::Private, RoomType::Corridor) => { assert("PRIVATE"@.len() == 7); assert("CORRIDOR"@.len() == 8); assert(a.spec_str() == "PRIVATE"@); assert(b.spec_str() == "CORRIDOR"@); assert(a.spec_str().len() != b.spec_str().len()); }
            (RoomType::Workshop, RoomType::Control) => { assert("WORKSHOP"@.len() == 8); assert("CONTROL"@.len() == 7); assert(a.spec_str() == "WORKSHOP"@); assert(b.spec_str() == "CONTROL"@); assert(a.spec_str().len() != b.spec_str().len()); }
            (RoomType::Workshop, RoomType::Power) => { assert("WORKSHOP"@.len() == 8); assert("POWER"@.len() == 5); assert(a.spec_str() == "WORKSHOP"@); assert(b.spec_str() == "POWER"@); assert(a.spec_str().len() != b.spec_str().len()); }
            (RoomType::Workshop, RoomType::Manufacture) => { assert("WORKSHOP"@.len() == 8); assert("MANUFACTURE"@.len() == 11); assert(a.spec_str() == "WORKSHOP"@); assert(b.spec_str() == "MANUFACTURE"@); assert(a.spec_str().len() != b.spec_str().len()); }
            (RoomType::Workshop, RoomType::Trading) => { assert("WORKSHOP"@.len() == 8); assert("TRADING"@.len() == 7); assert(a.spec_str() == "WORKSHOP"@); assert(b.spec_str() == "TRADING"@); assert(a.spec_str().len() != b.spec_str().len()); }
            (RoomType::Workshop, RoomType::Dormitory) => { assert("WORKSHOP"@.len() == 8); assert("DORMITORY"@.len() == 9); assert(a.spec_str() == "WORKSHOP"@); assert(b.spec_str() == "DORMITORY"@); assert(a.spec_str().len() != b.spec_str().len()); }
            (RoomType::Workshop, RoomType::Private) => { assert("WORKSHOP"@.len() == 8); assert("PRIVATE"@.len() == 7); assert(a.spec_str() == "WORKSHOP"@); assert(b.spec_str() == "PRIVATE"@); assert(a.spec_str().len() != b.spec_str().len()); }
            (RoomType::Workshop, RoomType::Workshop) => {}
            (RoomType::Workshop, RoomType::Hire) => { assert("WORKSHOP"@.len() == 8); assert("HIRE"@.len() == 4); assert(a.spec_str() == "WORKSHOP"@); assert(b.spec_str() == "HIRE"@); assert(a.spec_str().len() != b.spec_str().len()); }
            (RoomType::Workshop, RoomType::Training) => { assert("WORKSHOP"@[0] == 'W'); assert("TRAINING"@[0] == 'T'); assert(a.spec_str() == "WORKSHOP"@); assert(b.spec_str() == "TRAINING"@); assert(a.spec_str()[0] != b.spec_str()[0]); }
            (RoomType::Workshop, RoomType::Meeting) => { assert("WORKSHOP"@.len() == 8); assert("MEETING"@.len() == 7); assert(a.spec_str() == "WORKSHOP"@); assert(b.spec_str() == "MEETING"@); assert(a.spec_str().len() != b.spec_str().len()); }
            (RoomType::Workshop, RoomType::Elevator) => { assert("WORKSHOP"@[0] == 'W'); assert("ELEVATOR"@[0] == 'E'); assert(a.spec_str() == "WORKSHOP"@); assert(b.spec_str() == "ELEVATOR"@); assert(a.spec_str()[0] != b.spec_str()[0]); }
            (RoomType::Workshop, RoomType::Corridor) => { assert("WORKSHOP"@[0] == 'W'); assert("CORRIDOR"@[0] == 'C'); assert(a.spec_str() == "WORKSHOP"@); assert(b.spec_str() == "CORRIDOR"@); assert(a.spec_str()[0] != b.spec_str()[0]); }
            (RoomType::Hire, RoomType::Control) => { assert("HIRE"@.len() == 4); assert("CONTROL"@.len() == 7); assert(a.spec_str() == "HIRE"@); assert(b.spec_str() == "CONTROL"@); assert(a.spec_str().len() != b.spec_str().len()); }
            (RoomType::Hire, RoomType::Power) => { assert("HIRE"@.len() == 4); assert("POWER"@.len() == 5); assert(a.spec_str() == "HIRE"@); assert(b.spec_str() == "POWER"@); assert(a.spec_str().len() != b.spec_str().len()); }
            (RoomType::Hire, RoomType::Manufacture) => { assert("HIRE"@.len() == 4); assert("MANUFACTURE"@.len() == 11); assert(a.spec_str() == "HIRE"@); assert(b.spec_str() == "MANUFACTURE"@); assert(a.spec_str().len() != b.spec_str().len()); }
            (RoomType::Hire, RoomType::Trading) => { assert("HIRE"@.len() == 4); assert("TRADING"@.len() == 7); assert(a.spec_str() == "HIRE"@); assert(b.spec_str() == "TRADING"@); assert(a.spec_str().len() != b.spec_str().len()); }
            (RoomType::Hire, RoomType::Dormitory) => { assert("HIRE"@.len() == 4); assert("DORMITORY"@.len() == 9); assert(a.spec_str() == "HIRE"@); assert(b.spec_str() == "DORMITORY"@); assert(a.spec_str().len() != b.spec_str().len()); }
            (RoomType::Hire, RoomType::Private) => { assert("HIRE"@.len() == 4); assert("PRIVATE"@.len() == 7); assert(a.spec_str() == "HIRE"@); assert(b.spec_str() == "PRIVATE"@); assert(a.spec_str().len() != b.spec_str().len()); }
            (RoomType::Hire, RoomType::Workshop) => { assert("HIRE"@.len() == 4); assert("WORKSHOP"@.len() == 8); assert(a.spec_str() == "HIRE"@); assert(b.spec_str() == "WORKSHOP"@); assert(a.spec_str().len() != b.spec_str().len()); }
            (RoomType::Hire, RoomType::Hire) => {}
            (RoomType::Hire, RoomType::Training) => { assert("HIRE"@.len() == 4); assert("TRAINING"@.len() == 8); assert(a.spec_str() == "HIRE"@); assert(b.spec_str() == "TRAINING"@); assert(a.spec_str().len() != b.spec_str().len()); }
            (RoomType::Hire, RoomType::Meeting) => { assert("HIRE"@.len() == 4); assert("MEETING"@.len() == 7); assert(a.spec_str() == "HIRE"@); assert(b.spec_str() == "MEETING"@); assert(a.spec_str().len() != b.spec_str().len()); }
            (RoomType::Hire, RoomType::Elevator) => { assert("HIRE"@.len() == 4); assert("ELEVATOR"@.len() == 8); assert(a.spec_str() == "HIRE"@); assert(b.spec_str() == "ELEVATOR"@); assert(a.spec_str().len() != b.spec_str().len()); }
            (RoomType::Hire, RoomType::Corridor) => { assert("HIRE"@.len() == 4); assert("CORRIDOR"@.len() == 8); assert(a.spec_str() == "HIRE"@); assert(b.spec_str() == "CORRIDOR"@); assert(a.spec_str().len() != b.spec_str().len()); }
            (RoomType::Training, RoomType::Control) => { assert("TRAINING"@.len() == 8); assert("CONTROL"@.len() == 7); assert(a.spec_str() == "TRAINING"@); assert(b.spec_str() == "CONTROL"@); assert(a.spec_str().len() != b.spec_str().len()); }
            (RoomType::Training, RoomType::Power) => { assert("TRAINING"@.len() == 8); assert("POWER"@.len() == 5); assert(a.spec_str() == "TRAINING"@); assert(b.spec_str() == "POWER"@); assert(a.spec_str().len() != b.spec_str().len()); }
            (RoomType::Training, RoomType::Manufacture) => { assert("TRAINING"@.len() == 8); assert("MANUFACTURE"@.len() == 11); assert(a.spec_str() == "TRAINING"@); assert(b.spec_str() == "MANUFACTURE"@); assert(a.spec_str().len() != b.spec_str().len()); }
            (RoomType::Training, RoomType::Trading) => { assert("TRAINING"@.len() == 8); assert("TRADING"@.len() == 7); assert(a.spec_str() == "TRAINING"@); assert(b.spec_str() == "TRADING"@); assert(a.spec_str().len() != b.spec_str().len()); }
            (RoomType::Training, RoomType::Dormitory) => { assert("TRAINING"@.len() == 8); assert("DORMITORY"@.len() == 9); assert(a.spec_str() == "TRAINING"@); assert(b.spec_str() == "DORMITORY"@); assert(a.spec_str().len() != b.spec_str().len()); }
            (RoomType::Training, RoomType::Private) => { assert("TRAINING"@.len() == 8); assert("PRIVATE"@.len() == 7); assert(a.spec_str() == "TRAINING"@); assert(b.spec_str() == "PRIVATE"@); assert(a.spec_str().len() != b.spec_str().len()); }
            (RoomType::Training, RoomType::Workshop) => { assert("TRAINING"@[0] == 'T'); assert("WORKSHOP"@[0] == 'W'); assert(a.spec_str() == "TRAINING"@); assert(b.spec_str() == "WORKSHOP"@); assert(a.spec_str()[0] != b.spec_str()[0]); }
            (RoomType::Training, RoomType::Hire) => { assert("TRAINING"@.len() == 8); assert("HIRE"@.len() == 4); assert(a.spec_str() == "TRAINING"@); assert(b.spec_str() == "HIRE"@); assert(a.spec_str().len() != b.spec_str().len()); }
            (RoomType::Training, RoomType::Training) => {}
            (RoomType::Training, RoomType::Meeting) => { assert("TRAINING"@.len() == 8); assert("MEETING"@.len() == 7); assert(a.spec_str() == "TRAINING"@); assert(b.spec_str() == "MEETING"@); assert(a.spec_str().len() != b.spec_str().len()); }
            (RoomType::Training, RoomType::Elevator) => { assert("TRAINING"@[0] == 'T'); assert("ELEVATOR"@[0] == 'E'); assert(a.spec_str() == "TRAINING"@); assert(b.spec_str() == "ELEVATOR"@); assert(a.spec_str()[0] != b.spec_str()[0]); }
            (RoomType::Training, RoomType::Corridor) => { assert("TRAINING"@[0] == 'T'); assert("CORRIDOR"@[0] == 'C'); assert(a.spec_str() == "TRAINING"@); assert(b.spec_str() == "CORRIDOR"@); assert(a.spec_str()[0] != b.spec_str()[0]); }
            (RoomType::Meeting, RoomType::Control) => { assert("MEETING"@[0] == 'M'); assert("CONTROL"@[0] == 'C'); assert(a.spec_str() == "MEETING"@); assert(b.spec_str() == "CONTROL"@); assert(a.spec_str()[0] != b.spec_str()[0]); }
            (RoomType::Meeting, RoomType::Power) => { assert("MEETING"@.len() == 7); assert("POWER"@.len() == 5); assert(a.spec_str() == "MEETING"@); assert(b.spec_str() == "POWER"@); assert(a.spec_str().len() != b.spec_str().len()); }
            (RoomType::Meeting, RoomType::Manufacture) => { assert("MEETING"@.len() == 7); assert("MANUFACTURE"@.len() == 11); assert(a.spec_str() == "MEETING"@); assert(b.spec_str() == "MANUFACTURE"@); assert(a.spec_str().len() != b.spec_str().len()); }
            (RoomType::Meeting, RoomType::Trading) => { assert("MEETING"@[0] == 'M'); assert("TRADING"@[0] == 'T'); assert(a.spec_str() == "MEETING"@); assert(b.spec_str() == "TRADING"@); assert(a.spec_str()[0] != b.spec_str()[0]); }
            (RoomType::Meeting, RoomType::Dormitory) => { assert("MEETING"@.len() == 7); assert("DORMITORY"@.len() == 9); assert(a.spec_str() == "MEETING"@); assert(b.spec_str() == "DORMITORY"@); assert(a.spec_str().len() != b.spec_str().len()); }
            (RoomType::Meeting, RoomType::Private) => { assert("MEETING"@[0] == 'M'); assert("PRIVATE"@[0] == 'P'); assert(a.spec_str() == "MEETING"@); assert(b.spec_str() == "PRIVATE"@); assert(a.spec_str()[0] != b.spec_str()[0]); }
            (RoomType::Meeting, RoomType::Workshop) => { assert("MEETING"@.len() == 7); assert("WORKSHOP"@.len() == 8); assert(a.spec_str() == "MEETING"@); assert(b.spec_str() == "WORKSHOP"@); assert(a.spec_str().len() != b.spec_str().len()); }
            (RoomType::Meeting, RoomType::Hire) => { assert("MEETING"@.len() == 7); assert("HIRE"@.len() == 4); assert(a.spec_str() == "MEETING"@); assert(b.spec_str() == "HIRE"@); assert(a.spec_str().len() != b.spec_str().len()); }
            (RoomType::Meeting, RoomType::Training) => { assert("MEETING"@.len() == 7); assert("TRAINING"@.len() == 8); assert(a.spec_str() == "MEETING"@); assert(b.spec_str() == "TRAINING"@); assert(a.spec_str().len() != b.spec_str().len()); }
            (RoomType::Meeting, RoomType::Meeting) => {}
            (RoomType::Meeting, RoomType::Elevator) => { assert("MEETING"@.len() == 7); assert("ELEVATOR"@.len() == 8); assert(a.spec_str() == "MEETING"@); assert(b.spec_str() == "ELEVATOR"@); assert(a.spec_str().len() != b.spec_str().len()); }
            (RoomType::Meeting, RoomType::Corridor) => { assert("MEETING"@.len() == 7); assert("CORRIDOR"@.len() == 8); assert(a.spec_str() == "MEETING"@); assert(b.spec_str() == "CORRIDOR"@); assert(a.spec_str().len() != b.spec_str().len()); }
            (RoomType::Elevator, RoomType::Control) => { assert("ELEVATOR"@.len() == 8); assert("CONTROL"@.len() == 7); assert(a.spec_str() == "ELEVATOR"@); assert(b.spec_str() == "CONTROL"@); assert(a.spec_str().len() != b.spec_str().len()); }
            (RoomType::Elevator, RoomType::Power) => { assert("ELEVATOR"@.len() == 8); assert("POWER"@.len() == 5); assert(a.spec_str() == "ELEVATOR"@); assert(b.spec_str() == "POWER"@); assert(a.spec_str().len() != b.spec_str().len()); }
            (RoomType::Elevator, RoomType::Manufacture) => { assert("ELEVATOR"@.len() == 8); assert("MANUFACTURE"@.len() == 11); assert(a.spec_str() == "ELEVATOR"@); assert(b.spec_str() == "MANUFACTURE"@); assert(a.spec_str().len() != b.spec_str().len()); }
            (RoomType::Elevator, RoomType::Trading) => { assert("ELEVATOR"@.len() == 8); assert("TRADING"@.len() == 7); assert(a.spec_str() == "ELEVATOR"@); assert(b.spec_str() == "TRADING"@); assert(a.spec_str().len() != b.spec_str().len()); }
            (RoomType::Elevator, RoomType::Dormitory) => { assert("ELEVATOR"@.len() == 8); assert("DORMITORY"@.len() == 9); assert(a.spec_str() == "ELEVATOR"@); assert(b.spec_str() == "DORMITORY"@); assert(a.spec_str().len() != b.spec_str().len()); }
            (RoomType::Elevator, RoomType::Private) => { assert("ELEVATOR"@.len() == 8); assert("PRIVATE"@.len() == 7); assert(a.spec_str() == "ELEVATOR"@); assert(b.spec_str() == "PRIVATE"@); assert(a.spec_str().len() != b.spec_str().len()); }
            (RoomType::Elevator, RoomType::Workshop) => { assert("ELEVATOR"@[0] == 'E'); assert("WORKSHOP"@[0] == 'W'); assert(a.spec_str() == "ELEVATOR"@); assert(b.spec_str() == "WORKSHOP"@); assert(a.spec_str()[0] != b.spec_str()[0]); }
            (RoomType::Elevator, RoomType::Hire) => { assert("ELEVATOR"@.len() == 8); assert("HIRE"@.len() == 4); assert(a.spec_str() == "ELEVATOR"@); assert(b.spec_str() == "HIRE"@); assert(a.spec_str().len() != b.spec_str().len()); }
            (RoomType::Elevator, RoomType::Training) => { assert("ELEVATOR"@[0] == 'E'); assert("TRAINING"@[0] == 'T'); assert(a.spec_str() == "ELEVATOR"@); assert(b.spec_str() == "TRAINING"@); assert(a.spec_str()[0] != b.spec_str()[0]); }
            (RoomType::Elevator, RoomType::Meeting) => { assert("ELEVATOR"@.len() == 8); assert("MEETING"@.len() == 7); assert(a.spec_str() == "ELEVATOR"@); assert(b.spec_str() == "MEETING"@); assert(a.spec_str().len() != b.spec_str().len()); }
            (RoomType::Elevator, RoomType::Elevator) => {}
            (RoomType::Elevator, RoomType::Corridor) => { assert("ELEVATOR"@[0] == 'E'); assert("CORRIDOR"@[0] == 'C'); assert(a.spec_str() == "ELEVATOR"@); assert(b.spec_str() == "CORRIDOR"@); assert(a.spec_str()[0] != b.spec_str()[0]); }
            (RoomType::Corridor, RoomType::Control) => { assert("CORRIDOR"@.len() == 8); assert("CONTROL"@.len() == 7); assert(a.spec_str() == "CORRIDOR"@); assert(b.spec_str() == "CONTROL"@); assert(a.spec_str().len() != b.spec_str().len()); }
            (RoomType::Corridor, RoomType::Power) => { assert("CORRIDOR"@.len() == 8); assert("POWER"@.len() == 5); assert(a.spec_str() == "CORRIDOR"@); assert(b.spec_str() == "POWER"@); assert(a.spec_str().len() != b.spec_str().len()); }
            (RoomType::Corridor, RoomType::Manufacture) => { assert("CORRIDOR"@.len() == 8); assert("MANUFACTURE"@.len() == 11); assert(a.spec_str() == "CORRIDOR"@); assert(b.spec_str() == "MANUFACTURE"@); assert(a.spec_str().len() != b.spec_str().len()); }
            (RoomType::Corridor, RoomType::Trading) => { assert("CORRIDOR"@.len() == 8); assert("TRADING"@.len() == 7); assert(a.spec_str() == "CORRIDOR"@); assert(b.spec_str() == "TRADING"@); assert(a.spec_str().len() != b.spec_str().len()); }
            (RoomType::Corridor, RoomType::Dormitory) => { assert("CORRIDOR"@.len() == 8); assert("DORMITORY"@.len() == 9); assert(a.spec_str() == "CORRIDOR"@); assert(b.spec_str() == "DORMITORY"@); assert(a.spec_str().len() != b.spec_str().len()); }
            (RoomType::Corridor, RoomType::Private) => { assert("CORRIDOR"@.len() == 8); assert("PRIVATE"@.len() == 7); assert(a.spec_str() == "CORRIDOR"@); assert(b.spec_str() == "PRIVATE"@); assert(a.spec_str().len() != b.spec_str().len()); }
            (RoomType::Corridor, RoomType::Workshop) => { assert("CORRIDOR"@[0] == 'C'); assert("WORKSHOP"@[0] == 'W'); assert(a.spec_str() == "CORRIDOR"@); assert(b.spec_str() == "WORKSHOP"@); assert(a.spec_str()[0] != b.spec_str()[0]); }
            (RoomType::Corridor, RoomType::Hire) => { assert("CORRIDOR"@.len() == 8); assert("HIRE"@.len() == 4); assert(a.spec_str() == "CORRIDOR"@); assert(b.spec_str() == "HIRE"@); assert(a.spec_str().len() != b.spec_str().len()); }
            (RoomType::Corridor, RoomType::Training) => { assert("CORRIDOR"@[0] == 'C'); assert("TRAINING"@[0] == 'T'); assert(a.spec_str() == "CORRIDOR"@); assert(b.spec_str() == "TRAINING"@); assert(a.spec_str()[0] != b.spec_str()[0]); }
            (RoomType::Corridor, RoomType::Meeting) => { assert("CORRIDOR"@.len() == 8); assert("MEETING"@.len() == 7); assert(a.spec_str() == "CORRIDOR"@); assert(b.spec_str() == "MEETING"@); assert(a.spec_str().len() != b.spec_str().len()); }
            (RoomType::Corridor, RoomType::Elevator) => { assert("CORRIDOR"@[0] == 'C'); assert("ELEVATOR"@[0] == 'E'); assert(a.spec_str() == "CORRIDOR"@); assert(b.spec_str() == "ELEVATOR"@); assert(a.spec_str()[0] != b.spec_str()[0]); }
            (RoomType::Corridor, RoomType::Corridor) => {}
        }
    }

    /// Parses an upstream string: the variant whose string it is, or
    /// `UnknownVariant` when it is no variant's.
    pub fn parse_str(s: &str) -> (r: Result<RoomType, UnknownVariant>)
        ensures
            match r {
                Ok(v) => v.spec_str() == s@,
                Err(e) => (forall|v: RoomType| v.spec_str() != s@) && e.value@ == s@
                    && e.enum_name@ == "RoomType"@,
            },
    {
        if str_eq(s, "CONTROL") {
            return Ok(RoomType::Control);
        }
        if str_eq(s, "POWER") {
            return Ok(RoomType::Power);
        }
        if str_eq(s, "MANUFACTURE") {
            return Ok(RoomType::Manufacture);
        }
        if str_eq(s, "TRADING") {
            return Ok(RoomType::Trading);
        }
        if str_eq(s, "DORMITORY") {
            return Ok(RoomType::Dormitory);
        }
        if str_eq(s, "PRIVATE") {
            return Ok(RoomType::Private);
        }
        if str_eq(s, "WORKSHOP") {
            return Ok(RoomType::Workshop);
        }
        if str_eq(s, "HIRE") {
            return Ok(RoomType::Hire);
        }
        if str_eq(s, "TRAINING") {
            return Ok(RoomType::Training);
        }
        if str_eq(s, "MEETING") {
            return Ok(RoomType::Meeting);
        }
        if str_eq(s, "ELEVATOR") {
            return Ok(RoomType::Elevator);
        }
        if str_eq(s, "CORRIDOR") {
            return Ok(RoomType::Corridor);
        }
        Err(UnknownVariant { enum_name: "RoomType", value: s.to_owned() })
    }
}

impl std::str::FromStr for RoomType {
    type Err = UnknownVariant;

    fn from_str(s: &str) -> (r: Result<RoomType, UnknownVariant>)
        ensures
            match r {
                Ok(v) => v.spec_str() == s@,
                Err(e) => (forall|v: RoomType| v.spec_str() != s@) && e.value@ == s@
                    && e.enum_name@ == "RoomType"@,
            },
    {
        Self::parse_str(s)
    }
}

/// Upstream grouping of room kinds.
#[derive(Debug, Clone, Copy, PartialEq, Eq, Hash, PartialOrd, Ord, Structural)]
pub enum RoomCategory {
    Special,
    /// Production facilities (Factory, Trading Post, Power Plant).
    Output,
    Function,
    Custom,
    CustomP,
}

impl RoomCategory {
    /// Every variant, in declaration order.
    pub const ALL: [RoomCategory; 5] = [
        RoomCategory::Special,
        RoomCategory::Output,
        RoomCategory::Function,
        RoomCategory::Custom,
        RoomCategory::CustomP,
    ];

    /// The upstream string of a variant.
    pub open spec fn spec_str(self) -> Seq<char> {
        match self {
            RoomCategory::Special => "SPECIAL"@,
            RoomCategory::Output => "OUTPUT"@,
            RoomCategory::Function => "FUNCTION"@,
            RoomCategory::Custom => "CUSTOM"@,
            RoomCategory::CustomP => "CUSTOM_P"@,
        }
    }

    /// The upstream string this variant is parsed from.
    pub fn as_str(self) -> (r: &'static str)
        ensures
            r@ == self.spec_str(),
    {
        match self {
            RoomCategory::Special => "SPECIAL",
            RoomCategory::Output => "OUTPUT",
            RoomCategory::Function => "FUNCTION",
            RoomCategory::Custom => "CUSTOM",
            RoomCategory::CustomP => "CUSTOM_P",
        }
    }

    /// Distinct variants have distinct upstream strings.
    pub proof fn lemma_str_injective(a: RoomCategory, b: RoomCategory)
        requires
            a.spec_str() == b.spec_str(),
        ensures
            a == b,
    {
        reveal_strlit("SPECIAL");
        reveal_strlit("OUTPUT");
        reveal_strlit("FUNCTION");
        reveal_strlit("CUSTOM");
        reveal_strlit("CUSTOM_P");
        match (a, b) {
            (RoomCategory::Special, RoomCategory::Special) => {}
            (RoomCategory::Special, RoomCategory::Output) => { assert("SPECIAL"@.len() == 7); assert("OUTPUT"@.len() == 6); assert(a.spec_str() == "SPECIAL"@); assert(b.spec_str() == "OUTPUT"@); assert(a.spec_str().len() != b.spec_str().len()); }
            (RoomCategory::Special, RoomCategory::Function) => { assert("SPECIAL"@.len() == 7); assert("FUNCTION"@.len() == 8); assert(a.spec_str() == "SPECIAL"@); assert(b.spec_str() == "FUNCTION"@); assert(a.spec_str().len() != b.spec_str().len()); }
            (RoomCategory::Special, RoomCategory::Custom) => { assert("SPECIAL"@.len() == 7); assert("CUSTOM"@.len() == 6); assert(a.spec_str() == "SPECIAL"@); assert(b.spec_str() == "CUSTOM"@); assert(a.spec_str().len() != b.spec_str().len()); }
            (RoomCategory::Special, RoomCategory::CustomP) => { assert("SPECIAL"@.len() == 7); assert("CUSTOM_P"@.len() == 8); assert(a.spec_str() == "SPECIAL"@); assert(b.spec_str() == "CUSTOM_P"@); assert(a.spec_str().len() != b.spec_str().len()); }
            (RoomCategory::Output, RoomCategory::Special) => { assert("OUTPUT"@.len() == 6); assert("SPECIAL"@.len() == 7); assert(a.spec_str() == "OUTPUT"@); assert(b.spec_str() == "SPECIAL"@); assert(a.spec_str().len() != b.spec_str().len()); }
            (RoomCategory::Output, RoomCategory::Output) => {}
            (RoomCategory::Output, RoomCategory::Function) => { assert("OUTPUT"@.len() == 6); assert("FUNCTION"@.len() == 8); assert(a.spec_str() == "OUTPUT"@); assert(b.spec_str() == "FUNCTION"@); assert(a.spec_str().len() != b.spec_str().len()); }
            (RoomCategory::Output, RoomCategory::Custom) => { assert("OUTPUT"@[0] == 'O'); assert("CUSTOM"@[0] == 'C'); assert(a.spec_str() == "OUTPUT"@); assert(b.spec_str() == "CUSTOM"@); assert(a.spec_str()[0] != b.spec_str()[0]); }
            (RoomCategory::Output, RoomCategory::CustomP) => { assert("OUTPUT"@.len() == 6); assert("CUSTOM_P"@.len() == 8); assert(a.spec_str() == "OUTPUT"@); assert(b.spec_str() == "CUSTOM_P"@); assert(a.spec_str().len() != b.spec_str().len()); }
            (RoomCategory::Function, RoomCategory::Special) => { assert("FUNCTION"@.len() == 8); assert("SPECIAL"@.len() == 7); assert(a.spec_str() == "FUNCTION"@); assert(b.spec_str() == "SPECIAL"@); assert(a.spec_str().len() != b.spec_str().len()); }
            (RoomCategory::Function, RoomCategory::Output) => { assert("FUNCTION"@.len() == 8); assert("OUTPUT"@.len() == 6); assert(a.spec_str() == "FUNCTION"@); assert(b.spec_str() == "OUTPUT"@); assert(a.spec_str().len() != b.spec_str().len()); }
            (RoomCategory::Function, RoomCategory::Function) => {}
            (RoomCategory::Function, RoomCategory::Custom) => { assert("FUNCTION"@.len() == 8); assert("CUSTOM"@.len() == 6); assert(a.spec_str() == "FUNCTION"@); assert(b.spec_str() == "CUSTOM"@); assert(a.spec_str().len() != b.spec_str().len()); }
            (RoomCategory::Function, RoomCategory::CustomP) => { assert("FUNCTION"@[0] == 'F'); assert("CUSTOM_P"@[0] == 'C'); assert(a.spec_str() == "FUNCTION"@); assert(b.spec_str() == "CUSTOM_P"@); assert(a.spec_str()[0] != b.spec_str()[0]); }
            (RoomCategory::Custom, RoomCategory::Special) => { assert("CUSTOM"@.len() == 6); assert("SPECIAL"@.len() == 7); assert(a.spec_str() == "CUSTOM"@); assert(b.spec_str() == "SPECIAL"@); assert(a.spec_str().len() != b.spec_str().len()); }
            (RoomCategory::Custom, RoomCategory::Output) => { assert("CUSTOM"@[0] == 'C'); assert("OUTPUT"@[0] == 'O'); assert(a.spec_str() == "CUSTOM"@); assert(b.spec_str() == "OUTPUT"@); assert(a.spec_str()[0] != b.spec_str()[0]); }
            (RoomCategory::Custom, RoomCategory::Function) => { assert("CUSTOM"@.len() == 6); assert("FUNCTION"@.len() == 8); assert(a.spec_str() == "CUSTOM"@); assert(b.spec_str() == "FUNCTION"@); assert(a.spec_str().len() != b.spec_str().len()); }
            (RoomCategory::Custom, RoomCategory::Custom) => {}
            (RoomCategory::Custom, RoomCategory::CustomP) => { assert("CUSTOM"@.len() == 6); assert("CUSTOM_P"@.len() == 8); assert(a.spec_str() == "CUSTOM"@); assert(b.spec_str() == "CUSTOM_P"@); assert(a.spec_str().len() != b.spec_str().len()); }
            (RoomCategory::CustomP, RoomCategory::Special) => { assert("CUSTOM_P"@.len() == 8); assert("SPECIAL"@.len() == 7); assert(a.spec_str() == "CUSTOM_P"@); assert(b.spec_str() == "SPECIAL"@); assert(a.spec_str().len() != b.spec_str().len()); }
            (RoomCategory::CustomP, RoomCategory::Output) => { assert("CUSTOM_P"@.len() == 8); assert("OUTPUT"@.len() == 6); assert(a.spec_str() == "CUSTOM_P"@); assert(b.spec_str() == "OUTPUT"@); assert(a.spec_str().len() != b.spec_str().len()); }
            (RoomCategory::CustomP, RoomCategory::Function) => { assert("CUSTOM_P"@[0] == 'C'); assert("FUNCTION"@[0] == 'F'); assert(a.spec_str() == "CUSTOM_P"@); assert(b.spec_str() == "FUNCTION"@); assert(a.spec_str()[0] != b.spec_str()[0]); }
            (RoomCategory::CustomP, RoomCategory::Custom) => { assert("CUSTOM_P"@.len() == 8); assert("CUSTOM"@.len() == 6); assert(a.spec_str() == "CUSTOM_P"@); assert(b.spec_str() == "CUSTOM"@); assert(a.spec_str().len() != b.spec_str().len()); }
            (RoomCategory::CustomP, RoomCategory::CustomP) => {}
        }
    }

    /// Parses an upstream string: the variant whose string it is, or
    /// `UnknownVariant` when it is no variant's.
    pub fn parse_str(s: &str) -> (r: Result<RoomCategory, UnknownVariant>)
        ensures
            match r {
                Ok(v) => v.spec_str() == s@,
                Err(e) => (forall|v: RoomCategory| v.spec_str() != s@) && e.value@ == s@
                    && e.enum_name@ == "RoomCategory"@,
            },
    {
        if str_eq(s, "SPECIAL") {
            return Ok(RoomCategory::Special);
        }
        if str_eq(s, "OUTPUT") {
            return Ok(RoomCategory::Output);
        }
        if str_eq(s, "FUNCTION") {
            return Ok(RoomCategory::Function);
        }
        if str_eq(s, "CUSTOM") {
            return Ok(RoomCategory::Custom);
        }
        if str_eq(s, "CUSTOM_P") {
            return Ok(RoomCategory::CustomP);
        }
        Err(UnknownVariant { enum_name: "RoomCategory", value: s.to_owned() })
    }
}

impl std::str::FromStr for RoomCategory {
    type Err = UnknownVariant;

    fn from_str(s: &str) -> (r: Result<RoomCategory, UnknownVariant>)
        ensures
            match r {
                Ok(v) => v.spec_str() == s@,
                Err(e) => (forall|v: RoomCategory| v.spec_str() != s@) && e.value@ == s@
                    && e.enum_name@ == "RoomCategory"@,
            },
    {
        Self::parse_str(s)
    }
}

/// Category of a physical layout slot. A superset of `RoomCategory`
/// because elevators and corridors occupy slots but are not rooms.
#[derive(Debug, Clone, Copy, PartialEq, Eq, Hash, PartialOrd, Ord, Structural)]
pub enum SlotCategory {
    Special,
    Output,
    Function,
    Custom,
    CustomP,
    Elevator,
    Corridor,
}

impl SlotCategory {
    /// Every variant, in declaration order.
    pub const ALL: [SlotCategory; 7] = [
        SlotCategory::Special,
        SlotCategory::Output,
        SlotCategory::Function,
        SlotCategory::Custom,
        SlotCategory::CustomP,
        SlotCategory::Elevator,
        SlotCategory::Corridor,
    ];

    /// The upstream string of a variant.
    pub open spec fn spec_str(self) -> Seq<char> {
        match self {
            SlotCategory::Special => "SPECIAL"@,
            SlotCategory::Output => "OUTPUT"@,
            SlotCategory::Function => "FUNCTION"@,
            SlotCategory::Custom => "CUSTOM"@,
            SlotCategory::CustomP => "CUSTOM_P"@,
            SlotCategory::Elevator => "ELEVATOR"@,
            SlotCategory::Corridor => "CORRIDOR"@,
        }
    }

    /// The upstream string this variant is parsed from.
    pub fn as_str(self) -> (r: &'static str)
        ensures
            r@ == self.spec_str(),
    {
        match self {
            SlotCategory::Special => "SPECIAL",
            SlotCategory::Output => "OUTPUT",
            SlotCategory::Function => "FUNCTION",
            SlotCategory::Custom => "CUSTOM",
            SlotCategory::CustomP => "CUSTOM_P",
            SlotCategory::Elevator => "ELEVATOR",
            SlotCategory::Corridor => "CORRIDOR",
        }
    }

    /// Distinct variants have distinct upstream strings.
    pub proof fn lemma_str_injective(a: SlotCategory, b: SlotCategory)
        requires
            a.spec_str() == b.spec_str(),
        ensures
            a == b,
    {
        reveal_strlit("SPECIAL");
        reveal_strlit("OUTPUT");
        reveal_strlit("FUNCTION");
        reveal_strlit("CUSTOM");
        reveal_strlit("CUSTOM_P");
        reveal_strlit("ELEVATOR");
        reveal_strlit("CORRIDOR");
        match (a, b) {
            (SlotCategory::Special, SlotCategory::Special) => {}
            (SlotCategory::Special, SlotCategory::Output) => { assert("SPECIAL"@.len() == 7); assert("OUTPUT"@.len() == 6); assert(a.spec_str() == "SPECIAL"@); assert(b.spec_str() == "OUTPUT"@); assert(a.spec_str().len() != b.spec_str().len()); }
            (SlotCategory::Special, SlotCategory::Function) => { assert("SPECIAL"@.len() == 7); assert("FUNCTION"@.len() == 8); assert(a.spec_str() == "SPECIAL"@); assert(b.spec_str() == "FUNCTION"@); assert(a.spec_str().len() != b.spec_str().len()); }
            (SlotCategory::Special, SlotCategory::Custom) => { assert("SPECIAL"@.len() == 7); assert("CUSTOM"@.len() == 6); assert(a.spec_str() == "SPECIAL"@); assert(b.spec_str() == "CUSTOM"@); assert(a.spec_str().len() != b.spec_str().len()); }
            (SlotCategory::Special, SlotCategory::CustomP) => { assert("SPECIAL"@.len() == 7); assert("CUSTOM_P"@.len() == 8); assert(a.spec_str() == "SPECIAL"@); assert(b.spec_str() == "CUSTOM_P"@); assert(a.spec_str().len() != b.spec_str().len()); }
            (SlotCategory::Special, SlotCategory::Elevator) => { assert("SPECIAL"@.len() == 7); assert("ELEVATOR"@.len() == 8); assert(a.spec_str() == "SPECIAL"@); assert(b.spec_str() == "ELEVATOR"@); assert(a.spec_str().len() != b.spec_str().len()); }
            (SlotCategory::Special, SlotCategory::Corridor) => { assert("SPECIAL"@.len() == 7); assert("CORRIDOR"@.len() == 8); assert(a.spec_str() == "SPECIAL"@); assert(b.spec_str() == "CORRIDOR"@); assert(a.spec_str().len() != b.spec_str().len()); }
            (SlotCategory::Output, SlotCategory::Special) => { assert("OUTPUT"@.len() == 6); assert("SPECIAL"@.len() == 7); assert(a.spec_str() == "OUTPUT"@); assert(b.spec_str() == "SPECIAL"@); assert(a.spec_str().len() != b.spec_str().len()); }
            (SlotCategory::Output, SlotCategory::Output) => {}
            (SlotCategory::Output, SlotCategory::Function) => { assert("OUTPUT"@.len() == 6); assert("FUNCTION"@.len() == 8); assert(a.spec_str() == "OUTPUT"@); assert(b.spec_str() == "FUNCTION"@); assert(a.spec_str().len() != b.spec_str().len()); }
            (SlotCategory::Output, SlotCategory::Custom) => { assert("OUTPUT"@[0] == 'O'); assert("CUSTOM"@[0] == 'C'); assert(a.spec_str() == "OUTPUT"@); assert(b.spec_str() == "CUSTOM"@); assert(a.spec_str()[0] != b.spec_str()[0]); }
            (SlotCategory::Output, SlotCategory::CustomP) => { assert("OUTPUT"@.len() == 6); assert("CUSTOM_P"@.len() == 8); assert(a.spec_str() == "OUTPUT"@); assert(b.spec_str() == "CUSTOM_P"@); assert(a.spec_str().len() != b.spec_str().len()); }
            (SlotCategory::Output, SlotCategory::Elevator) => { assert("OUTPUT"@.len() == 6); assert("ELEVATOR"@.len() == 8); assert(a.spec_str() == "OUTPUT"@); assert(b.spec_str() == "ELEVATOR"@); assert(a.spec_str().len() != b.spec_str().len()); }
            (SlotCategory::Output, SlotCategory::Corridor) => { assert("OUTPUT"@.len() == 6); assert("CORRIDOR"@.len() == 8); assert(a.spec_str() == "OUTPUT"@); assert(b.spec_str() == "CORRIDOR"@); assert(a.spec_str().len() != b.spec_str().len()); }
            (SlotCategory::Function, SlotCategory::Special) => { assert("FUNCTION"@.len() == 8); assert("SPECIAL"@.len() == 7); assert(a.spec_str() == "FUNCTION"@); assert(b.spec_str() == "SPECIAL"@); assert(a.spec_str().len() != b.spec_str().len()); }
            (SlotCategory::Function, SlotCategory::Output) => { assert("FUNCTION"@.len() == 8); assert("OUTPUT"@.len() == 6); assert(a.spec_str() == "FUNCTION"@); assert(b.spec_str() == "OUTPUT"@); assert(a.spec_str().len() != b.spec_str().len()); }
            (SlotCategory::Function, SlotCategory::Function) => {}
            (SlotCategory::Function, SlotCategory::Custom) => { assert("FUNCTION"@.len() == 8); assert("CUSTOM"@.len() == 6); assert(a.spec_str() == "FUNCTION"@); assert(b.spec_str() == "CUSTOM"@); assert(a.spec_str().len() != b.spec_str().len()); }
            (SlotCategory::Function, SlotCategory::CustomP) => { assert("FUNCTION"@[0] == 'F'); assert("CUSTOM_P"@[0] == 'C'); assert(a.spec_str() == "FUNCTION"@); assert(b.spec_str() == "CUSTOM_P"@); assert(a.spec_str()[0] != b.spec_str()[0]); }
            (SlotCategory::Function, SlotCategory::Elevator) => { assert("FUNCTION"@[0] == 'F'); assert("ELEVATOR"@[0] == 'E'); assert(a.spec_str() == "FUNCTION"@); assert(b.spec_str() == "ELEVATOR"@); assert(a.spec_str()[0] != b.spec_str()[0]); }
            (SlotCategory::Function, SlotCategory::Corridor) => { assert("FUNCTION"@[0] == 'F'); assert("CORRIDOR"@[0] == 'C'); assert(a.spec_str() == "FUNCTION"@); assert(b.spec_str() == "CORRIDOR"@); assert(a.spec_str()[0] != b.spec_str()[0]); }
            (SlotCategory::Custom, SlotCategory::Special) => { assert("CUSTOM"@.len() == 6); assert("SPECIAL"@.len() == 7); assert(a.spec_str() == "CUSTOM"@); assert(b.spec_str() == "SPECIAL"@); assert(a.spec_str().len() != b.spec_str().len()); }
            (SlotCategory::Custom, SlotCategory::Output) => { assert("CUSTOM"@[0] == 'C'); assert("OUTPUT"@[0] == 'O'); assert(a.spec_str() == "CUSTOM"@); assert(b.spec_str() == "OUTPUT"@); assert(a.spec_str()[0] != b.spec_str()[0]); }
            (SlotCategory::Custom, SlotCategory::Function) => { assert("CUSTOM"@.len() == 6); assert("FUNCTION"@.len() == 8); assert(a.spec_str() == "CUSTOM"@); assert(b.spec_str() == "FUNCTION"@); assert(a.spec_str().len() != b.spec_str().len()); }
            (SlotCategory::Custom, SlotCategory::Custom) => {}
            (SlotCategory::Custom, SlotCategory::CustomP) => { assert("CUSTOM"@.len() == 6); assert("CUSTOM_P"@.len() == 8); assert(a.spec_str() == "CUSTOM"@); assert(b.spec_str() == "CUSTOM_P"@); assert(a.spec_str().len() != b.spec_str().len()); }
            (SlotCategory::Custom, SlotCategory::Elevator) => { assert("CUSTOM"@.len() == 6); assert("ELEVATOR"@.len() == 8); assert(a.spec_str() == "CUSTOM"@); assert(b.spec_str() == "ELEVATOR"@); assert(a.spec_str().len() != b.spec_str().len()); }
            (SlotCategory::Custom, SlotCategory::Corridor) => { assert("CUSTOM"@.len() == 6); assert("CORRIDOR"@.len() == 8); assert(a.spec_str() == "CUSTOM"@); assert(b.spec_str() == "CORRIDOR"@); assert(a.spec_str().len() != b.spec_str().len()); }
            (SlotCategory::CustomP, SlotCategory::Special) => { assert("CUSTOM_P"@.len() == 8); assert("SPECIAL"@.len() == 7); assert(a.spec_str() == "CUSTOM_P"@); assert(b.spec_str() == "SPECIAL"@); assert(a.spec_str().len() != b.spec_str().len()); }
            (SlotCategory::CustomP, SlotCategory::Output) => { assert("CUSTOM_P"@.len() == 8); assert("OUTPUT"@.len() == 6); assert(a.spec_str() == "CUSTOM_P"@); assert(b.spec_str() == "OUTPUT"@); assert(a.spec_str().len() != b.spec_str().len()); }
            (SlotCategory::CustomP, SlotCategory::Function) => { assert("CUSTOM_P"@[0] == 'C'); assert("FUNCTION"@[0] == 'F'); assert(a.spec_str() == "CUSTOM_P"@); assert(b.spec_str() == "FUNCTION"@); assert(a.spec_str()[0] != b.spec_str()[0]); }
            (SlotCategory::CustomP, SlotCategory::Custom) => { assert("CUSTOM_P"@.len() == 8); assert("CUSTOM"@.len() == 6); assert(a.spec_str() == "CUSTOM_P"@); assert(b.spec_str() == "CUSTOM"@); assert(a.spec_str().len() != b.spec_str().len()); }
            (SlotCategory::CustomP, SlotCategory::CustomP) => {}
            (SlotCategory::CustomP, SlotCategory::Elevator) => { assert("CUSTOM_P"@[0] == 'C'); assert("ELEVATOR"@[0] == 'E'); assert(a.spec_str() == "CUSTOM_P"@); assert(b.spec_str() == "ELEVATOR"@); assert(a.spec_str()[0] != b.spec_str()[0]); }
            (SlotCategory::CustomP, SlotCategory::Corridor) => { assert("CUSTOM_P"@[1] == 'U'); assert("CORRIDOR"@[1] == 'O'); assert(a.spec_str() == "CUSTOM_P"@); assert(b.spec_str() == "CORRIDOR"@); assert(a.spec_str()[1] != b.spec_str()[1]); }
            (SlotCategory::Elevator, SlotCategory::Special) => { assert("ELEVATOR"@.len() == 8); assert("SPECIAL"@.len() == 7); assert(a.spec_str() == "ELEVATOR"@); assert(b.spec_str() == "SPECIAL"@); assert(a.spec_str().len() != b.spec_str().len()); }
            (SlotCategory::Elevator, SlotCategory::Output) => { assert("ELEVATOR"@.len() == 8); assert("OUTPUT"@.len() == 6); assert(a.spec_str() == "ELEVATOR"@); assert(b.spec_str() == "OUTPUT"@); assert(a.spec_str().len() != b.spec_str().len()); }
            (SlotCategory::Elevator, SlotCategory::Function) => { assert("ELEVATOR"@[0] == 'E'); assert("FUNCTION"@[0] == 'F'); assert(a.spec_str() == "ELEVATOR"@); assert(b.spec_str() == "FUNCTION"@); assert(a.spec_str()[0] != b.spec_str()[0]); }
            (SlotCategory::Elevator, SlotCategory::Custom) => { assert("ELEVATOR"@.len() == 8); assert("CUSTOM"@.len() == 6); assert(a.spec_str() == "ELEVATOR"@); assert(b.spec_str() == "CUSTOM"@); assert(a.spec_str().len() != b.spec_str().len()); }
            (SlotCategory::Elevator, SlotCategory::CustomP) => { assert("ELEVATOR"@[0] == 'E'); assert("CUSTOM_P"@[0] == 'C'); assert(a.spec_str() == "ELEVATOR"@); assert(b.spec_str() == "CUSTOM_P"@); assert(a.spec_str()[0] != b.spec_str()[0]); }
            (SlotCategory::Elevator, SlotCategory::Elevator) => {}
            (SlotCategory::Elevator, SlotCategory::Corridor) => { assert("ELEVATOR"@[0] == 'E'); assert("CORRIDOR"@[0] == 'C'); assert(a.spec_str() == "ELEVATOR"@); assert(b.spec_str() == "CORRIDOR"@); assert(a.spec_str()[0] != b.spec_str()[0]); }
            (SlotCategory::Corridor, SlotCategory::Special) => { assert("CORRIDOR"@.len() == 8); assert("SPECIAL"@.len() == 7); assert(a.spec_str() == "CORRIDOR"@); assert(b.spec_str() == "SPECIAL"@); assert(a.spec_str().len() != b.spec_str().len()); }
            (SlotCategory::Corridor, SlotCategory::Output) => { assert("CORRIDOR"@.len() == 8); assert("OUTPUT"@.len() == 6); assert(a.spec_str() == "CORRIDOR"@); assert(b.spec_str() == "OUTPUT"@); assert(a.spec_str().len() != b.spec_str().len()); }
            (SlotCategory::Corridor, SlotCategory::Function) => { assert("CORRIDOR"@[0] == 'C'); assert("FUNCTION"@[0] == 'F'); assert(a.spec_str() == "CORRIDOR"@); assert(b.spec_str() == "FUNCTION"@); assert(a.spec_str()[0] != b.spec_str()[0]); }
            (SlotCategory::Corridor, SlotCategory::Custom) => { assert("CORRIDOR"@.len() == 8); assert("CUSTOM"@.len() == 6); assert(a.spec_str() == "CORRIDOR"@); assert(b.spec_str() == "CUSTOM"@); assert(a.spec_str().len() != b.spec_str().len()); }
            (SlotCategory::Corridor, SlotCategory::CustomP) => { assert("CORRIDOR"@[1] == 'O'); assert("CUSTOM_P"@[1] == 'U'); assert(a.spec_str() == "CORRIDOR"@); assert(b.spec_str() == "CUSTOM_P"@); assert(a.spec_str()[1] != b.spec_str()[1]); }
            (SlotCategory::Corridor, SlotCategory::Elevator) => { assert("CORRIDOR"@[0] == 'C'); assert("ELEVATOR"@[0] == 'E'); assert(a.spec_str() == "CORRIDOR"@); assert(b.spec_str() == "ELEVATOR"@); assert(a.spec_str()[0] != b.spec_str()[0]); }
            (SlotCategory::Corridor, SlotCategory::Corridor) => {}
        }
    }

    /// Parses an upstream string: the variant whose string it is, or
    /// `UnknownVariant` when it is no variant's.
    pub fn parse_str(s: &str) -> (r: Result<SlotCategory, UnknownVariant>)
        ensures
            match r {
                Ok(v) => v.spec_str() == s@,
                Err(e) => (forall|v: SlotCategory| v.spec_str() != s@) && e.value@ == s@
                    && e.enum_name@ == "SlotCategory"@,
            },
    {
        if str_eq(s, "SPECIAL") {
            return Ok(SlotCategory::Special);
        }
        if str_eq(s, "OUTPUT") {
            return Ok(SlotCategory::Output);
        }
        if str_eq(s, "FUNCTION") {
            return Ok(SlotCategory::Function);
        }
        if str_eq(s, "CUSTOM") {
            return Ok(SlotCategory::Custom);
        }
        if str_eq(s, "CUSTOM_P") {
            return Ok(SlotCategory::CustomP);
        }
        if str_eq(s, "ELEVATOR") {
            return Ok(SlotCategory::Elevator);
        }
        if str_eq(s, "CORRIDOR") {
            return Ok(SlotCategory::Corridor);
        }
        Err(UnknownVariant { enum_name: "SlotCategory", value: s.to_owned() })
    }
}

impl std::str::FromStr for SlotCategory {
    type Err = UnknownVariant;

    fn from_str(s: &str) -> (r: Result<SlotCategory, UnknownVariant>)
        ensures
            match r {
                Ok(v) => v.spec_str() == s@,
                Err(e) => (forall|v: SlotCategory| v.spec_str() != s@) && e.value@ == s@
                    && e.enum_name@ == "SlotCategory"@,
            },
    {
        Self::parse_str(s)
    }
}

/// Upstream classification of a base skill's role.
#[derive(Debug, Clone, Copy, PartialEq, Eq, Hash, PartialOrd, Ord, Structural)]
pub enum BuffCategory {
    Function,
    Recovery,
    Output,
}

impl BuffCategory {
    /// Every variant, in declaration order.
    pub const ALL: [BuffCategory; 3] = [
        BuffCategory::Function,
        BuffCategory::Recovery,
        BuffCategory::Output,
    ];

    /// The upstream string of a variant.
    pub open spec fn spec_str(self) -> Seq<char> {
        match self {
            BuffCategory::Function => "FUNCTION"@,
            BuffCategory::Recovery => "RECOVERY"@,
            BuffCategory::Output => "OUTPUT"@,
        }
    }

    /// The upstream string this variant is parsed from.
    pub fn as_str(self) -> (r: &'static str)
        ensures
            r@ == self.spec_str(),
    {
        match self {
            BuffCategory::Function => "FUNCTION",
            BuffCategory::Recovery => "RECOVERY",
            BuffCategory::Output => "OUTPUT",
        }
    }

    /// Distinct variants have distinct upstream strings.
    pub proof fn lemma_str_injective(a: BuffCategory, b: BuffCategory)
        requires
            a.spec_str() == b.spec_str(),
        ensures
            a == b,
    {
        reveal_strlit("FUNCTION");
        reveal_strlit("RECOVERY");
        reveal_strlit("OUTPUT");
        match (a, b) {
            (BuffCategory::Function, BuffCategory::Function) => {}
            (BuffCategory::Function, BuffCategory::Recovery) => { assert("FUNCTION"@[0] == 'F'); assert("RECOVERY"@[0] == 'R'); assert(a.spec_str() == "FUNCTION"@); assert(b.spec_str() == "RECOVERY"@); assert(a.spec_str()[0] != b.spec_str()[0]); }
            (BuffCategory::Function, BuffCategory::Output) => { assert("FUNCTION"@.len() == 8); assert("OUTPUT"@.len() == 6); assert(a.spec_str() == "FUNCTION"@); assert(b.spec_str() == "OUTPUT"@); assert(a.spec_str().len() != b.spec_str().len()); }
            (BuffCategory::Recovery, BuffCategory::Function) => { assert("RECOVERY"@[0] == 'R'); assert("FUNCTION"@[0] == 'F'); assert(a.spec_str() == "RECOVERY"@); assert(b.spec_str() == "FUNCTION"@); assert(a.spec_str()[0] != b.spec_str()[0]); }
            (BuffCategory::Recovery, BuffCategory::Recovery) => {}
            (BuffCategory::Recovery, BuffCategory::Output) => { assert("RECOVERY"@.len() == 8); assert("OUTPUT"@.len() == 6); assert(a.spec_str() == "RECOVERY"@); assert(b.spec_str() == "OUTPUT"@); assert(a.spec_str().len() != b.spec_str().len()); }
            (BuffCategory::Output, BuffCategory::Function) => { assert("OUTPUT"@.len() == 6); assert("FUNCTION"@.len() == 8); assert(a.spec_str() == "OUTPUT"@); assert(b.spec_str() == "FUNCTION"@); assert(a.spec_str().len() != b.spec_str().len()); }
            (BuffCategory::Output, BuffCategory::Recovery) => { assert("OUTPUT"@.len() == 6); assert("RECOVERY"@.len() == 8); assert(a.spec_str() == "OUTPUT"@); assert(b.spec_str() == "RECOVERY"@); assert(a.spec_str().len() != b.spec_str().len()); }
            (BuffCategory::Output, BuffCategory::Output) => {}
        }
    }

    /// Parses an upstream string: the variant whose string it is, or
    /// `UnknownVariant` when it is no variant's.
    pub fn parse_str(s: &str) -> (r: Result<BuffCategory, UnknownVariant>)
        ensures
            match r {
                Ok(v) => v.spec_str() == s@,
                Err(e) => (forall|v: BuffCategory| v.spec_str() != s@) && e.value@ == s@
                    && e.enum_name@ == "BuffCategory"@,
            },
    {
        if str_eq(s, "FUNCTION") {
            return Ok(BuffCategory::Function);
        }
        if str_eq(s, "RECOVERY") {
            return Ok(BuffCategory::Recovery);
        }
        if str_eq(s, "OUTPUT") {
            return Ok(BuffCategory::Output);
        }
        Err(UnknownVariant { enum_name: "BuffCategory", value: s.to_owned() })
    }
}

impl std::str::FromStr for BuffCategory {
    type Err = UnknownVariant;

    fn from_str(s: &str) -> (r: Result<BuffCategory, UnknownVariant>)
        ensures
            match r {
                Ok(v) => v.spec_str() == s@,
                Err(e) => (forall|v: BuffCategory| v.spec_str() != s@) && e.value@ == s@
                    && e.enum_name@ == "BuffCategory"@,
            },
    {
        Self::parse_str(s)
    }
}

/// Promotion (elite) level. Ordered: `E0 < E1 < E2`.
#[derive(Debug, Clone, Copy, PartialEq, Eq, Hash, PartialOrd, Ord, Structural)]
pub enum ElitePhase {
    E0,
    E1,
    E2,
}

impl ElitePhase {
    /// Every variant, in declaration order.
    pub const ALL: [ElitePhase; 3] = [
        ElitePhase::E0,
        ElitePhase::E1,
        ElitePhase::E2,
    ];

    /// The upstream string of a variant.
    pub open spec fn spec_str(self) -> Seq<char> {
        match self {
            ElitePhase::E0 => "PHASE_0"@,
            ElitePhase::E1 => "PHASE_1"@,
            ElitePhase::E2 => "PHASE_2"@,
        }
    }

    /// The upstream string this variant is parsed from.
    pub fn as_str(self) -> (r: &'static str)
        ensures
            r@ == self.spec_str(),
    {
        match self {
            ElitePhase::E0 => "PHASE_0",
            ElitePhase::E1 => "PHASE_1",
            ElitePhase::E2 => "PHASE_2",
        }
    }

    /// Distinct variants have distinct upstream strings.
    pub proof fn lemma_str_injective(a: ElitePhase, b: ElitePhase)
        requires
            a.spec_str() == b.spec_str(),
        ensures
            a == b,
    {
        reveal_strlit("PHASE_0");
        reveal_strlit("PHASE_1");
        reveal_strlit("PHASE_2");
        match (a, b) {
            (ElitePhase::E0, ElitePhase::E0) => {}
            (ElitePhase::E0, ElitePhase::E1) => { assert("PHASE_0"@[6] == '0'); assert("PHASE_1"@[6] == '1'); assert(a.spec_str() == "PHASE_0"@); assert(b.spec_str() == "PHASE_1"@); assert(a.spec_str()[6] != b.spec_str()[6]); }
            (ElitePhase::E0, ElitePhase::E2) => { assert("PHASE_0"@[6] == '0'); assert("PHASE_2"@[6] == '2'); assert(a.spec_str() == "PHASE_0"@); assert(b.spec_str() == "PHASE_2"@); assert(a.spec_str()[6] != b.spec_str()[6]); }
            (ElitePhase::E1, ElitePhase::E0) => { assert("PHASE_1"@[6] == '1'); assert("PHASE_0"@[6] == '0'); assert(a.spec_str() == "PHASE_1"@); assert(b.spec_str() == "PHASE_0"@); assert(a.spec_str()[6] != b.spec_str()[6]); }
            (ElitePhase::E1, ElitePhase::E1) => {}
            (ElitePhase::E1, ElitePhase::E2) => { assert("PHASE_1"@[6] == '1'); assert("PHASE_2"@[6] == '2'); assert(a.spec_str() == "PHASE_1"@); assert(b.spec_str() == "PHASE_2"@); assert(a.spec_str()[6] != b.spec_str()[6]); }
            (ElitePhase::E2, ElitePhase::E0) => { assert("PHASE_2"@[6] == '2'); assert("PHASE_0"@[6] == '0'); assert(a.spec_str() == "PHASE_2"@); assert(b.spec_str() == "PHASE_0"@); assert(a.spec_str()[6] != b.spec_str()[6]); }
            (ElitePhase::E2, ElitePhase::E1) => { assert("PHASE_2"@[6] == '2'); assert("PHASE_1"@[6] == '1'); assert(a.spec_str() == "PHASE_2"@); assert(b.spec_str() == "PHASE_1"@); assert(a.spec_str()[6] != b.spec_str()[6]); }
            (ElitePhase::E2, ElitePhase::E2) => {}
        }
    }

    /// Parses an upstream string: the variant whose string it is, or
    /// `UnknownVariant` when it is no variant's.
    pub fn parse_str(s: &str) -> (r: Result<ElitePhase, UnknownVariant>)
        ensures
            match r {
                Ok(v) => v.spec_str() == s@,
                Err(e) => (forall|v: ElitePhase| v.spec_str() != s@) && e.value@ == s@
                    && e.enum_name@ == "ElitePhase"@,
            },
    {
        if str_eq(s, "PHASE_0") {
            return Ok(ElitePhase::E0);
        }
        if str_eq(s, "PHASE_1") {
            return Ok(ElitePhase::E1);
        }
        if str_eq(s, "PHASE_2") {
            return Ok(ElitePhase::E2);
        }
        Err(UnknownVariant { enum_name: "ElitePhase", value: s.to_owned() })
    }
}

impl std::str::FromStr for ElitePhase {
    type Err = UnknownVariant;

    fn from_str(s: &str) -> (r: Result<ElitePhase, UnknownVariant>)
        ensures
            match r {
                Ok(v) => v.spec_str() == s@,
                Err(e) => (forall|v: ElitePhase| v.spec_str() != s@) && e.value@ == s@
                    && e.enum_name@ == "ElitePhase"@,
            },
    {
        Self::parse_str(s)
    }
}

/// Operator rarity. Upstream spells these `TIER_1`..`TIER_6`.
#[derive(Debug, Clone, Copy, PartialEq, Eq, Hash, PartialOrd, Ord, Structural)]
pub enum Rarity {
    Tier1,
    Tier2,
    Tier3,
    Tier4,
    Tier5,
    Tier6,
}

impl Rarity {
    /// Every variant, in declaration order.
    pub const ALL: [Rarity; 6] = [
        Rarity::Tier1,
        Rarity::Tier2,
        Rarity::Tier3,
        Rarity::Tier4,
        Rarity::Tier5,
        Rarity::Tier6,
    ];

    /// The upstream string of a variant.
    pub open spec fn spec_str(self) -> Seq<char> {
        match self {
            Rarity::Tier1 => "TIER_1"@,
            Rarity::Tier2 => "TIER_2"@,
            Rarity::Tier3 => "TIER_3"@,
            Rarity::Tier4 => "TIER_4"@,
            Rarity::Tier5 => "TIER_5"@,
            Rarity::Tier6 => "TIER_6"@,
        }
    }

    /// The upstream string this variant is parsed from.
    pub fn as_str(self) -> (r: &'static str)
        ensures
            r@ == self.spec_str(),
    {
        match self {
            Rarity::Tier1 => "TIER_1",
            Rarity::Tier2 => "TIER_2",
            Rarity::Tier3 => "TIER_3",
            Rarity::Tier4 => "TIER_4",
            Rarity::Tier5 => "TIER_5",
            Rarity::Tier6 => "TIER_6",
        }
    }

    /// Distinct variants have distinct upstream strings.
    pub proof fn lemma_str_injective(a: Rarity, b: Rarity)
        requires
            a.spec_str() == b.spec_str(),
        ensures
            a == b,
    {
        reveal_strlit("TIER_1");
        reveal_strlit("TIER_2");
        reveal_strlit("TIER_3");
        reveal_strlit("TIER_4");
        reveal_strlit("TIER_5");
        reveal_strlit("TIER_6");
        match (a, b) {
            (Rarity::Tier1, Rarity::Tier1) => {}
            (Rarity::Tier1, Rarity::Tier2) => { assert("TIER_1"@[5] == '1'); assert("TIER_2"@[5] == '2'); assert(a.spec_str() == "TIER_1"@); assert(b.spec_str() == "TIER_2"@); assert(a.spec_str()[5] != b.spec_str()[5]); }
            (Rarity::Tier1, Rarity::Tier3) => { assert("TIER_1"@[5] == '1'); assert("TIER_3"@[5] == '3'); assert(a.spec_str() == "TIER_1"@); assert(b.spec_str() == "TIER_3"@); assert(a.spec_str()[5] != b.spec_str()[5]); }
            (Rarity::Tier1, Rarity::Tier4) => { assert("TIER_1"@[5] == '1'); assert("TIER_4"@[5] == '4'); assert(a.spec_str() == "TIER_1"@); assert(b.spec_str() == "TIER_4"@); assert(a.spec_str()[5] != b.spec_str()[5]); }
            (Rarity::Tier1, Rarity::Tier5) => { assert("TIER_1"@[5] == '1'); assert("TIER_5"@[5] == '5'); assert(a.spec_str() == "TIER_1"@); assert(b.spec_str() == "TIER_5"@); assert(a.spec_str()[5] != b.spec_str()[5]); }
            (Rarity::Tier1, Rarity::Tier6) => { assert("TIER_1"@[5] == '1'); assert("TIER_6"@[5] == '6'); assert(a.spec_str() == "TIER_1"@); assert(b.spec_str() == "TIER_6"@); assert(a.spec_str()[5] != b.spec_str()[5]); }
            (Rarity::Tier2, Rarity::Tier1) => { assert("TIER_2"@[5] == '2'); assert("TIER_1"@[5] == '1'); assert(a.spec_str() == "TIER_2"@); assert(b.spec_str() == "TIER_1"@); assert(a.spec_str()[5] != b.spec_str()[5]); }
            (Rarity::Tier2, Rarity::Tier2) => {}
            (Rarity::Tier2, Rarity::Tier3) => { assert("TIER_2"@[5] == '2'); assert("TIER_3"@[5] == '3'); assert(a.spec_str() == "TIER_2"@); assert(b.spec_str() == "TIER_3"@); assert(a.spec_str()[5] != b.spec_str()[5]); }
            (Rarity::Tier2, Rarity::Tier4) => { assert("TIER_2"@[5] == '2'); assert("TIER_4"@[5] == '4'); assert(a.spec_str() == "TIER_2"@); assert(b.spec_str() == "TIER_4"@); assert(a.spec_str()[5] != b.spec_str()[5]); }
            (Rarity::Tier2, Rarity::Tier5) => { assert("TIER_2"@[5] == '2'); assert("TIER_5"@[5] == '5'); assert(a.spec_str() == "TIER_2"@); assert(b.spec_str() == "TIER_5"@); assert(a.spec_str()[5] != b.spec_str()[5]); }
            (Rarity::Tier2, Rarity::Tier6) => { assert("TIER_2"@[5] == '2'); assert("TIER_6"@[5] == '6'); assert(a.spec_str() == "TIER_2"@); assert(b.spec_str() == "TIER_6"@); assert(a.spec_str()[5] != b.spec_str()[5]); }
            (Rarity::Tier3, Rarity::Tier1) => { assert("TIER_3"@[5] == '3'); assert("TIER_1"@[5] == '1'); assert(a.spec_str() == "TIER_3"@); assert(b.spec_str() == "TIER_1"@); assert(a.spec_str()[5] != b.spec_str()[5]); }
            (Rarity::Tier3, Rarity::Tier2) => { assert("TIER_3"@[5] == '3'); assert("TIER_2"@[5] == '2'); assert(a.spec_str() == "TIER_3"@); assert(b.spec_str() == "TIER_2"@); assert(a.spec_str()[5] != b.spec_str()[5]); }
            (Rarity::Tier3, Rarity::Tier3) => {}
            (Rarity::Tier3, Rarity::Tier4) => { assert("TIER_3"@[5] == '3'); assert("TIER_4"@[5] == '4'); assert(a.spec_str() == "TIER_3"@); assert(b.spec_str() == "TIER_4"@); assert(a.spec_str()[5] != b.spec_str()[5]); }
            (Rarity::Tier3, Rarity::Tier5) => { assert("TIER_3"@[5] == '3'); assert("TIER_5"@[5] == '5'); assert(a.spec_str() == "TIER_3"@); assert(b.spec_str() == "TIER_5"@); assert(a.spec_str()[5] != b.spec_str()[5]); }
            (Rarity::Tier3, Rarity::Tier6) => { assert("TIER_3"@[5] == '3'); assert("TIER_6"@[5] == '6'); assert(a.spec_str() == "TIER_3"@); assert(b.spec_str() == "TIER_6"@); assert(a.spec_str()[5] != b.spec_str()[5]); }
            (Rarity::Tier4, Rarity::Tier1) => { assert("TIER_4"@[5] == '4'); assert("TIER_1"@[5] == '1'); assert(a.spec_str() == "TIER_4"@); assert(b.spec_str() == "TIER_1"@); assert(a.spec_str()[5] != b.spec_str()[5]); }
            (Rarity::Tier4, Rarity::Tier2) => { assert("TIER_4"@[5] == '4'); assert("TIER_2"@[5] == '2'); assert(a.spec_str() == "TIER_4"@); assert(b.spec_str() == "TIER_2"@); assert(a.spec_str()[5] != b.spec_str()[5]); }
            (Rarity::Tier4, Rarity::Tier3) => { assert("TIER_4"@[5] == '4'); assert("TIER_3"@[5] == '3'); assert(a.spec_str() == "TIER_4"@); assert(b.spec_str() == "TIER_3"@); assert(a.spec_str()[5] != b.spec_str()[5]); }
            (Rarity::Tier4, Rarity::Tier4) => {}
            (Rarity::Tier4, Rarity::Tier5) => { assert("TIER_4"@[5] == '4'); assert("TIER_5"@[5] == '5'); assert(a.spec_str() == "TIER_4"@); assert(b.spec_str() == "TIER_5"@); assert(a.spec_str()[5] != b.spec_str()[5]); }
            (Rarity::Tier4, Rarity::Tier6) => { assert("TIER_4"@[5] == '4'); assert("TIER_6"@[5] == '6'); assert(a.spec_str() == "TIER_4"@); assert(b.spec_str() == "TIER_6"@); assert(a.spec_str()[5] != b.spec_str()[5]); }
            (Rarity::Tier5, Rarity::Tier1) => { assert("TIER_5"@[5] == '5'); assert("TIER_1"@[5] == '1'); assert(a.spec_str() == "TIER_5"@); assert(b.spec_str() == "TIER_1"@); assert(a.spec_str()[5] != b.spec_str()[5]); }
            (Rarity::Tier5, Rarity::Tier2) => { assert("TIER_5"@[5] == '5'); assert("TIER_2"@[5] == '2'); assert(a.spec_str() == "TIER_5"@); assert(b.spec_str() == "TIER_2"@); assert(a.spec_str()[5] != b.spec_str()[5]); }
            (Rarity::Tier5, Rarity::Tier3) => { assert("TIER_5"@[5] == '5'); assert("TIER_3"@[5] == '3'); assert(a.spec_str() == "TIER_5"@); assert(b.spec_str() == "TIER_3"@); assert(a.spec_str()[5] != b.spec_str()[5]); }
            (Rarity::Tier5, Rarity::Tier4) => { assert("TIER_5"@[5] == '5'); assert("TIER_4"@[5] == '4'); assert(a.spec_str() == "TIER_5"@); assert(b.spec_str() == "TIER_4"@); assert(a.spec_str()[5] != b.spec_str()[5]); }
            (Rarity::Tier5, Rarity::Tier5) => {}
            (Rarity::Tier5, Rarity::Tier6) => { assert("TIER_5"@[5] == '5'); assert("TIER_6"@[5] == '6'); assert(a.spec_str() == "TIER_5"@); assert(b.spec_str() == "TIER_6"@); assert(a.spec_str()[5] != b.spec_str()[5]); }
            (Rarity::Tier6, Rarity::Tier1) => { assert("TIER_6"@[5] == '6'); assert("TIER_1"@[5] == '1'); assert(a.spec_str() == "TIER_6"@); assert(b.spec_str() == "TIER_1"@); assert(a.spec_str()[5] != b.spec_str()[5]); }
            (Rarity::Tier6, Rarity::Tier2) => { assert("TIER_6"@[5] == '6'); assert("TIER_2"@[5] == '2'); assert(a.spec_str() == "TIER_6"@); assert(b.spec_str() == "TIER_2"@); assert(a.spec_str()[5] != b.spec_str()[5]); }
            (Rarity::Tier6, Rarity::Tier3) => { assert("TIER_6"@[5] == '6'); assert("TIER_3"@[5] == '3'); assert(a.spec_str() == "TIER_6"@); assert(b.spec_str() == "TIER_3"@); assert(a.spec_str()[5] != b.spec_str()[5]); }
            (Rarity::Tier6, Rarity::Tier4) => { assert("TIER_6"@[5] == '6'); assert("TIER_4"@[5] == '4'); assert(a.spec_str() == "TIER_6"@); assert(b.spec_str() == "TIER_4"@); assert(a.spec_str()[5] != b.spec_str()[5]); }
            (Rarity::Tier6, Rarity::Tier5) => { assert("TIER_6"@[5] == '6'); assert("TIER_5"@[5] == '5'); assert(a.spec_str() == "TIER_6"@); assert(b.spec_str() == "TIER_5"@); assert(a.spec_str()[5] != b.spec_str()[5]); }
            (Rarity::Tier6, Rarity::Tier6) => {}
        }
    }

    /// Parses an upstream string: the variant whose string it is, or
    /// `UnknownVariant` when it is no variant's.
    pub fn parse_str(s: &str) -> (r: Result<Rarity, UnknownVariant>)
        ensures
            match r {
                Ok(v) => v.spec_str() == s@,
                Err(e) => (forall|v: Rarity| v.spec_str() != s@) && e.value@ == s@
                    && e.enum_name@ == "Rarity"@,
            },
    {
        if str_eq(s, "TIER_1") {
            return Ok(Rarity::Tier1);
        }
        if str_eq(s, "TIER_2") {
            return Ok(Rarity::Tier2);
        }
        if str_eq(s, "TIER_3") {
            return Ok(Rarity::Tier3);
        }
        if str_eq(s, "TIER_4") {
            return Ok(Rarity::Tier4);
        }
        if str_eq(s, "TIER_5") {
            return Ok(Rarity::Tier5);
        }
        if str_eq(s, "TIER_6") {
            return Ok(Rarity::Tier6);
        }
        Err(UnknownVariant { enum_name: "Rarity", value: s.to_owned() })
    }
}

impl std::str::FromStr for Rarity {
    type Err = UnknownVariant;

    fn from_str(s: &str) -> (r: Result<Rarity, UnknownVariant>)
        ensures
            match r {
                Ok(v) => v.spec_str() == s@,
                Err(e) => (forall|v: Rarity| v.spec_str() != s@) && e.value@ == s@
                    && e.enum_name@ == "Rarity"@,
            },
    {
        Self::parse_str(s)
    }
}

/// Operator class. Variant names use the Global client's names; the
/// upstream strings are the internal ones.
#[derive(Debug, Clone, Copy, PartialEq, Eq, Hash, PartialOrd, Ord, Structural)]
pub enum Profession {
    Vanguard,
    Guard,
    Defender,
    Sniper,
    Caster,
    Medic,
    Supporter,
    Specialist,
}

impl Profession {
    /// Every variant, in declaration order.
    pub const ALL: [Profession; 8] = [
        Profession::Vanguard,
        Profession::Guard,
        Profession::Defender,
        Profession::Sniper,
        Profession::Caster,
        Profession::Medic,
        Profession::Supporter,
        Profession::Specialist,
    ];

    /// The upstream string of a variant.
    pub open spec fn spec_str(self) -> Seq<char> {
        match self {
            Profession::Vanguard => "PIONEER"@,
            Profession::Guard => "WARRIOR"@,
            Profession::Defender => "TANK"@,
            Profession::Sniper => "SNIPER"@,
            Profession::Caster => "CASTER"@,
            Profession::Medic => "MEDIC"@,
            Profession::Supporter => "SUPPORT"@,
            Profession::Specialist => "SPECIAL"@,
        }
    }

    /// The upstream string this variant is parsed from.
    pub fn as_str(self) -> (r: &'static str)
        ensures
            r@ == self.spec_str(),
    {
        match self {
            Profession::Vanguard => "PIONEER",
            Profession::Guard => "WARRIOR",
            Profession::Defender => "TANK",
            Profession::Sniper => "SNIPER",
            Profession::Caster => "CASTER",
            Profession::Medic => "MEDIC",
            Profession::Supporter => "SUPPORT",
            Profession::Specialist => "SPECIAL",
        }
    }

    /// Distinct variants have distinct upstream strings.
    pub proof fn lemma_str_injective(a: Profession, b: Profession)
        requires
            a.spec_str() == b.spec_str(),
        ensures
            a == b,
    {
        reveal_strlit("PIONEER");
        reveal_strlit("WARRIOR");
        reveal_strlit("TANK");
        reveal_strlit("SNIPER");
        reveal_strlit("CASTER");
        reveal_strlit("MEDIC");
        reveal_strlit("SUPPORT");
        reveal_strlit("SPECIAL");
        match (a, b) {
            (Profession::Vanguard, Profession::Vanguard) => {}
            (Profession::Vanguard, Profession::Guard) => { assert("PIONEER"@[0] == 'P'); assert("WARRIOR"@[0] == 'W'); assert(a.spec_str() == "PIONEER"@); assert(b.spec_str() == "WARRIOR"@); assert(a.spec_str()[0] != b.spec_str()[0]); }
            (Profession::Vanguard, Profession::Defender) => { assert("PIONEER"@.len() == 7); assert("TANK"@.len() == 4); assert(a.spec_str() == "PIONEER"@); assert(b.spec_str() == "TANK"@); assert(a.spec_str().len() != b.spec_str().len()); }
            (Profession::Vanguard, Profession::Sniper) => { assert("PIONEER"@.len() == 7); assert("SNIPER"@.len() == 6); assert(a.spec_str() == "PIONEER"@); assert(b.spec_str() == "SNIPER"@); assert(a.spec_str().len() != b.spec_str().len()); }
            (Profession::Vanguard, Profession::Caster) => { assert("PIONEER"@.len() == 7); assert("CASTER"@.len() == 6); assert(a.spec_str() == "PIONEER"@); assert(b.spec_str() == "CASTER"@); assert(a.spec_str().len() != b.spec_str().len()); }
            (Profession::Vanguard, Profession::Medic) => { assert("PIONEER"@.len() == 7); assert("MEDIC"@.len() == 5); assert(a.spec_str() == "PIONEER"@); assert(b.spec_str() == "MEDIC"@); assert(a.spec_str().len() != b.spec_str().len()); }
            (Profession::Vanguard, Profession::Supporter) => { assert("PIONEER"@[0] == 'P'); assert("SUPPORT"@[0] == 'S'); assert(a.spec_str() == "PIONEER"@); assert(b.spec_str() == "SUPPORT"@); assert(a.spec_str()[0] != b.spec_str()[0]); }
            (Profession::Vanguard, Profession::Specialist) => { assert("PIONEER"@[0] == 'P'); assert("SPECIAL"@[0] == 'S'); assert(a.spec_str() == "PIONEER"@); assert(b.spec_str() == "SPECIAL"@); assert(a.spec_str()[0] != b.spec_str()[0]); }
            (Profession::Guard, Profession::Vanguard) => { assert("WARRIOR"@[0] == 'W'); assert("PIONEER"@[0] == 'P'); assert(a.spec_str() == "WARRIOR"@); assert(b.spec_str() == "PIONEER"@); assert(a.spec_str()[0] != b.spec_str()[0]); }
            (Profession::Guard, Profession::Guard) => {}
            (Profession::Guard, Profession::Defender) => { assert("WARRIOR"@.len() == 7); assert("TANK"@.len() == 4); assert(a.spec_str() == "WARRIOR"@); assert(b.spec_str() == "TANK"@); assert(a.spec_str().len() != b.spec_str().len()); }
            (Profession::Guard, Profession::Sniper) => { assert("WARRIOR"@.len() == 7); assert("SNIPER"@.len() == 6); assert(a.spec_str() == "WARRIOR"@); assert(b.spec_str() == "SNIPER"@); assert(a.spec_str().len() != b.spec_str().len()); }
            (Profession::Guard, Profession::Caster) => { assert("WARRIOR"@.len() == 7); assert("CASTER"@.len() == 6); assert(a.spec_str() == "WARRIOR"@); assert(b.spec_str() == "CASTER"@); assert(a.spec_str().len() != b.spec_str().len()); }
            (Profession::Guard, Profession::Medic) => { assert("WARRIOR"@.len() == 7); assert("MEDIC"@.len() == 5); assert(a.spec_str() == "WARRIOR"@); assert(b.spec_str() == "MEDIC"@); assert(a.spec_str().len() != b.spec_str().len()); }
            (Profession::Guard, Profession::Supporter) => { assert("WARRIOR"@[0] == 'W'); assert("SUPPORT"@[0] == 'S'); assert(a.spec_str() == "WARRIOR"@); assert(b.spec_str() == "SUPPORT"@); assert(a.spec_str()[0] != b.spec_str()[0]); }
            (Profession::Guard, Profession::Specialist) => { assert("WARRIOR"@[0] == 'W'); assert("SPECIAL"@[0] == 'S'); assert(a.spec_str() == "WARRIOR"@); assert(b.spec_str() == "SPECIAL"@); assert(a.spec_str()[0] != b.spec_str()[0]); }
            (Profession::Defender, Profession::Vanguard) => { assert("TANK"@.len() == 4); assert("PIONEER"@.len() == 7); assert(a.spec_str() == "TANK"@); assert(b.spec_str() == "PIONEER"@); assert(a.spec_str().len() != b.spec_str().len()); }
            (Profession::Defender, Profession::Guard) => { assert("TANK"@.len() == 4); assert("WARRIOR"@.len() == 7); assert(a.spec_str() == "TANK"@); assert(b.spec_str() == "WARRIOR"@); assert(a.spec_str().len() != b.spec_str().len()); }
            (Profession::Defender, Profession::Defender) => {}
            (Profession::Defender, Profession::Sniper) => { assert("TANK"@.len() == 4); assert("SNIPER"@.len() == 6); assert(a.spec_str() == "TANK"@); assert(b.spec_str() == "SNIPER"@); assert(a.spec_str().len() != b.spec_str().len()); }
            (Profession::Defender, Profession::Caster) => { assert("TANK"@.len() == 4); assert("CASTER"@.len() == 6); assert(a.spec_str() == "TANK"@); assert(b.spec_str() == "CASTER"@); assert(a.spec_str().len() != b.spec_str().len()); }
            (Profession::Defender, Profession::Medic) => { assert("TANK"@.len() == 4); assert("MEDIC"@.len() == 5); assert(a.spec_str() == "TANK"@); assert(b.spec_str() == "MEDIC"@); assert(a.spec_str().len() != b.spec_str().len()); }
            (Profession::Defender, Profession::Supporter) => { assert("TANK"@.len() == 4); assert("SUPPORT"@.len() == 7); assert(a.spec_str() == "TANK"@); assert(b.spec_str() == "SUPPORT"@); assert(a.spec_str().len() != b.spec_str().len()); }
            (Profession::Defender, Profession::Specialist) => { assert("TANK"@.len() == 4); assert("SPECIAL"@.len() == 7); assert(a.spec_str() == "TANK"@); assert(b.spec_str() == "SPECIAL"@); assert(a.spec_str().len() != b.spec_str().len()); }
            (Profession::Sniper, Profession::Vanguard) => { assert("SNIPER"@.len() == 6); assert("PIONEER"@.len() == 7); assert(a.spec_str() == "SNIPER"@); assert(b.spec_str() == "PIONEER"@); assert(a.spec_str().len() != b.spec_str().len()); }
            (Profession::Sniper, Profession::Guard) => { assert("SNIPER"@.len() == 6); assert("WARRIOR"@.len() == 7); assert(a.spec_str() == "SNIPER"@); assert(b.spec_str() == "WARRIOR"@); assert(a.spec_str().len() != b.spec_str().len()); }
            (Profession::Sniper, Profession::Defender) => { assert("SNIPER"@.len() == 6); assert("TANK"@.len() == 4); assert(a.spec_str() == "SNIPER"@); assert(b.spec_str() == "TANK"@); assert(a.spec_str().len() != b.spec_str().len()); }
            (Profession::Sniper, Profession::Sniper) => {}
            (Profession::Sniper, Profession::Caster) => { assert("SNIPER"@[0] == 'S'); assert("CASTER"@[0] == 'C'); assert(a.spec_str() == "SNIPER"@); assert(b.spec_str() == "CASTER"@); assert(a.spec_str()[0] != b.spec_str()[0]); }
            (Profession::Sniper, Profession::Medic) => { assert("SNIPER"@.len() == 6); assert("MEDIC"@.len() == 5); assert(a.spec_str() == "SNIPER"@); assert(b.spec_str() == "MEDIC"@); assert(a.spec_str().len() != b.spec_str().len()); }
            (Profession::Sniper, Profession::Supporter) => { assert("SNIPER"@.len() == 6); assert("SUPPORT"@.len() == 7); assert(a.spec_str() == "SNIPER"@); assert(b.spec_str() == "SUPPORT"@); assert(a.spec_str().len() != b.spec_str().len()); }
            (Profession::Sniper, Profession::Specialist) => { assert("SNIPER"@.len() == 6); assert("SPECIAL"@.len() == 7); assert(a.spec_str() == "SNIPER"@); assert(b.spec_str() == "SPECIAL"@); assert(a.spec_str().len() != b.spec_str().len()); }
            (Profession::Caster, Profession::Vanguard) => { assert("CASTER"@.len() == 6); assert("PIONEER"@.len() == 7); assert(a.spec_str() == "CASTER"@); assert(b.spec_str() == "PIONEER"@); assert(a.spec_str().len() != b.spec_str().len()); }
            (Profession::Caster, Profession::Guard) => { assert("CASTER"@.len() == 6); assert("WARRIOR"@.len() == 7); assert(a.spec_str() == "CASTER"@); assert(b.spec_str() == "WARRIOR"@); assert(a.spec_str().len() != b.spec_str().len()); }
            (Profession::Caster, Profession::Defender) => { assert("CASTER"@.len() == 6); assert("TANK"@.len() == 4); assert(a.spec_str() == "CASTER"@); assert(b.spec_str() == "TANK"@); assert(a.spec_str().len() != b.spec_str().len()); }
            (Profession::Caster, Profession::Sniper) => { assert("CASTER"@[0] == 'C'); assert("SNIPER"@[0] == 'S'); assert(a.spec_str() == "CASTER"@); assert(b.spec_str() == "SNIPER"@); assert(a.spec_str()[0] != b.spec_str()[0]); }
            (Profession::Caster, Profession::Caster) => {}
            (Profession::Caster, Profession::Medic) => { assert("CASTER"@.len() == 6); assert("MEDIC"@.len() == 5); assert(a.spec_str() == "CASTER"@); assert(b.spec_str() == "MEDIC"@); assert(a.spec_str().len() != b.spec_str().len()); }
            (Profession::Caster, Profession::Supporter) => { assert("CASTER"@.len() == 6); assert("SUPPORT"@.len() == 7); assert(a.spec_str() == "CASTER"@); assert(b.spec_str() == "SUPPORT"@); assert(a.spec_str().len() != b.spec_str().len()); }
            (Profession::Caster, Profession::Specialist) => { assert("CASTER"@.len() == 6); assert("SPECIAL"@.len() == 7); assert(a.spec_str() == "CASTER"@); assert(b.spec_str() == "SPECIAL"@); assert(a.spec_str().len() != b.spec_str().len()); }
            (Profession::Medic, Profession::Vanguard) => { assert("MEDIC"@.len() == 5); assert("PIONEER"@.len() == 7); assert(a.spec_str() == "MEDIC"@); assert(b.spec_str() == "PIONEER"@); assert(a.spec_str().len() != b.spec_str().len()); }
            (Profession::Medic, Profession::Guard) => { assert("MEDIC"@.len() == 5); assert("WARRIOR"@.len() == 7); assert(a.spec_str() == "MEDIC"@); assert(b.spec_str() == "WARRIOR"@); assert(a.spec_str().len() != b.spec_str().len()); }
            (Profession::Medic, Profession::Defender) => { assert("MEDIC"@.len() == 5); assert("TANK"@.len() == 4); assert(a.spec_str() == "MEDIC"@); assert(b.spec_str() == "TANK"@); assert(a.spec_str().len() != b.spec_str().len()); }
            (Profession::Medic, Profession::Sniper) => { assert("MEDIC"@.len() == 5); assert("SNIPER"@.len() == 6); assert(a.spec_str() == "MEDIC"@); assert(b.spec_str() == "SNIPER"@); assert(a.spec_str().len() != b.spec_str().len()); }
            (Profession::Medic, Profession::Caster) => { assert("MEDIC"@.len() == 5); assert("CASTER"@.len() == 6); assert(a.spec_str() == "MEDIC"@); assert(b.spec_str() == "CASTER"@); assert(a.spec_str().len() != b.spec_str().len()); }
            (Profession::Medic, Profession::Medic) => {}
            (Profession::Medic, Profession::Supporter) => { assert("MEDIC"@.len() == 5); assert("SUPPORT"@.len() == 7); assert(a.spec_str() == "MEDIC"@); assert(b.spec_str() == "SUPPORT"@); assert(a.spec_str().len() != b.spec_str().len()); }
            (Profession::Medic, Profession::Specialist) => { assert("MEDIC"@.len() == 5); assert("SPECIAL"@.len() == 7); assert(a.spec_str() == "MEDIC"@); assert(b.spec_str() == "SPECIAL"@); assert(a.spec_str().len() != b.spec_str().len()); }
            (Profession::Supporter, Profession::Vanguard) => { assert("SUPPORT"@[0] == 'S'); assert("PIONEER"@[0] == 'P'); assert(a.spec_str() == "SUPPORT"@); assert(b.spec_str() == "PIONEER"@); assert(a.spec_str()[0] != b.spec_str()[0]); }
            (Profession::Supporter, Profession::Guard) => { assert("SUPPORT"@[0] == 'S'); assert("WARRIOR"@[0] == 'W'); assert(a.spec_str() == "SUPPORT"@); assert(b.spec_str() == "WARRIOR"@); assert(a.spec_str()[0] != b.spec_str()[0]); }
            (Profession::Supporter, Profession::Defender) => { assert("SUPPORT"@.len() == 7); assert("TANK"@.len() == 4); assert(a.spec_str() == "SUPPORT"@); assert(b.spec_str() == "TANK"@); assert(a.spec_str().len() != b.spec_str().len()); }
            (Profession::Supporter, Profession::Sniper) => { assert("SUPPORT"@.len() == 7); assert("SNIPER"@.len() == 6); assert(a.spec_str() == "SUPPORT"@); assert(b.spec_str() == "SNIPER"@); assert(a.spec_str().len() != b.spec_str().len()); }
            (Profession::Supporter, Profession::Caster) => { assert("SUPPORT"@.len() == 7); assert("CASTER"@.len() == 6); assert(a.spec_str() == "SUPPORT"@); assert(b.spec_str() == "CASTER"@); assert(a.spec_str().len() != b.spec_str().len()); }
            (Profession::Supporter, Profession::Medic) => { assert("SUPPORT"@.len() == 7); assert("MEDIC"@.len() == 5); assert(a.spec_str() == "SUPPORT"@); assert(b.spec_str() == "MEDIC"@); assert(a.spec_str().len() != b.spec_str().len()); }
            (Profession::Supporter, Profession::Supporter) => {}
            (Profession::Supporter, Profession::Specialist) => { assert("SUPPORT"@[1] == 'U'); assert("SPECIAL"@[1] == 'P'); assert(a.spec_str() == "SUPPORT"@); assert(b.spec_str() == "SPECIAL"@); assert(a.spec_str()[1] != b.spec_str()[1]); }
            (Profession::Specialist, Profession::Vanguard) => { assert("SPECIAL"@[0] == 'S'); assert("PIONEER"@[0] == 'P'); assert(a.spec_str() == "SPECIAL"@); assert(b.spec_str() == "PIONEER"@); assert(a.spec_str()[0] != b.spec_str()[0]); }
            (Profession::Specialist, Profession::Guard) => { assert("SPECIAL"@[0] == 'S'); assert("WARRIOR"@[0] == 'W'); assert(a.spec_str() == "SPECIAL"@); assert(b.spec_str() == "WARRIOR"@); assert(a.spec_str()[0] != b.spec_str()[0]); }
            (Profession::Specialist, Profession::Defender) => { assert("SPECIAL"@.len() == 7); assert("TANK"@.len() == 4); assert(a.spec_str() == "SPECIAL"@); assert(b.spec_str() == "TANK"@); assert(a.spec_str().len() != b.spec_str().len()); }
            (Profession::Specialist, Profession::Sniper) => { assert("SPECIAL"@.len() == 7); assert("SNIPER"@.len() == 6); assert(a.spec_str() == "SPECIAL"@); assert(b.spec_str() == "SNIPER"@); assert(a.spec_str().len() != b.spec_str().len()); }
            (Profession::Specialist, Profession::Caster) => { assert("SPECIAL"@.len() == 7); assert("CASTER"@.len() == 6); assert(a.spec_str() == "SPECIAL"@); assert(b.spec_str() == "CASTER"@); assert(a.spec_str().len() != b.spec_str().len()); }
            (Profession::Specialist, Profession::Medic) => { assert("SPECIAL"@.len() == 7); assert("MEDIC"@.len() == 5); assert(a.spec_str() == "SPECIAL"@); assert(b.spec_str() == "MEDIC"@); assert(a.spec_str().len() != b.spec_str().len()); }
            (Profession::Specialist, Profession::Supporter) => { assert("SPECIAL"@[1] == 'P'); assert("SUPPORT"@[1] == 'U'); assert(a.spec_str() == "SPECIAL"@); assert(b.spec_str() == "SUPPORT"@); assert(a.spec_str()[1] != b.spec_str()[1]); }
            (Profession::Specialist, Profession::Specialist) => {}
        }
    }

    /// Parses an upstream string: the variant whose string it is, or
    /// `UnknownVariant` when it is no variant's.
    pub fn parse_str(s: &str) -> (r: Result<Profession, UnknownVariant>)
        ensures
            match r {
                Ok(v) => v.spec_str() == s@,
                Err(e) => (forall|v: Profession| v.spec_str() != s@) && e.value@ == s@
                    && e.enum_name@ == "Profession"@,
            },
    {
        if str_eq(s, "PIONEER") {
            return Ok(Profession::Vanguard);
        }
        if str_eq(s, "WARRIOR") {
            return Ok(Profession::Guard);
        }
        if str_eq(s, "TANK") {
            return Ok(Profession::Defender);
        }
        if str_eq(s, "SNIPER") {
            return Ok(Profession::Sniper);
        }
        if str_eq(s, "CASTER") {
            return Ok(Profession::Caster);
        }
        if str_eq(s, "MEDIC") {
            return Ok(Profession::Medic);
        }
        if str_eq(s, "SUPPORT") {
            return Ok(Profession::Supporter);
        }
        if str_eq(s, "SPECIAL") {
            return Ok(Profession::Specialist);
        }
        Err(UnknownVariant { enum_name: "Profession", value: s.to_owned() })
    }
}

impl std::str::FromStr for Profession {
    type Err = UnknownVariant;

    fn from_str(s: &str) -> (r: Result<Profession, UnknownVariant>)
        ensures
            match r {
                Ok(v) => v.spec_str() == s@,
                Err(e) => (forall|v: Profession| v.spec_str() != s@) && e.value@ == s@
                    && e.enum_name@ == "Profession"@,
            },
    {
        Self::parse_str(s)
    }
}

/// Product families a Factory or Workshop can produce. Used both by
/// production formulas and by skill efficiency-target metadata.
#[derive(Debug, Clone, Copy, PartialEq, Eq, Hash, PartialOrd, Ord, Structural)]
pub enum ProductType {
    /// Pure Gold (`F_GOLD`).
    Gold,
    /// Battle Records (`F_EXP`).
    Exp,
    /// Originium Shards (`F_DIAMOND`).
    OriginiumShard,
    /// Workshop: building materials.
    Building,
    /// Workshop: elite (promotion) materials.
    Evolve,
    /// Workshop: skill summaries.
    Skill,
    /// Chip / record conversion (`F_ASC`).
    Asc,
}

impl ProductType {
    /// Every variant, in declaration order.
    pub const ALL: [ProductType; 7] = [
        ProductType::Gold,
        ProductType::Exp,
        ProductType::OriginiumShard,
        ProductType::Building,
        ProductType::Evolve,
        ProductType::Skill,
        ProductType::Asc,
    ];

    /// The upstream string of a variant.
    pub open spec fn spec_str(self) -> Seq<char> {
        match self {
            ProductType::Gold => "F_GOLD"@,
            ProductType::Exp => "F_EXP"@,
            ProductType::OriginiumShard => "F_DIAMOND"@,
            ProductType::Building => "F_BUILDING"@,
            ProductType::Evolve => "F_EVOLVE"@,
            ProductType::Skill => "F_SKILL"@,
            ProductType::Asc => "F_ASC"@,
        }
    }

    /// The upstream string this variant is parsed from.
    pub fn as_str(self) -> (r: &'static str)
        ensures
            r@ == self.spec_str(),
    {
        match self {
            ProductType::Gold => "F_GOLD",
            ProductType::Exp => "F_EXP",
            ProductType::OriginiumShard => "F_DIAMOND",
            ProductType::Building => "F_BUILDING",
            ProductType::Evolve => "F_EVOLVE",
            ProductType::Skill => "F_SKILL",
            ProductType::Asc => "F_ASC",
        }
    }

    /// Distinct variants have distinct upstream strings.
    pub proof fn lemma_str_injective(a: ProductType, b: ProductType)
        requires
            a.spec_str() == b.spec_str(),
        ensures
            a == b,
    {
        reveal_strlit("F_GOLD");
        reveal_strlit("F_EXP");
        reveal_strlit("F_DIAMOND");
        reveal_strlit("F_BUILDING");
        reveal_strlit("F_EVOLVE");
        reveal_strlit("F_SKILL");
        reveal_strlit("F_ASC");
        match (a, b) {
            (ProductType::Gold, ProductType::Gold) => {}
            (ProductType::Gold, ProductType::Exp) => { assert("F_GOLD"@.len() == 6); assert("F_EXP"@.len() == 5); assert(a.spec_str() == "F_GOLD"@); assert(b.spec_str() == "F_EXP"@); assert(a.spec_str().len() != b.spec_str().len()); }
            (ProductType::Gold, ProductType::OriginiumShard) => { assert("F_GOLD"@.len() == 6); assert("F_DIAMOND"@.len() == 9); assert(a.spec_str() == "F_GOLD"@); assert(b.spec_str() == "F_DIAMOND"@); assert(a.spec_str().len() != b.spec_str().len()); }
            (ProductType::Gold, ProductType::Building) => { assert("F_GOLD"@.len() == 6); assert("F_BUILDING"@.len() == 10); assert(a.spec_str() == "F_GOLD"@); assert(b.spec_str() == "F_BUILDING"@); assert(a.spec_str().len() != b.spec_str().len()); }
            (ProductType::Gold, ProductType::Evolve) => { assert("F_GOLD"@.len() == 6); assert("F_EVOLVE"@.len() == 8); assert(a.spec_str() == "F_GOLD"@); assert(b.spec_str() == "F_EVOLVE"@); assert(a.spec_str().len() != b.spec_str().len()); }
            (ProductType::Gold, ProductType::Skill) => { assert("F_GOLD"@.len() == 6); assert("F_SKILL"@.len() == 7); assert(a.spec_str() == "F_GOLD"@); assert(b.spec_str() == "F_SKILL"@); assert(a.spec_str().len() != b.spec_str().len()); }
            (ProductType::Gold, ProductType::Asc) => { assert("F_GOLD"@.len() == 6); assert("F_ASC"@.len() == 5); assert(a.spec_str() == "F_GOLD"@); assert(b.spec_str() == "F_ASC"@); assert(a.spec_str().len() != b.spec_str().len()); }
            (ProductType::Exp, ProductType::Gold) => { assert("F_EXP"@.len() == 5); assert("F_GOLD"@.len() == 6); assert(a.spec_str() == "F_EXP"@); assert(b.spec_str() == "F_GOLD"@); assert(a.spec_str().len() != b.spec_str().len()); }
            (ProductType::Exp, ProductType::Exp) => {}
            (ProductType::Exp, ProductType::OriginiumShard) => { assert("F_EXP"@.len() == 5); assert("F_DIAMOND"@.len() == 9); assert(a.spec_str() == "F_EXP"@); assert(b.spec_str() == "F_DIAMOND"@); assert(a.spec_str().len() != b.spec_str().len()); }
            (ProductType::Exp, ProductType::Building) => { assert("F_EXP"@.len() == 5); assert("F_BUILDING"@.len() == 10); assert(a.spec_str() == "F_EXP"@); assert(b.spec_str() == "F_BUILDING"@); assert(a.spec_str().len() != b.spec_str().len()); }
            (ProductType::Exp, ProductType::Evolve) => { assert("F_EXP"@.len() == 5); assert("F_EVOLVE"@.len() == 8); assert(a.spec_str() == "F_EXP"@); assert(b.spec_str() == "F_EVOLVE"@); assert(a.spec_str().len() != b.spec_str().len()); }
            (ProductType::Exp, ProductType::Skill) => { assert("F_EXP"@.len() == 5); assert("F_SKILL"@.len() == 7); assert(a.spec_str() == "F_EXP"@); assert(b.spec_str() == "F_SKILL"@); assert(a.spec_str().len() != b.spec_str().len()); }
            (ProductType::Exp, ProductType::Asc) => { assert("F_EXP"@[2] == 'E'); assert("F_ASC"@[2] == 'A'); assert(a.spec_str() == "F_EXP"@); assert(b.spec_str() == "F_ASC"@); assert(a.spec_str()[2] != b.spec_str()[2]); }
            (ProductType::OriginiumShard, ProductType::Gold) => { assert("F_DIAMOND"@.len() == 9); assert("F_GOLD"@.len() == 6); assert(a.spec_str() == "F_DIAMOND"@); assert(b.spec_str() == "F_GOLD"@); assert(a.spec_str().len() != b.spec_str().len()); }
            (ProductType::OriginiumShard, ProductType::Exp) => { assert("F_DIAMOND"@.len() == 9); assert("F_EXP"@.len() == 5); assert(a.spec_str() == "F_DIAMOND"@); assert(b.spec_str() == "F_EXP"@); assert(a.spec_str().len() != b.spec_str().len()); }
            (ProductType::OriginiumShard, ProductType::OriginiumShard) => {}
            (ProductType::OriginiumShard, ProductType::Building) => { assert("F_DIAMOND"@.len() == 9); assert("F_BUILDING"@.len() == 10); assert(a.spec_str() == "F_DIAMOND"@); assert(b.spec_str() == "F_BUILDING"@); assert(a.spec_str().len() != b.spec_str().len()); }
            (ProductType::OriginiumShard, ProductType::Evolve) => { assert("F_DIAMOND"@.len() == 9); assert("F_EVOLVE"@.len() == 8); assert(a.spec_str() == "F_DIAMOND"@); assert(b.spec_str() == "F_EVOLVE"@); assert(a.spec_str().len() != b.spec_str().len()); }
            (ProductType::OriginiumShard, ProductType::Skill) => { assert("F_DIAMOND"@.len() == 9); assert("F_SKILL"@.len() == 7); assert(a.spec_str() == "F_DIAMOND"@); assert(b.spec_str() == "F_SKILL"@); assert(a.spec_str().len() != b.spec_str().len()); }
            (ProductType::OriginiumShard, ProductType::Asc) => { assert("F_DIAMOND"@.len() == 9); assert("F_ASC"@.len() == 5); assert(a.spec_str() == "F_DIAMOND"@); assert(b.spec_str() == "F_ASC"@); assert(a.spec_str().len() != b.spec_str().len()); }
            (ProductType::Building, ProductType::Gold) => { assert("F_BUILDING"@.len() == 10); assert("F_GOLD"@.len() == 6); assert(a.spec_str() == "F_BUILDING"@); assert(b.spec_str() == "F_GOLD"@); assert(a.spec_str().len() != b.spec_str().len()); }
            (ProductType::Building, ProductType::Exp) => { assert("F_BUILDING"@.len() == 10); assert("F_EXP"@.len() == 5); assert(a.spec_str() == "F_BUILDING"@); assert(b.spec_str() == "F_EXP"@); assert(a.spec_str().len() != b.spec_str().len()); }
            (ProductType::Building, ProductType::OriginiumShard) => { assert("F_BUILDING"@.len() == 10); assert("F_DIAMOND"@.len() == 9); assert(a.spec_str() == "F_BUILDING"@); assert(b.spec_str() == "F_DIAMOND"@); assert(a.spec_str().len() != b.spec_str().len()); }
            (ProductType::Building, ProductType::Building) => {}
            (ProductType::Building, ProductType::Evolve) => { assert("F_BUILDING"@.len() == 10); assert("F_EVOLVE"@.len() == 8); assert(a.spec_str() == "F_BUILDING"@); assert(b.spec_str() == "F_EVOLVE"@); assert(a.spec_str().len() != b.spec_str().len()); }
            (ProductType::Building, ProductType::Skill) => { assert("F_BUILDING"@.len() == 10); assert("F_SKILL"@.len() == 7); assert(a.spec_str() == "F_BUILDING"@); assert(b.spec_str() == "F_SKILL"@); assert(a.spec_str().len() != b.spec_str().len()); }
            (ProductType::Building, ProductType::Asc) => { assert("F_BUILDING"@.len() == 10); assert("F_ASC"@.len() == 5); assert(a.spec_str() == "F_BUILDING"@); assert(b.spec_str() == "F_ASC"@); assert(a.spec_str().len() != b.spec_str().len()); }
            (ProductType::Evolve, ProductType::Gold) => { assert("F_EVOLVE"@.len() == 8); assert("F_GOLD"@.len() == 6); assert(a.spec_str() == "F_EVOLVE"@); assert(b.spec_str() == "F_GOLD"@); assert(a.spec_str().len() != b.spec_str().len()); }
            (ProductType::Evolve, ProductType::Exp) => { assert("F_EVOLVE"@.len() == 8); assert("F_EXP"@.len() == 5); assert(a.spec_str() == "F_EVOLVE"@); assert(b.spec_str() == "F_EXP"@); assert(a.spec_str().len() != b.spec_str().len()); }
            (ProductType::Evolve, ProductType::OriginiumShard) => { assert("F_EVOLVE"@.len() == 8); assert("F_DIAMOND"@.len() == 9); assert(a.spec_str() == "F_EVOLVE"@); assert(b.spec_str() == "F_DIAMOND"@); assert(a.spec_str().len() != b.spec_str().len()); }
            (ProductType::Evolve, ProductType::Building) => { assert("F_EVOLVE"@.len() == 8); assert("F_BUILDING"@.len() == 10); assert(a.spec_str() == "F_EVOLVE"@); assert(b.spec_str() == "F_BUILDING"@); assert(a.spec_str().len() != b.spec_str().len()); }
            (ProductType::Evolve, ProductType::Evolve) => {}
            (ProductType::Evolve, ProductType::Skill) => { assert("F_EVOLVE"@.len() == 8); assert("F_SKILL"@.len() == 7); assert(a.spec_str() == "F_EVOLVE"@); assert(b.spec_str() == "F_SKILL"@); assert(a.spec_str().len() != b.spec_str().len()); }
            (ProductType::Evolve, ProductType::Asc) => { assert("F_EVOLVE"@.len() == 8); assert("F_ASC"@.len() == 5); assert(a.spec_str() == "F_EVOLVE"@); assert(b.spec_str() == "F_ASC"@); assert(a.spec_str().len() != b.spec_str().len()); }
            (ProductType::Skill, ProductType::Gold) => { assert("F_SKILL"@.len() == 7); assert("F_GOLD"@.len() == 6); assert(a.spec_str() == "F_SKILL"@); assert(b.spec_str() == "F_GOLD"@); assert(a.spec_str().len() != b.spec_str().len()); }
            (ProductType::Skill, ProductType::Exp) => { assert("F_SKILL"@.len() == 7); assert("F_EXP"@.len() == 5); assert(a.spec_str() == "F_SKILL"@); assert(b.spec_str() == "F_EXP"@); assert(a.spec_str().len() != b.spec_str().len()); }
            (ProductType::Skill, ProductType::OriginiumShard) => { assert("F_SKILL"@.len() == 7); assert("F_DIAMOND"@.len() == 9); assert(a.spec_str() == "F_SKILL"@); assert(b.spec_str() == "F_DIAMOND"@); assert(a.spec_str().len() != b.spec_str().len()); }
            (ProductType::Skill, ProductType::Building) => { assert("F_SKILL"@.len() == 7); assert("F_BUILDING"@.len() == 10); assert(a.spec_str() == "F_SKILL"@); assert(b.spec_str() == "F_BUILDING"@); assert(a.spec_str().len() != b.spec_str().len()); }
            (ProductType::Skill, ProductType::Evolve) => { assert("F_SKILL"@.len() == 7); assert("F_EVOLVE"@.len() == 8); assert(a.spec_str() == "F_SKILL"@); assert(b.spec_str() == "F_EVOLVE"@); assert(a.spec_str().len() != b.spec_str().len()); }
            (ProductType::Skill, ProductType::Skill) => {}
            (ProductType::Skill, ProductType::Asc) => { assert("F_SKILL"@.len() == 7); assert("F_ASC"@.len() == 5); assert(a.spec_str() == "F_SKILL"@); assert(b.spec_str() == "F_ASC"@); assert(a.spec_str().len() != b.spec_str().len()); }
            (ProductType::Asc, ProductType::Gold) => { assert("F_ASC"@.len() == 5); assert("F_GOLD"@.len() == 6); assert(a.spec_str() == "F_ASC"@); assert(b.spec_str() == "F_GOLD"@); assert(a.spec_str().len() != b.spec_str().len()); }
            (ProductType::Asc, ProductType::Exp) => { assert("F_ASC"@[2] == 'A'); assert("F_EXP"@[2] == 'E'); assert(a.spec_str() == "F_ASC"@); assert(b.spec_str() == "F_EXP"@); assert(a.spec_str()[2] != b.spec_str()[2]); }
            (ProductType::Asc, ProductType::OriginiumShard) => { assert("F_ASC"@.len() == 5); assert("F_DIAMOND"@.len() == 9); assert(a.spec_str() == "F_ASC"@); assert(b.spec_str() == "F_DIAMOND"@); assert(a.spec_str().len() != b.spec_str().len()); }
            (ProductType::Asc, ProductType::Building) => { assert("F_ASC"@.len() == 5); assert("F_BUILDING"@.len() == 10); assert(a.spec_str() == "F_ASC"@); assert(b.spec_str() == "F_BUILDING"@); assert(a.spec_str().len() != b.spec_str().len()); }
            (ProductType::Asc, ProductType::Evolve) => { assert("F_ASC"@.len() == 5); assert("F_EVOLVE"@.len() == 8); assert(a.spec_str() == "F_ASC"@); assert(b.spec_str() == "F_EVOLVE"@); assert(a.spec_str().len() != b.spec_str().len()); }
            (ProductType::Asc, ProductType::Skill) => { assert("F_ASC"@.len() == 5); assert("F_SKILL"@.len() == 7); assert(a.spec_str() == "F_ASC"@); assert(b.spec_str() == "F_SKILL"@); assert(a.spec_str().len() != b.spec_str().len()); }
            (ProductType::Asc, ProductType::Asc) => {}
        }
    }

    /// Parses an upstream string: the variant whose string it is, or
    /// `UnknownVariant` when it is no variant's.
    pub fn parse_str(s: &str) -> (r: Result<ProductType, UnknownVariant>)
        ensures
            match r {
                Ok(v) => v.spec_str() == s@,
                Err(e) => (forall|v: ProductType| v.spec_str() != s@) && e.value@ == s@
                    && e.enum_name@ == "ProductType"@,
            },
    {
        if str_eq(s, "F_GOLD") {
            return Ok(ProductType::Gold);
        }
        if str_eq(s, "F_EXP") {
            return Ok(ProductType::Exp);
        }
        if str_eq(s, "F_DIAMOND") {
            return Ok(ProductType::OriginiumShard);
        }
        if str_eq(s, "F_BUILDING") {
            return Ok(ProductType::Building);
        }
        if str_eq(s, "F_EVOLVE") {
            return Ok(ProductType::Evolve);
        }
        if str_eq(s, "F_SKILL") {
            return Ok(ProductType::Skill);
        }
        if str_eq(s, "F_ASC") {
            return Ok(ProductType::Asc);
        }
        Err(UnknownVariant { enum_name: "ProductType", value: s.to_owned() })
    }
}

impl std::str::FromStr for ProductType {
    type Err = UnknownVariant;

    fn from_str(s: &str) -> (r: Result<ProductType, UnknownVariant>)
        ensures
            match r {
                Ok(v) => v.spec_str() == s@,
                Err(e) => (forall|v: ProductType| v.spec_str() != s@) && e.value@ == s@
                    && e.enum_name@ == "ProductType"@,
            },
    {
        Self::parse_str(s)
    }
}

impl RoomType {
    /// Rooms operators can be stationed in: everything except the Private
    /// Quarters, elevators and corridors.
    pub open spec fn spec_is_staffable(self) -> bool {
        !(self is Private || self is Elevator || self is Corridor)
    }

    /// Staffable rooms other than Dormitories: where operators work.
    pub open spec fn spec_is_work_area(self) -> bool {
        self.spec_is_staffable() && !(self is Dormitory)
    }

    /// Rooms that base skills can target. This is exactly the set of
    /// `roomType` values observed on upstream buffs.
    pub fn has_base_skills(self) -> (r: bool)
        ensures
            r == self.spec_is_staffable(),
    {
        !matches!(self, RoomType::Private | RoomType::Elevator | RoomType::Corridor)
    }

    /// Rooms operators can be stationed in: everything except the Private
    /// Quarters, elevators and corridors.
    pub fn is_staffable(self) -> (r: bool)
        ensures
            r == self.spec_is_staffable(),
    {
        !matches!(self, RoomType::Private | RoomType::Elevator | RoomType::Corridor)
    }

    /// Staffable rooms other than Dormitories: where operators *work* and
    /// drain morale. Upstream calls these "non-Dormitory facilities".
    pub fn is_work_area(self) -> (r: bool)
        ensures
            r == self.spec_is_work_area(),
    {
        self.is_staffable() && !matches!(self, RoomType::Dormitory)
    }

    /// Stable English name, independent of the loaded locale.
    pub open spec fn spec_english_name(self) -> Seq<char> {
        match self {
            RoomType::Control => "Control Center"@,
            RoomType::Power => "Power Plant"@,
            RoomType::Manufacture => "Factory"@,
            RoomType::Trading => "Trading Post"@,
            RoomType::Dormitory => "Dormitory"@,
            RoomType::Private => "Private Quarters"@,
            RoomType::Workshop => "Workshop"@,
            RoomType::Hire => "Office"@,
            RoomType::Training => "Training Room"@,
            RoomType::Meeting => "Reception Room"@,
            RoomType::Elevator => "Elevator"@,
            RoomType::Corridor => "Corridor"@,
        }
    }

    /// Stable English name, independent of the loaded locale.
    pub fn english_name(self) -> (r: &'static str)
        ensures
            r@ == self.spec_english_name(),
    {
        match self {
            RoomType::Control => "Control Center",
            RoomType::Power => "Power Plant",
            RoomType::Manufacture => "Factory",
            RoomType::Trading => "Trading Post",
            RoomType::Dormitory => "Dormitory",
            RoomType::Private => "Private Quarters",
            RoomType::Workshop => "Workshop",
            RoomType::Hire => "Office",
            RoomType::Training => "Training Room",
            RoomType::Meeting => "Reception Room",
            RoomType::Elevator => "Elevator",
            RoomType::Corridor => "Corridor",
        }
    }
}

impl RoomCategory {
    /// The layout slot category of the same name.
    pub open spec fn spec_slot_category(self) -> SlotCategory {
        match self {
            RoomCategory::Special => SlotCategory::Special,
            RoomCategory::Output => SlotCategory::Output,
            RoomCategory::Function => SlotCategory::Function,
            RoomCategory::Custom => SlotCategory::Custom,
            RoomCategory::CustomP => SlotCategory::CustomP,
        }
    }

    /// The layout slot category that rooms of this category are built in.
    pub fn slot_category(self) -> (r: SlotCategory)
        ensures
            r == self.spec_slot_category(),
    {
        match self {
            RoomCategory::Special => SlotCategory::Special,
            RoomCategory::Output => SlotCategory::Output,
            RoomCategory::Function => SlotCategory::Function,
            RoomCategory::Custom => SlotCategory::Custom,
            RoomCategory::CustomP => SlotCategory::CustomP,
        }
    }
}

impl ElitePhase {
    /// Position in promotion order: `E0` is 0, `E2` is 2.
    pub open spec fn rank(self) -> int {
        match self {
            ElitePhase::E0 => 0,
            ElitePhase::E1 => 1,
            ElitePhase::E2 => 2,
        }
    }

    /// Position in promotion order: `E0` is 0, `E2` is 2.
    pub(crate) fn index(self) -> (r: u8)
        ensures
            r == self.rank(),
    {
        match self {
            ElitePhase::E0 => 0,
            ElitePhase::E1 => 1,
            ElitePhase::E2 => 2,
        }
    }
}

impl Rarity {
    /// Star count as shown in-game (1..=6).
    pub open spec fn spec_stars(self) -> u8 {
        match self {
            Rarity::Tier1 => 1,
            Rarity::Tier2 => 2,
            Rarity::Tier3 => 3,
            Rarity::Tier4 => 4,
            Rarity::Tier5 => 5,
            Rarity::Tier6 => 6,
        }
    }

    /// Star count as shown in-game (1..=6).
    pub fn stars(self) -> (r: u8)
        ensures
            r == self.spec_stars(),
            1 <= r <= 6,
    {
        match self {
            Rarity::Tier1 => 1,
            Rarity::Tier2 => 2,
            Rarity::Tier3 => 3,
            Rarity::Tier4 => 4,
            Rarity::Tier5 => 5,
            Rarity::Tier6 => 6,
        }
    }

    /// Maps the legacy zero-based integer encoding (0 = one star): the
    /// rarity with `index + 1` stars, `None` above 5.
    pub fn from_index(index: u8) -> (r: Option<Self>)
        ensures
            match r {
                Some(v) => index <= 5 && v.spec_stars() == index + 1,
                None => index > 5,
            },
    {
        match index {
            0 => Some(Rarity::Tier1),
            1 => Some(Rarity::Tier2),
            2 => Some(Rarity::Tier3),
            3 => Some(Rarity::Tier4),
            4 => Some(Rarity::Tier5),
            5 => Some(Rarity::Tier6),
            _ => None,
        }
    }
}

/// Each star count names one rarity, so `from_index` undoes `stars`.
pub proof fn lemma_rarity_stars_injective(a: Rarity, b: Rarity)
    requires
        a.spec_stars() == b.spec_stars(),
    ensures
        a == b,
{
}

} // verus!
