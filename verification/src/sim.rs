//! The simulation's integer vocabulary: run policies, stat kinds, the
//! errors a run can refuse with, the warnings it records, the events it
//! reports and the actions a rotation policy may ask for.

use vstd::prelude::*;
use crate::assignment::{AssignmentError, Slot};
use crate::base::{BaseError, Room};
use crate::enums::RoomType;
use crate::ids::{BuffId, FormulaId, ItemId, OperatorId, RoomId, SubProfessionId};
use crate::mechanics::Stat;
use crate::text::str_eq;

verus! {

/// Where each operator's morale starts.
#[derive(Debug, Clone, Copy, PartialEq, Eq, Structural)]
pub enum MoodPolicy {
    /// Everyone starts at maximum morale.
    Full,
    /// Use the roster's recorded morale; operators without one start full.
    Roster,
}

impl Default for MoodPolicy {
    fn default() -> (r: Self)
        ensures
            r == MoodPolicy::Full,
    {
        MoodPolicy::Full
    }
}

/// What to do about a stationed operator the roster does not list.
#[derive(Debug, Clone, Copy, PartialEq, Eq, Structural)]
pub enum MissingRoster {
    /// Assume every skill tier is unlocked, and warn.
    AssumeMaxed,
    /// Refuse to simulate.
    Error,
}

impl Default for MissingRoster {
    fn default() -> (r: Self)
        ensures
            r == MissingRoster::AssumeMaxed,
    {
        MissingRoster::AssumeMaxed
    }
}

/// The upstream subclass id of a subclass display name that appears in
/// skill descriptions.
pub open spec fn builtin_subclass(name: Seq<char>) -> Option<Seq<char>> {
    if name == "Arts Protector"@ {
        Some("artsprotector"@)
    } else if name == "Besieger"@ {
        Some("siegesniper"@)
    } else if name == "Chain Medic"@ {
        Some("chainhealer"@)
    } else if name == "Fighter"@ {
        Some("fighter"@)
    } else if name == "Lord"@ {
        Some("lord"@)
    } else if name == "Marksman"@ {
        Some("fastshot"@)
    } else if name == "Wandering Medic"@ {
        Some("wandermedic"@)
    } else {
        None
    }
}

/// Subclass display names that appear in skill descriptions, mapped to the
/// upstream `subProfessionId`.
pub fn builtin_subclass_id(name: &str) -> (r: Option<&'static str>)
    ensures
        match r {
            Some(id) => builtin_subclass(name@) == Some(id@),
            None => builtin_subclass(name@) is None,
        },
{
    if str_eq(name, "Arts Protector") {
        Some("artsprotector")
    } else if str_eq(name, "Besieger") {
        Some("siegesniper")
    } else if str_eq(name, "Chain Medic") {
        Some("chainhealer")
    } else if str_eq(name, "Fighter") {
        Some("fighter")
    } else if str_eq(name, "Lord") {
        Some("lord")
    } else if str_eq(name, "Marksman") {
        Some("fastshot")
    } else if str_eq(name, "Wandering Medic") {
        Some("wandermedic")
    } else {
        None
    }
}

/// Membership tables for groups the game data does not define, each keyed
/// by a label. `wf` says each label is listed once; a lookup reads the first
/// entry for a label.
#[derive(Debug, Clone, PartialEq, Eq)]
pub struct Memberships {
    /// Upstream glossary tags with no table behind them (`knight`, `op`,
    /// `mh`, ...) and the operator ids in each. A tag with no entry makes
    /// every counter over it zero, with a warning.
    pub tags: Vec<(String, Vec<OperatorId>)>,
    /// Skill-type glossary ids (`manu1`, `manu2`, `manu4`) and the skill
    /// family prefixes that belong to each type.
    pub skill_types: Vec<(String, Vec<String>)>,
    /// Subclass display names and their upstream subclass ids, overriding
    /// or extending `builtin_subclass_id`.
    pub subclass_names: Vec<(String, SubProfessionId)>,
}

impl Default for Memberships {
    fn default() -> (r: Self)
        ensures
            r.wf(),
            r.tags@.len() == 0,
            r.skill_types@.len() == 0,
            r.subclass_names@.len() == 0,
    {
        Memberships { tags: Vec::new(), skill_types: Vec::new(), subclass_names: Vec::new() }
    }
}

/// The subclass id a name resolves to: the first table entry for it, else
/// the built-in mapping.
pub open spec fn resolve_subclass(table: Seq<(String, SubProfessionId)>, name: Seq<char>) -> Option<Seq<char>>
    decreases table.len(),
{
    if table.len() == 0 {
        builtin_subclass(name)
    } else if table[0].0@ == name {
        Some(table[0].1@)
    } else {
        resolve_subclass(table.drop_first(), name)
    }
}

/// Whether no label is listed twice in a table.
pub open spec fn labels_once<T>(table: Seq<(String, T)>) -> bool {
    forall|i: int, j: int| 0 <= i < j < table.len() ==> (#[trigger] table[i]).0@ != (#[trigger] table[j]).0@
}

/// A subclass table entry for `name` decides what `name` resolves to, when
/// the table lists each name once: the table overrides the built-in mapping.
pub proof fn law_subclass_entry_wins(table: Seq<(String, SubProfessionId)>, k: int)
    requires
        labels_once(table),
        0 <= k < table.len(),
    ensures
        resolve_subclass(table, table[k].0@) == Some(table[k].1@),
    decreases k,
{
    if k > 0 {
        let t = table.drop_first();
        assert(t[k - 1] == table[k]);
        assert(table[0].0@ != table[k].0@);
        assert forall|i: int, j: int| 0 <= i < j < t.len() implies (#[trigger] t[i]).0@ != (
        #[trigger] t[j]).0@ by {
            assert(t[i] == table[i + 1]);
            assert(t[j] == table[j + 1]);
        }
        law_subclass_entry_wins(t, k - 1);
    }
}

/// In any subclass table, the first entry for a name decides what it
/// resolves to; later entries for the same name are shadowed, as a keyed
/// table's single entry would be.
pub proof fn law_subclass_first_entry_wins(table: Seq<(String, SubProfessionId)>, k: int)
    requires
        0 <= k < table.len(),
        forall|i: int| 0 <= i < k ==> (#[trigger] table[i]).0@ != table[k].0@,
    ensures
        resolve_subclass(table, table[k].0@) == Some(table[k].1@),
    decreases k,
{
    if k > 0 {
        let t = table.drop_first();
        assert(t[k - 1] == table[k]);
        assert(table[0].0@ != table[k].0@);
        assert forall|i: int| 0 <= i < k - 1 implies (#[trigger] t[i]).0@ != t[k - 1].0@ by {
            assert(t[i] == table[i + 1]);
        }
        law_subclass_first_entry_wins(t, k - 1);
    }
}

/// A name the subclass table does not list resolves by the built-in
/// mapping.
pub proof fn law_subclass_builtin_otherwise(table: Seq<(String, SubProfessionId)>, name: Seq<char>)
    requires
        forall|i: int| 0 <= i < table.len() ==> (#[trigger] table[i]).0@ != name,
    ensures
        resolve_subclass(table, name) == builtin_subclass(name),
    decreases table.len(),
{
    if table.len() > 0 {
        let t = table.drop_first();
        assert forall|i: int| 0 <= i < t.len() implies (#[trigger] t[i]).0@ != name by {
            assert(t[i] == table[i + 1]);
        }
        law_subclass_builtin_otherwise(t, name);
    }
}

impl Memberships {
    /// Each table lists each label once, as a keyed table does.
    pub open spec fn wf(&self) -> bool {
        &&& labels_once(self.tags@)
        &&& labels_once(self.skill_types@)
        &&& labels_once(self.subclass_names@)
    }

    /// Resolves a subclass display name to its upstream id.
    pub fn subclass_id(&self, name: &str) -> (r: Option<&str>)
        ensures
            match r {
                Some(id) => resolve_subclass(self.subclass_names@, name@) == Some(id@),
                None => resolve_subclass(self.subclass_names@, name@) is None,
            },
    {
        let mut i: usize = 0;
        proof {
            assert(self.subclass_names@.skip(0) =~= self.subclass_names@);
        }
        while i < self.subclass_names.len()
            invariant
                i <= self.subclass_names@.len(),
                resolve_subclass(self.subclass_names@, name@) == resolve_subclass(
                    self.subclass_names@.skip(i as int),
                    name@,
                ),
            decreases self.subclass_names@.len() - i,
        {
            let ghost rest = self.subclass_names@.skip(i as int);
            proof {
                assert(rest.drop_first() =~= self.subclass_names@.skip(i + 1));
            }
            if str_eq(self.subclass_names[i].0.as_str(), name) {
                return Some(self.subclass_names[i].1.as_str());
            }
            i = i + 1;
        }
        proof {
            assert(self.subclass_names@.skip(i as int) =~= Seq::empty());
        }
        builtin_subclass_id(name)
    }
}

/// A room stat skills can contribute to.
#[derive(Debug, Clone, Copy, PartialEq, Eq, PartialOrd, Ord, Hash, Structural)]
pub enum StatKind {
    /// Factory productivity, percentage points.
    Productivity,
    /// Factory storage, volume units.
    Capacity,
    /// Trading Post order efficiency, percentage points.
    OrderEfficiency,
    /// Trading Post order queue limit.
    OrderLimit,
    /// Power Plant drone recovery, percentage points.
    DroneRecovery,
    /// Reception Room clue search speed, percentage points.
    ClueSpeed,
    /// Office contact speed, percentage points.
    ContactSpeed,
    /// Training Room speed, percentage points.
    TrainingSpeed,
}

impl StatKind {
    /// Every kind.
    pub const ALL: [StatKind; 8] = [
        StatKind::Productivity,
        StatKind::Capacity,
        StatKind::OrderEfficiency,
        StatKind::OrderLimit,
        StatKind::DroneRecovery,
        StatKind::ClueSpeed,
        StatKind::ContactSpeed,
        StatKind::TrainingSpeed,
    ];

    /// The room kind the stat belongs to.
    pub open spec fn spec_room(self) -> RoomType {
        match self {
            StatKind::Productivity | StatKind::Capacity => RoomType::Manufacture,
            StatKind::OrderEfficiency | StatKind::OrderLimit => RoomType::Trading,
            StatKind::DroneRecovery => RoomType::Power,
            StatKind::ClueSpeed => RoomType::Meeting,
            StatKind::ContactSpeed => RoomType::Hire,
            StatKind::TrainingSpeed => RoomType::Training,
        }
    }

    /// The room kind the stat belongs to.
    pub fn room(self) -> (r: RoomType)
        ensures
            r == self.spec_room(),
    {
        match self {
            StatKind::Productivity | StatKind::Capacity => RoomType::Manufacture,
            StatKind::OrderEfficiency | StatKind::OrderLimit => RoomType::Trading,
            StatKind::DroneRecovery => RoomType::Power,
            StatKind::ClueSpeed => RoomType::Meeting,
            StatKind::ContactSpeed => RoomType::Hire,
            StatKind::TrainingSpeed => RoomType::Training,
        }
    }

    /// The room stat a counted stat is.
    pub fn from_stat(s: Stat) -> (r: StatKind)
        ensures
            r == match s {
                Stat::Productivity => StatKind::Productivity,
                Stat::OrderEfficiency => StatKind::OrderEfficiency,
                Stat::OrderLimit => StatKind::OrderLimit,
                Stat::Capacity => StatKind::Capacity,
            },
    {
        match s {
            Stat::Productivity => StatKind::Productivity,
            Stat::OrderEfficiency => StatKind::OrderEfficiency,
            Stat::OrderLimit => StatKind::OrderLimit,
            Stat::Capacity => StatKind::Capacity,
        }
    }
}

/// Why a run could not start.
#[derive(Debug, Clone, PartialEq, Eq)]
pub enum SimError {
    /// The base config is invalid.
    Base(BaseError),
    /// The assignment does not fit the base.
    Assignment(AssignmentError),
    /// An operator id is not in the game data.
    UnknownOperator(OperatorId),
    /// The roster lacks an operator and the config says that is fatal.
    MissingRoster(OperatorId),
    /// A configuration value is out of range.
    Config(String),
}

/// Something that happened at a point in simulated time.
#[derive(Debug, Clone, PartialEq, Eq)]
pub enum EventKind {
    /// Morale hit zero while working; the operator's skills stopped.
    Exhausted { operator: OperatorId, room: RoomId },
    /// A rotation moved an operator.
    Moved { operator: OperatorId, from: Option<Slot>, to: Slot },
    /// A rotation took an operator off the base.
    Benched { operator: OperatorId, from: Slot },
    /// Factory storage filled; production paused until collection.
    StorageFull { room: RoomId },
    /// Trading Post order queue filled; no new orders until collection.
    OrderQueueFull { room: RoomId },
    /// Trading Post has orders but no input stock to fulfil them.
    InputStarved { room: RoomId, item: ItemId },
    /// A Training Room finished its specialisation.
    TrainingCompleted { room: RoomId },
    /// A periodic collection happened.
    Collected,
}

/// A change a rotation policy asks for.
#[derive(Debug, Clone, PartialEq, Eq)]
pub enum SimAction {
    /// Station an operator at a slot (from wherever they are, or from the
    /// bench). Whoever was there is benched.
    Move { operator: OperatorId, to: Slot },
    /// Take an operator off the base.
    Bench { operator: OperatorId },
}

/// Nobody ever moves. The naive baseline.
#[derive(Debug, Clone, Copy, Default)]
pub struct NoRotation;

impl NoRotation {
    /// Actions to apply now: none, ever.
    pub fn next_actions(&self) -> (r: Vec<SimAction>)
        ensures
            r@.len() == 0,
    {
        Vec::new()
    }
}

/// What a stationed operator is doing.
#[derive(Debug, Clone, Copy, PartialEq, Eq, Structural)]
pub enum Role {
    /// In a work area: skills apply, morale drains.
    Working,
    /// In a Dormitory: skills apply, morale recovers.
    Resting,
    /// Stationed but neither: a Training Room trainee, or an assistant with
    /// no training running. No skills, no morale change.
    Idle,
}

/// A room and its occupants.
#[derive(Debug)]
pub struct RoomView<'a> {
    /// The room.
    pub room: &'a Room,
    /// Indexes into the run's operator table.
    pub occupants: Vec<usize>,
}


impl SimError {
    /// Why the run could not start, in words.
    pub open spec fn spec_message(&self) -> Seq<char> {
        match self {
            SimError::Base(e) => "invalid base: "@ + e.spec_message(),
            SimError::Assignment(e) => "invalid assignment: "@ + e.spec_message(),
            SimError::UnknownOperator(op) => "unknown operator "@ + op@,
            SimError::MissingRoster(op) => "operator "@ + op@ + " is not in the roster"@,
            SimError::Config(msg) => "invalid config: "@ + msg@,
        }
    }

    /// Why the run could not start, in words.
    pub fn message(&self) -> (r: String)
        ensures
            r@ == self.spec_message(),
    {
        match self {
            SimError::Base(e) => {
                let mut out = "invalid base: ".to_owned();
                let m = e.message();
                out.append(m.as_str());
                out
            },
            SimError::Assignment(e) => {
                let mut out = "invalid assignment: ".to_owned();
                let m = e.message();
                out.append(m.as_str());
                out
            },
            SimError::UnknownOperator(op) => {
                let mut out = "unknown operator ".to_owned();
                out.append(op.as_str());
                out
            },
            SimError::MissingRoster(op) => {
                let mut out = "operator ".to_owned();
                out.append(op.as_str());
                out.append(" is not in the roster");
                out
            },
            SimError::Config(msg) => {
                let mut out = "invalid config: ".to_owned();
                out.append(msg.as_str());
                out
            },
        }
    }
}

} // verus!
