//! The player's base: which rooms exist, at what level, and what each one is
//! doing. This is configuration: nothing here changes while a base runs.

use vstd::prelude::*;
use crate::enums::{Profession, RoomCategory, RoomType, SlotCategory};
use crate::facility::{Facility, FacilityPhase};
use crate::formula::{ManufactureFormula, RoomRequirement};
use crate::game_data::GameData;
use crate::ids::{FormulaId, RoomId, SubProfessionId};
use crate::layout::{LayoutSlot, slots_in};
use crate::seqs::{keep, first_index, lemma_keep_step, lemma_take_all, lemma_first_index_is, lemma_first_index_none};
use crate::text::{str_eq, append_decimal, append_signed, decimal, signed_decimal};

verus! {

/// Training Room slot whose operator assists. Only this operator's skills
/// apply, only this operator drains morale, and only while a `TrainingJob`
/// is running.
pub const TRAINING_ASSISTANT_SLOT: u8 = 0;

/// Training Room slot holding the trainee. The trainee neither works nor
/// rests: no skills, no morale change.
pub const TRAINING_TRAINEE_SLOT: u8 = 1;

/// What a Trading Post sells.
#[derive(Debug, Clone, Copy, PartialEq, Eq, Hash, Structural)]
pub enum TradingStrategy {
    /// Pure Gold to LMD ("Business Strategy", upstream `O_GOLD`).
    Gold,
    /// Originium Shards to Orundum ("Mining Strategy", upstream `O_DIAMOND`).
    OriginiumShard,
}

impl Default for TradingStrategy {
    fn default() -> (r: Self)
        ensures
            r == TradingStrategy::Gold,
    {
        TradingStrategy::Gold
    }
}

/// What a Training Room is doing, as far as base skills care. The job
/// describes the trainee, whether or not the trainee is stationed in
/// `TRAINING_TRAINEE_SLOT`.
#[derive(Debug, Clone, PartialEq, Eq)]
pub struct TrainingJob {
    /// The trainee's class.
    pub profession: Profession,
    /// The trainee's subclass, if a skill needs it.
    pub subclass: Option<SubProfessionId>,
    /// Specialisation level being trained *to* (1..=3).
    pub spec_level: u8,
}

/// Per-kind settings. Fields that do not apply to the room's kind must be
/// left at their defaults; `BaseConfig::validate` rejects anything else.
#[derive(Debug, Clone, PartialEq, Eq)]
pub struct RoomSettings {
    /// Factory: the formula being produced. `None` means idle.
    pub formula: Option<FormulaId>,
    /// Trading Post: what is being sold. `None` means `TradingStrategy::Gold`.
    pub strategy: Option<TradingStrategy>,
    /// Dormitory: ambience (furniture comfort), `0..=comfort_limit`.
    pub ambience: u32,
    /// Training Room: what is being trained. `None` means idle.
    pub training: Option<TrainingJob>,
}

impl Default for RoomSettings {
    fn default() -> (r: Self)
        ensures
            r.formula is None,
            r.strategy is None,
            r.ambience == 0,
            r.training is None,
    {
        RoomSettings { formula: None, strategy: None, ambience: 0, training: None }
    }
}

/// One room in the base.
#[derive(Debug, Clone, PartialEq, Eq)]
pub struct Room {
    /// Label, unique within the base.
    pub id: RoomId,
    /// Kind.
    pub kind: RoomType,
    /// Upgrade level, 1-based.
    pub level: u8,
    /// Kind-specific settings.
    pub settings: RoomSettings,
}

/// The number of operators a room kind takes at a level: zero when the
/// kind or the level is not in the data.
pub open spec fn capacity_of(data: GameData, kind: RoomType, level: u8) -> u8 {
    match data.spec_facility(kind) {
        Some(f) => match f.spec_phase(level) {
            Some(p) => p.max_stationed,
            None => 0,
        },
        None => 0,
    }
}

impl Room {
    /// A room with default settings.
    pub fn new(id: &str, kind: RoomType, level: u8) -> (r: Self)
        ensures
            r.id@ == id@,
            r.kind == kind,
            r.level == level,
            r.settings.formula is None,
            r.settings.strategy is None,
            r.settings.ambience == 0,
            r.settings.training is None,
    {
        Room { id: RoomId::new(id), kind, level, settings: RoomSettings::default() }
    }

    /// Builder: Factory formula.
    pub fn with_formula(self, formula: FormulaId) -> (r: Self)
        ensures
            r == (Room { settings: RoomSettings { formula: Some(formula), ..self.settings }, ..self }),
    {
        let mut r = self;
        r.settings.formula = Some(formula);
        r
    }

    /// Builder: Trading Post strategy.
    pub fn with_strategy(self, strategy: TradingStrategy) -> (r: Self)
        ensures
            r == (Room { settings: RoomSettings { strategy: Some(strategy), ..self.settings }, ..self }),
    {
        let mut r = self;
        r.settings.strategy = Some(strategy);
        r
    }

    /// Builder: Dormitory ambience.
    pub fn with_ambience(self, ambience: u32) -> (r: Self)
        ensures
            r == (Room { settings: RoomSettings { ambience, ..self.settings }, ..self }),
    {
        let mut r = self;
        r.settings.ambience = ambience;
        r
    }

    /// Builder: Training Room job.
    pub fn with_training(self, job: TrainingJob) -> (r: Self)
        ensures
            r == (Room { settings: RoomSettings { training: Some(job), ..self.settings }, ..self }),
    {
        let mut r = self;
        r.settings.training = Some(job);
        r
    }

    /// How many operators can be stationed here at this level. Zero if the
    /// level is out of range.
    pub fn capacity(&self, data: &GameData) -> (r: u8)
        ensures
            r == capacity_of(*data, self.kind, self.level),
    {
        match data.facility(self.kind) {
            Some(f) => match f.phase(self.level) {
                Some(p) => p.max_stationed,
                None => 0,
            },
            None => 0,
        }
    }

    /// The Trading Post strategy, defaulting to gold.
    pub fn strategy(&self) -> (r: TradingStrategy)
        ensures
            r == (match self.settings.strategy {
                Some(s) => s,
                None => TradingStrategy::Gold,
            }),
    {
        match self.settings.strategy {
            Some(s) => s,
            None => TradingStrategy::Gold,
        }
    }
}

/// Why a `BaseConfig` is not buildable.
#[derive(Debug, Clone, PartialEq, Eq)]
pub enum BaseError {
    /// Two rooms share a label.
    DuplicateRoom(RoomId),
    /// Elevators, corridors and the Private Quarters are not rooms operators
    /// work in and may not appear in a base config.
    NotStaffable { room: RoomId, kind: RoomType },
    /// Level is zero or above the kind's maximum.
    BadLevel { room: RoomId, level: u8, max: u8 },
    /// More rooms of a kind than the game allows.
    TooMany { kind: RoomType, count: usize, max: u32 },
    /// A base has exactly one Control Center.
    ControlCount(usize),
    /// A setting was given for a room kind it does not apply to.
    SettingNotApplicable { room: RoomId, setting: &'static str },
    /// A Factory formula id is not in the game data.
    UnknownFormula { room: RoomId, formula: FormulaId },
    /// A Factory formula needs a higher room level than this room has.
    FormulaNeedsLevel { room: RoomId, formula: FormulaId, needs: u8 },
    /// Dormitory ambience above `comfort_limit`.
    AmbienceTooHigh { room: RoomId, ambience: u32, max: u32 },
    /// Training specialisation level outside 1..=3.
    BadSpecLevel { room: RoomId, spec_level: u8 },
    /// Rooms draw more power than the Power Plants supply.
    PowerDeficit { supply: i32, demand: i32 },
    /// More rooms of a category than the layout has slots for.
    NoSlots { category: RoomCategory, rooms: usize, slots: usize },
}

/// The rooms of a base.
#[derive(Debug, Clone, PartialEq, Eq, Default)]
pub struct BaseConfig {
    /// Every room, in display order.
    pub rooms: Vec<Room>,
}

/// Every room kind, in declaration order.
pub open spec fn all_room_types() -> Seq<RoomType> {
    seq![
        RoomType::Control,
        RoomType::Power,
        RoomType::Manufacture,
        RoomType::Trading,
        RoomType::Dormitory,
        RoomType::Private,
        RoomType::Workshop,
        RoomType::Hire,
        RoomType::Training,
        RoomType::Meeting,
        RoomType::Elevator,
        RoomType::Corridor,
    ]
}

/// Every room category, in declaration order.
pub open spec fn all_room_categories() -> Seq<RoomCategory> {
    seq![
        RoomCategory::Special,
        RoomCategory::Output,
        RoomCategory::Function,
        RoomCategory::Custom,
        RoomCategory::CustomP,
    ]
}

/// The rooms of a kind, in order.
pub open spec fn rooms_of_kind(rooms: Seq<Room>, kind: RoomType) -> Seq<Room> {
    keep(rooms, |r: Room| r.kind == kind)
}

/// The electricity of a room at its level: zero when the data lacks it.
pub open spec fn electricity_of(data: GameData, room: Room) -> int {
    match data.spec_facility(room.kind) {
        Some(f) => match f.spec_phase(room.level) {
            Some(p) => p.electricity as int,
            None => 0,
        },
        None => 0,
    }
}

/// Power supplied by the rooms of a sequence.
pub open spec fn supply_of(rooms: Seq<Room>, data: GameData) -> int
    decreases rooms.len(),
{
    if rooms.len() == 0 {
        0
    } else {
        let e = electricity_of(data, rooms.last());
        supply_of(rooms.drop_last(), data) + if e >= 0 {
            e
        } else {
            0
        }
    }
}

/// Power drawn by the rooms of a sequence.
pub open spec fn demand_of(rooms: Seq<Room>, data: GameData) -> int
    decreases rooms.len(),
{
    if rooms.len() == 0 {
        0
    } else {
        let e = electricity_of(data, rooms.last());
        demand_of(rooms.drop_last(), data) + if e >= 0 {
            0
        } else {
            -e
        }
    }
}

/// Supply and demand only grow as rooms are added.
pub proof fn lemma_power_prefix(rooms: Seq<Room>, data: GameData, i: int)
    requires
        0 <= i <= rooms.len(),
    ensures
        0 <= supply_of(rooms.take(i), data) <= supply_of(rooms, data),
        0 <= demand_of(rooms.take(i), data) <= demand_of(rooms, data),
    decreases rooms.len(),
{
    if i < rooms.len() {
        lemma_power_prefix(rooms.drop_last(), data, i);
        assert(rooms.drop_last().take(i) =~= rooms.take(i));
    } else {
        assert(rooms.take(i) =~= rooms);
        lemma_power_nonneg(rooms, data);
    }
}

/// Supply and demand are never negative.
pub proof fn lemma_power_nonneg(rooms: Seq<Room>, data: GameData)
    ensures
        supply_of(rooms, data) >= 0,
        demand_of(rooms, data) >= 0,
    decreases rooms.len(),
{
    if rooms.len() > 0 {
        lemma_power_nonneg(rooms.drop_last(), data);
    }
}

/// The highest level of a kind: zero when the data lacks the kind.
pub open spec fn max_level_of(data: GameData, kind: RoomType) -> u8 {
    match data.spec_facility(kind) {
        Some(f) => f.spec_max_level(),
        None => 0,
    }
}

/// The first requirement of a formula on a Factory level above `level`.
pub open spec fn level_gate(reqs: Seq<RoomRequirement>, level: u8) -> int {
    first_index(reqs, |q: RoomRequirement| q.room_type == RoomType::Manufacture && q.level > level)
}

/// The first setting of a room that its kind or the data refuses.
pub open spec fn settings_error(room: Room, data: GameData) -> Option<BaseError> {
    let s = room.settings;
    if s.formula is Some && room.kind != RoomType::Manufacture {
        Some(BaseError::SettingNotApplicable { room: room.id, setting: "formula" })
    } else if s.strategy is Some && room.kind != RoomType::Trading {
        Some(BaseError::SettingNotApplicable { room: room.id, setting: "strategy" })
    } else if s.ambience != 0 && room.kind != RoomType::Dormitory {
        Some(BaseError::SettingNotApplicable { room: room.id, setting: "ambience" })
    } else if s.training is Some && room.kind != RoomType::Training {
        Some(BaseError::SettingNotApplicable { room: room.id, setting: "training" })
    } else if s.formula is Some && data.spec_formula(s.formula->0@) is None {
        Some(BaseError::UnknownFormula { room: room.id, formula: s.formula->0 })
    } else if s.formula is Some && level_gate(
        data.spec_formula(s.formula->0@)->0.require_rooms@,
        room.level,
    ) >= 0 {
        Some(
            BaseError::FormulaNeedsLevel {
                room: room.id,
                formula: s.formula->0,
                needs: data.spec_formula(s.formula->0@)->0.require_rooms@[level_gate(
                    data.spec_formula(s.formula->0@)->0.require_rooms@,
                    room.level,
                )].level,
            },
        )
    } else if s.ambience > data.comfort_limit {
        Some(BaseError::AmbienceTooHigh { room: room.id, ambience: s.ambience, max: data.comfort_limit })
    } else if s.training is Some && !(1 <= s.training->0.spec_level <= 3) {
        Some(BaseError::BadSpecLevel { room: room.id, spec_level: s.training->0.spec_level })
    } else {
        None
    }
}

/// What is wrong with the room at position `i`, seen after the rooms before
/// it: a repeated label, an unstaffable kind, a bad level, or a bad setting.
pub open spec fn room_error(rooms: Seq<Room>, i: int, data: GameData) -> Option<BaseError> {
    let room = rooms[i];
    if exists|j: int| 0 <= j < i && rooms[j].id@ == room.id@ {
        Some(BaseError::DuplicateRoom(room.id))
    } else if !room.kind.spec_is_staffable() {
        Some(BaseError::NotStaffable { room: room.id, kind: room.kind })
    } else if room.level == 0 || room.level > max_level_of(data, room.kind) {
        Some(BaseError::BadLevel { room: room.id, level: room.level, max: max_level_of(data, room.kind) })
    } else {
        settings_error(room, data)
    }
}

/// The first room error among the first `n` rooms.
pub open spec fn first_room_error(rooms: Seq<Room>, n: int, data: GameData) -> Option<BaseError>
    decreases n,
{
    if n <= 0 {
        None
    } else {
        match first_room_error(rooms, n - 1, data) {
            Some(e) => Some(e),
            None => room_error(rooms, n - 1, data),
        }
    }
}

/// A kind with more rooms than the data allows, reported for the first such
/// kind among the first `n` in declaration order.
pub open spec fn too_many_error(rooms: Seq<Room>, data: GameData, n: int) -> Option<BaseError>
    decreases n,
{
    if n <= 0 {
        None
    } else {
        match too_many_error(rooms, data, n - 1) {
            Some(e) => Some(e),
            None => {
                let kind = all_room_types()[n - 1];
                let count = rooms_of_kind(rooms, kind).len();
                match data.spec_facility(kind) {
                    Some(f) => match f.max_count {
                        Some(max) => if count > max {
                            Some(BaseError::TooMany { kind, count: count as usize, max })
                        } else {
                            None
                        },
                        None => None,
                    },
                    None => None,
                }
            },
        }
    }
}

/// The rooms whose kind the data places in a category.
pub open spec fn rooms_in_category(rooms: Seq<Room>, data: GameData, category: RoomCategory) -> Seq<Room> {
    keep(
        rooms,
        |r: Room|
            match data.spec_facility(r.kind) {
                Some(f) => f.category == category,
                None => false,
            },
    )
}

/// A category with more rooms than layout slots, reported for the first
/// such category among the first `n` in declaration order.
pub open spec fn no_slots_error(rooms: Seq<Room>, data: GameData, n: int) -> Option<BaseError>
    decreases n,
{
    if n <= 0 {
        None
    } else {
        match no_slots_error(rooms, data, n - 1) {
            Some(e) => Some(e),
            None => {
                let category = all_room_categories()[n - 1];
                let count = rooms_in_category(rooms, data, category).len();
                let slots = slots_in(data.layout.slots@, category.spec_slot_category()).len();
                if count > slots {
                    Some(BaseError::NoSlots { category, rooms: count as usize, slots: slots as usize })
                } else {
                    None
                }
            },
        }
    }
}


/// Once a room error is found, later rooms do not change it.
pub proof fn lemma_first_room_error_stable(rooms: Seq<Room>, data: GameData, m: int, n: int)
    requires
        0 <= m <= n,
        first_room_error(rooms, m, data) is Some,
    ensures
        first_room_error(rooms, n, data) == first_room_error(rooms, m, data),
    decreases n - m,
{
    if m < n {
        lemma_first_room_error_stable(rooms, data, m, n - 1);
    }
}

/// Once a kind with too many rooms is found, later kinds do not change it.
pub proof fn lemma_too_many_stable(rooms: Seq<Room>, data: GameData, m: int, n: int)
    requires
        0 <= m <= n,
        too_many_error(rooms, data, m) is Some,
    ensures
        too_many_error(rooms, data, n) == too_many_error(rooms, data, m),
    decreases n - m,
{
    if m < n {
        lemma_too_many_stable(rooms, data, m, n - 1);
    }
}

/// Once a category without enough slots is found, later categories do not
/// change it.
pub proof fn lemma_no_slots_stable(rooms: Seq<Room>, data: GameData, m: int, n: int)
    requires
        0 <= m <= n,
        no_slots_error(rooms, data, m) is Some,
    ensures
        no_slots_error(rooms, data, n) == no_slots_error(rooms, data, m),
    decreases n - m,
{
    if m < n {
        lemma_no_slots_stable(rooms, data, m, n - 1);
    }
}

/// Everything `BaseConfig::validate` checks, in the order it checks it:
/// each room in turn, room counts per kind, one Control Center, power, and
/// layout slots per category.
pub open spec fn base_error(rooms: Seq<Room>, data: GameData) -> Option<BaseError> {
    let controls = rooms_of_kind(rooms, RoomType::Control).len();
    if first_room_error(rooms, rooms.len() as int, data) is Some {
        first_room_error(rooms, rooms.len() as int, data)
    } else if too_many_error(rooms, data, 12) is Some {
        too_many_error(rooms, data, 12)
    } else if controls != 1 {
        Some(BaseError::ControlCount(controls as usize))
    } else if demand_of(rooms, data) > supply_of(rooms, data) {
        Some(
            BaseError::PowerDeficit {
                supply: supply_of(rooms, data) as i32,
                demand: demand_of(rooms, data) as i32,
            },
        )
    } else {
        no_slots_error(rooms, data, 5)
    }
}

/// The data's rooms and power fit machine integers: the sums `validate`
/// keeps fit in `i32`, and the room list fits in memory.
pub open spec fn power_fits(rooms: Seq<Room>, data: GameData) -> bool {
    supply_of(rooms, data) <= i32::MAX && demand_of(rooms, data) <= i32::MAX
}

/// Whether a room carries a label.
pub open spec fn labelled(id: Seq<char>) -> spec_fn(Room) -> bool {
    |q: Room| q.id@ == id
}

impl BaseConfig {
    /// Wraps a room list. Call `validate` before use.
    pub fn new(rooms: Vec<Room>) -> (r: Self)
        ensures
            r.rooms == rooms,
    {
        BaseConfig { rooms }
    }

    /// Looks up a room by label: the first room with that label.
    pub fn room(&self, id: &str) -> (r: Option<&Room>)
        ensures
            match r {
                Some(x) => {
                    let k = first_index(self.rooms@, labelled(id@));
                    k >= 0 && self.rooms@[k] == *x
                },
                None => first_index(self.rooms@, labelled(id@)) == -1,
            },
    {
        let ghost p = labelled(id@);
        let mut i: usize = 0;
        while i < self.rooms.len()
            invariant
                p == labelled(id@),
                i <= self.rooms@.len(),
                forall|j: int| 0 <= j < i ==> !p(self.rooms@[j]),
            decreases self.rooms@.len() - i,
        {
            if str_eq(self.rooms[i].id.as_str(), id) {
                proof {
                    lemma_first_index_is(self.rooms@, p, i as int);
                }
                return Some(&self.rooms[i]);
            }
            i = i + 1;
        }
        proof {
            lemma_first_index_none(self.rooms@, p);
        }
        None
    }

    /// Rooms of a kind, in display order.
    pub fn rooms_of(&self, kind: RoomType) -> (r: Vec<&Room>)
        ensures
            r@.map_values(|x: &Room| *x) == rooms_of_kind(self.rooms@, kind),
    {
        let mut out: Vec<&Room> = Vec::new();
        let mut i: usize = 0;
        while i < self.rooms.len()
            invariant
                i <= self.rooms@.len(),
                out@.map_values(|x: &Room| *x) == rooms_of_kind(self.rooms@.take(i as int), kind),
            decreases self.rooms@.len() - i,
        {
            proof {
                lemma_keep_step(self.rooms@, |r: Room| r.kind == kind, i as int);
            }
            if self.rooms[i].kind == kind {
                out.push(&self.rooms[i]);
            }
            i = i + 1;
        }
        proof {
            lemma_take_all(self.rooms@);
        }
        out
    }

    /// Number of rooms of a kind.
    pub fn count_of(&self, kind: RoomType) -> (r: usize)
        ensures
            r == rooms_of_kind(self.rooms@, kind).len(),
    {
        let mut n: usize = 0;
        let mut i: usize = 0;
        while i < self.rooms.len()
            invariant
                i <= self.rooms@.len(),
                n == rooms_of_kind(self.rooms@.take(i as int), kind).len(),
                n <= i,
            decreases self.rooms@.len() - i,
        {
            proof {
                lemma_keep_step(self.rooms@, |r: Room| r.kind == kind, i as int);
            }
            if self.rooms[i].kind == kind {
                n = n + 1;
            }
            i = i + 1;
        }
        proof {
            lemma_take_all(self.rooms@);
        }
        n
    }

    /// The Control Center, if the config has exactly one.
    pub fn control(&self) -> (r: Option<&Room>)
        ensures
            match r {
                Some(x) => rooms_of_kind(self.rooms@, RoomType::Control).len() == 1
                    && rooms_of_kind(self.rooms@, RoomType::Control)[0] == *x,
                None => rooms_of_kind(self.rooms@, RoomType::Control).len() != 1,
            },
    {
        let all = self.rooms_of(RoomType::Control);
        if all.len() == 1 {
            Some(all[0])
        } else {
            None
        }
    }

    /// Whether the power totals fit `i32`, as `power_balance` and
    /// `validate` need: summed in a wider integer, stopping once a total is
    /// too large.
    pub fn power_in_range(&self, data: &GameData) -> (r: bool)
        ensures
            r == power_fits(self.rooms@, *data),
    {
        let mut supply: i64 = 0;
        let mut demand: i64 = 0;
        let mut i: usize = 0;
        while i < self.rooms.len()
            invariant
                i <= self.rooms@.len(),
                supply == supply_of(self.rooms@.take(i as int), *data),
                demand == demand_of(self.rooms@.take(i as int), *data),
                0 <= supply <= i32::MAX,
                0 <= demand <= i32::MAX,
            decreases self.rooms@.len() - i,
        {
            let room = &self.rooms[i];
            let e = match data.facility(room.kind) {
                Some(f) => match f.phase(room.level) {
                    Some(p) => p.electricity,
                    None => 0,
                },
                None => 0,
            };
            proof {
                assert(self.rooms@.take(i + 1).drop_last() =~= self.rooms@.take(i as int));
            }
            if e >= 0 {
                supply = supply + e as i64;
            } else {
                demand = demand - e as i64;
            }
            if supply > i32::MAX as i64 || demand > i32::MAX as i64 {
                proof {
                    lemma_power_prefix(self.rooms@, *data, i + 1);
                }
                return false;
            }
            i = i + 1;
        }
        proof {
            lemma_take_all(self.rooms@);
        }
        true
    }

    /// Power supplied by Power Plants and drawn by every other room, as
    /// `(supply, demand)` from each room's `electricity` at its level.
    pub fn power_balance(&self, data: &GameData) -> (r: (i32, i32))
        requires
            power_fits(self.rooms@, *data),
        ensures
            r.0 == supply_of(self.rooms@, *data),
            r.1 == demand_of(self.rooms@, *data),
    {
        let mut supply: i32 = 0;
        let mut demand: i32 = 0;
        let mut i: usize = 0;
        while i < self.rooms.len()
            invariant
                i <= self.rooms@.len(),
                power_fits(self.rooms@, *data),
                supply == supply_of(self.rooms@.take(i as int), *data),
                demand == demand_of(self.rooms@.take(i as int), *data),
            decreases self.rooms@.len() - i,
        {
            let room = &self.rooms[i];
            let e = match data.facility(room.kind) {
                Some(f) => match f.phase(room.level) {
                    Some(p) => p.electricity,
                    None => 0,
                },
                None => 0,
            };
            proof {
                assert(self.rooms@.take(i + 1).drop_last() =~= self.rooms@.take(i as int));
                lemma_power_prefix(self.rooms@, *data, i + 1);
            }
            if e >= 0 {
                supply = supply + e;
            } else {
                demand = demand - e;
            }
            i = i + 1;
        }
        proof {
            lemma_take_all(self.rooms@);
        }
        (supply, demand)
    }

    #[verifier::loop_isolation(false)]
    fn validate_settings(&self, room: &Room, data: &GameData) -> (r: Result<(), BaseError>)
        ensures
            match r {
                Ok(()) => settings_error(*room, *data) is None,
                Err(e) => settings_error(*room, *data) == Some(e),
            },
    {
        let s = &room.settings;
        if s.formula.is_some() && room.kind != RoomType::Manufacture {
            return Err(BaseError::SettingNotApplicable { room: room.id.duplicate(), setting: "formula" });
        }
        if s.strategy.is_some() && room.kind != RoomType::Trading {
            return Err(BaseError::SettingNotApplicable { room: room.id.duplicate(), setting: "strategy" });
        }
        if s.ambience != 0 && room.kind != RoomType::Dormitory {
            return Err(BaseError::SettingNotApplicable { room: room.id.duplicate(), setting: "ambience" });
        }
        if s.training.is_some() && room.kind != RoomType::Training {
            return Err(BaseError::SettingNotApplicable { room: room.id.duplicate(), setting: "training" });
        }
        if let Some(formula) = &s.formula {
            let f = match data.formula(formula.as_str()) {
                Some(f) => f,
                None => {
                    return Err(
                        BaseError::UnknownFormula { room: room.id.duplicate(), formula: formula.duplicate() },
                    );
                },
            };
            let ghost p = |q: RoomRequirement| q.room_type == RoomType::Manufacture && q.level > room.level;
            let mut i: usize = 0;
            while i < f.require_rooms.len()
                invariant
                    p == (|q: RoomRequirement| q.room_type == RoomType::Manufacture && q.level > room.level),
                    i <= f.require_rooms@.len(),
                    forall|j: int| 0 <= j < i ==> !p(f.require_rooms@[j]),
                decreases f.require_rooms@.len() - i,
            {
                let req = f.require_rooms[i];
                if req.room_type == RoomType::Manufacture && req.level > room.level {
                    proof {
                        lemma_first_index_is(f.require_rooms@, p, i as int);
                        assert(p =~= (|q: RoomRequirement| q.room_type == RoomType::Manufacture && q.level
                            > room.level));
                        assert(level_gate(f.require_rooms@, room.level) == i);
                    }
                    return Err(
                        BaseError::FormulaNeedsLevel {
                            room: room.id.duplicate(),
                            formula: formula.duplicate(),
                            needs: req.level,
                        },
                    );
                }
                i = i + 1;
            }
            proof {
                lemma_first_index_none(f.require_rooms@, p);
                assert(p =~= (|q: RoomRequirement| q.room_type == RoomType::Manufacture && q.level
                    > room.level));
                assert(level_gate(f.require_rooms@, room.level) == -1);
            }
        }
        if s.ambience > data.comfort_limit {
            return Err(
                BaseError::AmbienceTooHigh {
                    room: room.id.duplicate(),
                    ambience: s.ambience,
                    max: data.comfort_limit,
                },
            );
        }
        if let Some(job) = &s.training {
            if !(1 <= job.spec_level && job.spec_level <= 3) {
                return Err(BaseError::BadSpecLevel { room: room.id.duplicate(), spec_level: job.spec_level });
            }
        }
        Ok(())
    }
}

impl BaseConfig {
    /// The first thing that makes this base unbuildable, checked in order:
    /// each room (repeated label, unstaffable kind, level outside the kind's
    /// levels, settings the kind or the data refuses), then rooms per kind
    /// against the data's maximum, exactly one Control Center, power drawn
    /// against power supplied, and rooms per category against layout slots.
    #[verifier::loop_isolation(false)]
    pub fn validate(&self, data: &GameData) -> (r: Result<(), BaseError>)
        requires
            power_fits(self.rooms@, *data),
        ensures
            match r {
                Ok(()) => base_error(self.rooms@, *data) is None,
                Err(e) => base_error(self.rooms@, *data) == Some(e),
            },
            r is Ok ==> demand_of(self.rooms@, *data) <= supply_of(self.rooms@, *data),
            r is Ok ==> rooms_of_kind(self.rooms@, RoomType::Control).len() == 1,
    {
        let n = self.rooms.len();
        let mut i: usize = 0;
        while i < n
            invariant
                i <= n,
                first_room_error(self.rooms@, i as int, *data) is None,
            decreases n - i,
        {
            let room = &self.rooms[i];
            let mut j: usize = 0;
            while j < i
                invariant
                    j <= i,
                    forall|k: int| 0 <= k < j ==> self.rooms@[k].id@ != room.id@,
                decreases i - j,
            {
                if str_eq(self.rooms[j].id.as_str(), room.id.as_str()) {
                    proof {
                        assert(self.rooms@[j as int].id@ == self.rooms@[i as int].id@);
                        assert(room_error(self.rooms@, i as int, *data) is Some);
                        lemma_first_room_error_stable(self.rooms@, *data, i + 1, n as int);
                    }
                    return Err(BaseError::DuplicateRoom(room.id.duplicate()));
                }
                j = j + 1;
            }
            proof {
                assert(!(exists|k: int| 0 <= k < i && self.rooms@[k].id@ == self.rooms@[i as int].id@));
            }
            if !room.kind.is_staffable() {
                proof {
                    lemma_first_room_error_stable(self.rooms@, *data, i + 1, n as int);
                }
                return Err(BaseError::NotStaffable { room: room.id.duplicate(), kind: room.kind });
            }
            let max = match data.facility(room.kind) {
                Some(f) => f.max_level(),
                None => 0,
            };
            if room.level == 0 || room.level > max {
                proof {
                    lemma_first_room_error_stable(self.rooms@, *data, i + 1, n as int);
                }
                return Err(BaseError::BadLevel { room: room.id.duplicate(), level: room.level, max });
            }
            match self.validate_settings(room, data) {
                Ok(()) => {},
                Err(e) => {
                    proof {
                        lemma_first_room_error_stable(self.rooms@, *data, i + 1, n as int);
                    }
                    return Err(e);
                },
            }
            i = i + 1;
        }
        let kinds = RoomType::ALL;
        proof {
            assert(kinds@ =~= all_room_types());
        }
        let mut k: usize = 0;
        while k < 12
            invariant
                k <= 12,
                first_room_error(self.rooms@, n as int, *data) is None,
                too_many_error(self.rooms@, *data, k as int) is None,
            decreases 12 - k,
        {
            let kind = kinds[k];
            let count = self.count_of(kind);
            if let Some(f) = data.facility(kind) {
                if let Some(max) = f.max_count {
                    if count > max as usize {
                        proof {
                            lemma_too_many_stable(self.rooms@, *data, k + 1, 12);
                        }
                        return Err(BaseError::TooMany { kind, count, max });
                    }
                }
            }
            k = k + 1;
        }
        let controls = self.count_of(RoomType::Control);
        if controls != 1 {
            return Err(BaseError::ControlCount(controls));
        }
        let (supply, demand) = self.power_balance(data);
        if demand > supply {
            return Err(BaseError::PowerDeficit { supply, demand });
        }
        let categories = RoomCategory::ALL;
        proof {
            assert(categories@ =~= all_room_categories());
        }
        let mut c: usize = 0;
        while c < 5
            invariant
                c <= 5,
                first_room_error(self.rooms@, n as int, *data) is None,
                too_many_error(self.rooms@, *data, 12) is None,
                no_slots_error(self.rooms@, *data, c as int) is None,
            decreases 5 - c,
        {
            let category = categories[c];
            let ghost p = |r: Room|
                match data.spec_facility(r.kind) {
                    Some(f) => f.category == category,
                    None => false,
                };
            let mut rooms: usize = 0;
            let mut q: usize = 0;
            while q < n
                invariant
                    q <= n,
                    rooms <= q,
                    p == (|r: Room|
                        match data.spec_facility(r.kind) {
                            Some(f) => f.category == category,
                            None => false,
                        }),
                    rooms == keep(self.rooms@.take(q as int), p).len(),
                decreases n - q,
            {
                proof {
                    lemma_keep_step(self.rooms@, p, q as int);
                }
                let hit = match data.facility(self.rooms[q].kind) {
                    Some(f) => f.category == category,
                    None => false,
                };
                if hit {
                    rooms = rooms + 1;
                }
                q = q + 1;
            }
            proof {
                lemma_take_all(self.rooms@);
                assert(keep(self.rooms@, p) == rooms_in_category(self.rooms@, *data, category));
            }
            let slots = data.layout.slots_of(category.slot_category()).len();
            if rooms > slots {
                proof {
                    lemma_no_slots_stable(self.rooms@, *data, c + 1, 5);
                }
                return Err(BaseError::NoSlots { category, rooms, slots });
            }
            c = c + 1;
        }
        Ok(())
    }
}


impl BaseError {
    /// What is wrong with the base, in words.
    pub open spec fn spec_message(&self) -> Seq<char> {
        match self {
            BaseError::DuplicateRoom(r) => "duplicate room id "@ + r@,
            BaseError::NotStaffable { room, kind } => "room "@ + room@ + ": "@ + kind.spec_str()
                + " is not a staffable room"@,
            BaseError::BadLevel { room, level, max } => "room "@ + room@ + ": level "@ + decimal(
                *level as nat,
            ) + " is outside 1..="@ + decimal(*max as nat),
            BaseError::TooMany { kind, count, max } => decimal(*count as nat) + " rooms of kind "@
                + kind.spec_str() + ", but the game allows "@ + decimal(*max as nat),
            BaseError::ControlCount(n) => "a base has exactly one Control Center, found "@ + decimal(
                *n as nat,
            ),
            BaseError::SettingNotApplicable { room, setting } => "room "@ + room@ + ": setting `"@
                + setting@ + "` does not apply to its kind"@,
            BaseError::UnknownFormula { room, formula } => "room "@ + room@ + ": unknown formula "@
                + formula@,
            BaseError::FormulaNeedsLevel { room, formula, needs } => "room "@ + room@ + ": formula "@
                + formula@ + " needs level "@ + decimal(*needs as nat),
            BaseError::AmbienceTooHigh { room, ambience, max } => "room "@ + room@ + ": ambience "@
                + decimal(*ambience as nat) + " exceeds "@ + decimal(*max as nat),
            BaseError::BadSpecLevel { room, spec_level } => "room "@ + room@ + ": specialisation level "@
                + decimal(*spec_level as nat) + " is outside 1..=3"@,
            BaseError::PowerDeficit { supply, demand } => "rooms draw "@ + signed_decimal(
                *demand as int,
            ) + " power but Power Plants supply "@ + signed_decimal(*supply as int),
            BaseError::NoSlots { category, rooms, slots } => decimal(*rooms as nat) + " "@
                + category.spec_str() + " rooms, but the layout has "@ + decimal(*slots as nat)
                + " such slots"@,
        }
    }

    /// What is wrong with the base, in words.
    pub fn message(&self) -> (r: String)
        ensures
            r@ == self.spec_message(),
    {
        match self {
            BaseError::DuplicateRoom(r) => {
                let mut out = "duplicate room id ".to_owned();
                out.append(r.as_str());
                out
            },
            BaseError::NotStaffable { room, kind } => {
                let mut out = "room ".to_owned();
                out.append(room.as_str());
                out.append(": ");
                out.append(kind.as_str());
                out.append(" is not a staffable room");
                out
            },
            BaseError::BadLevel { room, level, max } => {
                let mut out = "room ".to_owned();
                out.append(room.as_str());
                out.append(": level ");
                append_decimal(&mut out, *level as usize);
                out.append(" is outside 1..=");
                append_decimal(&mut out, *max as usize);
                out
            },
            BaseError::TooMany { kind, count, max } => {
                let mut out = String::new();
                append_decimal(&mut out, *count);
                out.append(" rooms of kind ");
                out.append(kind.as_str());
                out.append(", but the game allows ");
                append_decimal(&mut out, *max as usize);
                proof {
                    assert(out@ =~= self.spec_message());
                }
                out
            },
            BaseError::ControlCount(n) => {
                let mut out = "a base has exactly one Control Center, found ".to_owned();
                append_decimal(&mut out, *n);
                out
            },
            BaseError::SettingNotApplicable { room, setting } => {
                let mut out = "room ".to_owned();
                out.append(room.as_str());
                out.append(": setting `");
                out.append(setting);
                out.append("` does not apply to its kind");
                out
            },
            BaseError::UnknownFormula { room, formula } => {
                let mut out = "room ".to_owned();
                out.append(room.as_str());
                out.append(": unknown formula ");
                out.append(formula.as_str());
                out
            },
            BaseError::FormulaNeedsLevel { room, formula, needs } => {
                let mut out = "room ".to_owned();
                out.append(room.as_str());
                out.append(": formula ");
                out.append(formula.as_str());
                out.append(" needs level ");
                append_decimal(&mut out, *needs as usize);
                out
            },
            BaseError::AmbienceTooHigh { room, ambience, max } => {
                let mut out = "room ".to_owned();
                out.append(room.as_str());
                out.append(": ambience ");
                append_decimal(&mut out, *ambience as usize);
                out.append(" exceeds ");
                append_decimal(&mut out, *max as usize);
                out
            },
            BaseError::BadSpecLevel { room, spec_level } => {
                let mut out = "room ".to_owned();
                out.append(room.as_str());
                out.append(": specialisation level ");
                append_decimal(&mut out, *spec_level as usize);
                out.append(" is outside 1..=3");
                out
            },
            BaseError::PowerDeficit { supply, demand } => {
                let mut out = "rooms draw ".to_owned();
                append_signed(&mut out, *demand);
                out.append(" power but Power Plants supply ");
                append_signed(&mut out, *supply);
                out
            },
            BaseError::NoSlots { category, rooms, slots } => {
                let mut out = String::new();
                append_decimal(&mut out, *rooms);
                out.append(" ");
                out.append(category.as_str());
                out.append(" rooms, but the layout has ");
                append_decimal(&mut out, *slots);
                out.append(" such slots");
                proof {
                    assert(out@ =~= self.spec_message());
                }
                out
            },
        }
    }
}


/// The rooms of each of `kinds`, counted kind by kind and added up.
pub open spec fn kind_total(rooms: Seq<Room>, kinds: Seq<RoomType>) -> int
    decreases kinds.len(),
{
    if kinds.len() == 0 {
        0
    } else {
        kind_total(rooms, kinds.drop_last()) + rooms_of_kind(rooms, kinds.last()).len()
    }
}

/// How many times `k` appears in `kinds`.
pub open spec fn kind_hits(kinds: Seq<RoomType>, k: RoomType) -> int
    decreases kinds.len(),
{
    if kinds.len() == 0 {
        0
    } else {
        kind_hits(kinds.drop_last(), k) + if kinds.last() == k { 1int } else { 0int }
    }
}

/// One more room adds one to the total once for each time its kind is
/// listed.
proof fn lemma_kind_total_step(rooms: Seq<Room>, kinds: Seq<RoomType>)
    requires
        rooms.len() > 0,
    ensures
        kind_total(rooms, kinds) == kind_total(rooms.drop_last(), kinds) + kind_hits(kinds, rooms.last().kind),
    decreases kinds.len(),
{
    if kinds.len() > 0 {
        lemma_kind_total_step(rooms, kinds.drop_last());
    }
}

/// Every room kind is listed in `RoomType::ALL` exactly once.
proof fn lemma_all_kinds_once(k: RoomType)
    ensures
        kind_hits(RoomType::ALL@, k) == 1,
{
    reveal_with_fuel(kind_hits, 13);
    assert(RoomType::ALL@ =~= seq![
        RoomType::Control,
        RoomType::Power,
        RoomType::Manufacture,
        RoomType::Trading,
        RoomType::Dormitory,
        RoomType::Private,
        RoomType::Workshop,
        RoomType::Hire,
        RoomType::Training,
        RoomType::Meeting,
        RoomType::Elevator,
        RoomType::Corridor,
    ]);
}

/// The room counts of all the kinds (`count_of` over `RoomType::ALL`) add
/// up to the number of rooms.
pub proof fn law_kind_counts_add_up(rooms: Seq<Room>)
    ensures
        kind_total(rooms, RoomType::ALL@) == rooms.len(),
    decreases rooms.len(),
{
    if rooms.len() == 0 {
        lemma_kind_total_empty(rooms, RoomType::ALL@);
    } else {
        law_kind_counts_add_up(rooms.drop_last());
        lemma_kind_total_step(rooms, RoomType::ALL@);
        lemma_all_kinds_once(rooms.last().kind);
    }
}

/// With no rooms every kind counts zero.
proof fn lemma_kind_total_empty(rooms: Seq<Room>, kinds: Seq<RoomType>)
    requires
        rooms.len() == 0,
    ensures
        kind_total(rooms, kinds) == 0,
    decreases kinds.len(),
{
    if kinds.len() > 0 {
        lemma_kind_total_empty(rooms, kinds.drop_last());
    }
}

/// A base that validates has exactly one Control Center, and its rooms
/// draw no more power than its rooms supply.
pub proof fn law_valid_base_is_powered(rooms: Seq<Room>, data: GameData)
    ensures
        base_error(rooms, data) is None ==> demand_of(rooms, data) <= supply_of(rooms, data),
        base_error(rooms, data) is None ==> rooms_of_kind(rooms, RoomType::Control).len() == 1,
{
}

} // verus!
