//! Operators and their base-skill progression: what an operator can do,
//! loaded from data and never mutated.

use vstd::prelude::*;
use crate::enums::{ElitePhase, Profession, Rarity};
use crate::ids::{BuffId, OperatorId, PowerId, SubProfessionId};
use crate::seqs::lemma_take_all;

verus! {

/// The promotion state at which a skill tier unlocks. Ordered by phase, then
/// by level, so that `(E1, 1) < (E2, 1) < (E2, 30)`.
#[derive(Debug, Clone, Copy, PartialEq, Eq, Hash, PartialOrd, Ord, Structural)]
pub struct UnlockCond {
    /// Promotion level.
    pub phase: ElitePhase,
    /// Level within that promotion (1-based).
    pub level: u32,
}

impl UnlockCond {
    /// Elite 0, level 1: the state every operator starts in.
    pub fn base() -> (r: UnlockCond)
        ensures
            r == (UnlockCond { phase: ElitePhase::E0, level: 1 }),
    {
        UnlockCond { phase: ElitePhase::E0, level: 1 }
    }

    /// Elite 2, level 90: every tier of every skill is unlocked.
    pub fn max() -> (r: UnlockCond)
        ensures
            r == (UnlockCond { phase: ElitePhase::E2, level: 90 }),
    {
        UnlockCond { phase: ElitePhase::E2, level: 90 }
    }

    /// Constructs a condition.
    pub fn new(phase: ElitePhase, level: u32) -> (r: Self)
        ensures
            r == (UnlockCond { phase, level }),
    {
        UnlockCond { phase, level }
    }

    /// The order of promotion states: phase first, then level.
    pub open spec fn spec_le(self, other: UnlockCond) -> bool {
        self.phase.rank() < other.phase.rank() || (self.phase == other.phase && self.level
            <= other.level)
    }

    /// Whether this state comes no later than `other` (`self <= other`).
    pub fn reached_by(&self, other: &UnlockCond) -> (r: bool)
        ensures
            r == self.spec_le(*other),
    {
        let a = self.phase.index();
        let b = other.phase.index();
        a < b || (a == b && self.level <= other.level)
    }
}

/// One tier of one skill slot: which buff is active once `cond` is met.
#[derive(Debug, Clone, PartialEq, Eq)]
pub struct SkillUnlock {
    /// The buff that becomes active.
    pub buff: BuffId,
    /// When it becomes active.
    pub cond: UnlockCond,
}

/// A base-skill slot. Each lists its tiers in ascending unlock order. A slot
/// may be empty (no skill in it).
#[derive(Debug, Clone, PartialEq, Eq, Default)]
pub struct SkillSlot {
    /// Tiers, sorted ascending by `SkillUnlock::cond`.
    pub unlocks: Vec<SkillUnlock>,
}

/// The position of the last tier of `s` that is unlocked at `at`, or -1
/// when none is.
pub open spec fn last_unlocked(s: Seq<SkillUnlock>, at: UnlockCond) -> int
    decreases s.len(),
{
    if s.len() == 0 {
        -1
    } else if s.last().cond.spec_le(at) {
        s.len() - 1
    } else {
        last_unlocked(s.drop_last(), at)
    }
}

/// `last_unlocked` names an unlocked tier with nothing unlocked after it.
pub proof fn lemma_last_unlocked(s: Seq<SkillUnlock>, at: UnlockCond)
    ensures
        -1 <= last_unlocked(s, at) < s.len(),
        last_unlocked(s, at) >= 0 ==> s[last_unlocked(s, at)].cond.spec_le(at),
        forall|j: int| last_unlocked(s, at) < j < s.len() ==> !s[j].cond.spec_le(at),
    decreases s.len(),
{
    if s.len() > 0 && !s.last().cond.spec_le(at) {
        lemma_last_unlocked(s.drop_last(), at);
        assert forall|j: int| last_unlocked(s, at) < j < s.len() implies !s[j].cond.spec_le(at) by {
            if j < s.len() - 1 {
                assert(s.drop_last()[j] == s[j]);
            }
        }
    }
}

/// A later promotion state never activates an earlier tier: the active
/// tier's position grows with the promotion state.
pub proof fn law_active_tier_monotone(s: Seq<SkillUnlock>, at1: UnlockCond, at2: UnlockCond)
    requires
        at1.spec_le(at2),
    ensures
        last_unlocked(s, at1) <= last_unlocked(s, at2),
    decreases s.len(),
{
    lemma_last_unlocked(s, at1);
    if s.len() > 0 && !s.last().cond.spec_le(at2) {
        assert(!s.last().cond.spec_le(at1));
        law_active_tier_monotone(s.drop_last(), at1, at2);
    }
}

/// At the highest promotion state (Elite 2, level 90) the active tier is
/// the last one, when every tier unlocks by then.
pub proof fn law_active_at_max(slot: SkillSlot)
    requires
        forall|j: int|
            0 <= j < slot.unlocks@.len() ==> (#[trigger] slot.unlocks@[j]).cond.spec_le(
                UnlockCond { phase: ElitePhase::E2, level: 90 },
            ),
    ensures
        slot.spec_active_at(UnlockCond { phase: ElitePhase::E2, level: 90 }) == if slot.unlocks@.len() > 0 {
            Some(slot.unlocks@.last())
        } else {
            None::<SkillUnlock>
        },
{
    if slot.unlocks@.len() > 0 {
        assert(slot.unlocks@[slot.unlocks@.len() - 1] == slot.unlocks@.last());
    }
}

impl SkillSlot {
    /// The tier active at `at`: the last tier (in list order) whose
    /// condition is met.
    pub open spec fn spec_active_at(&self, at: UnlockCond) -> Option<SkillUnlock> {
        let i = last_unlocked(self.unlocks@, at);
        if i >= 0 {
            Some(self.unlocks@[i])
        } else {
            None
        }
    }

    /// The tier active at promotion state `at`: the highest unlock whose
    /// condition is satisfied, or `None` if nothing has unlocked yet.
    pub fn active_at(&self, at: UnlockCond) -> (r: Option<&SkillUnlock>)
        ensures
            match r {
                Some(u) => self.spec_active_at(at) == Some(*u),
                None => self.spec_active_at(at) is None,
            },
    {
        let mut i = self.unlocks.len();
        proof {
            lemma_take_all(self.unlocks@);
        }
        while i > 0
            invariant
                i <= self.unlocks@.len(),
                last_unlocked(self.unlocks@, at) == last_unlocked(self.unlocks@.take(i as int), at),
            decreases i,
        {
            proof {
                assert(self.unlocks@.take(i as int).drop_last() =~= self.unlocks@.take(i - 1));
            }
            if self.unlocks[i - 1].cond.reached_by(&at) {
                return Some(&self.unlocks[i - 1]);
            }
            i = i - 1;
        }
        None
    }

    /// The highest tier this slot can reach: its last tier.
    pub fn max(&self) -> (r: Option<&SkillUnlock>)
        ensures
            match r {
                Some(u) => self.unlocks@.len() > 0 && *u == self.unlocks@.last(),
                None => self.unlocks@.len() == 0,
            },
    {
        if self.unlocks.len() == 0 {
            None
        } else {
            Some(&self.unlocks[self.unlocks.len() - 1])
        }
    }
}

/// A recruitable operator: who they are and how their base skills unlock.
/// (Maximum morale, a real number, travels beside this record, not in it.)
#[derive(Debug, Clone, PartialEq, Eq)]
pub struct Operator {
    /// Upstream id, e.g. `char_285_medic2`.
    pub id: OperatorId,
    /// Localised name, e.g. `Lancet-2`.
    pub name: String,
    /// Upstream `appellation` (romanised / alternate name); may be empty.
    pub appellation: String,
    /// Star rarity.
    pub rarity: Rarity,
    /// Class.
    pub profession: Profession,
    /// Subclass.
    pub sub_profession: SubProfessionId,
    /// Nation affiliation, if any.
    pub nation: Option<PowerId>,
    /// Group affiliation, if any.
    pub group: Option<PowerId>,
    /// Team affiliation, if any.
    pub team: Option<PowerId>,
    /// Highest level at each promotion this operator can reach: index 0 is
    /// Elite 0. Its length is one more than the highest promotion.
    pub max_levels: Vec<u32>,
    /// Base-skill slots in upstream order.
    pub skill_slots: Vec<SkillSlot>,
}

/// The buffs of the slots that have a tier active at `at`, in slot order.
pub open spec fn active_buffs_of(slots: Seq<SkillSlot>, at: UnlockCond) -> Seq<BuffId>
    decreases slots.len(),
{
    if slots.len() == 0 {
        Seq::empty()
    } else {
        let prev = active_buffs_of(slots.drop_last(), at);
        match slots.last().spec_active_at(at) {
            Some(u) => prev.push(u.buff),
            None => prev,
        }
    }
}

/// The buffs of the last tier of every non-empty slot, in slot order.
pub open spec fn max_buffs_of(slots: Seq<SkillSlot>) -> Seq<BuffId>
    decreases slots.len(),
{
    if slots.len() == 0 {
        Seq::empty()
    } else {
        let prev = max_buffs_of(slots.drop_last());
        if slots.last().unlocks@.len() > 0 {
            prev.push(slots.last().unlocks@.last().buff)
        } else {
            prev
        }
    }
}

impl Operator {
    /// The highest promotion this operator can reach: one below the number
    /// of promotion caps, at most Elite 2.
    pub fn max_phase(&self) -> (r: ElitePhase)
        ensures
            r.rank() == (if self.max_levels@.len() == 0 {
                0
            } else if self.max_levels@.len() - 1 >= 2 {
                2
            } else {
                self.max_levels@.len() - 1
            }),
    {
        let n = self.max_levels.len();
        let top = if n == 0 {
            0
        } else {
            n - 1
        };
        if top == 0 {
            ElitePhase::E0
        } else if top == 1 {
            ElitePhase::E1
        } else {
            ElitePhase::E2
        }
    }

    /// The highest level at a promotion, or `None` if the operator cannot
    /// reach that promotion.
    pub fn max_level(&self, phase: ElitePhase) -> (r: Option<u32>)
        ensures
            match r {
                Some(l) => phase.rank() < self.max_levels@.len() && l == self.max_levels@[phase.rank()],
                None => phase.rank() >= self.max_levels@.len(),
            },
    {
        let i = phase.index() as usize;
        if i < self.max_levels.len() {
            Some(self.max_levels[i])
        } else {
            None
        }
    }

    /// Every affiliation this operator has (nation, group, team), in that order.
    pub open spec fn power_list(self) -> Seq<PowerId> {
        seq![self.nation, self.group, self.team].filter(|o: Option<PowerId>| o is Some).map_values(
            |o: Option<PowerId>| o->0,
        )
    }

    /// Every affiliation this operator has (nation, group, team), in that order.
    pub fn powers(&self) -> (r: Vec<&PowerId>)
        ensures
            r@.map_values(|p: &PowerId| *p) == seq![self.nation, self.group, self.team].filter(
                |o: Option<PowerId>| o is Some,
            ).map_values(|o: Option<PowerId>| o->0),
            r@.map_values(|p: &PowerId| *p) == self.power_list(),
    {
        let mut out: Vec<&PowerId> = Vec::new();
        if let Some(p) = &self.nation {
            out.push(p);
        }
        if let Some(p) = &self.group {
            out.push(p);
        }
        if let Some(p) = &self.team {
            out.push(p);
        }
        proof {
            let s = seq![self.nation, self.group, self.team];
            reveal_with_fuel(Seq::filter, 4);
            assert(s.drop_last().drop_last().drop_last() =~= Seq::<Option<PowerId>>::empty());
            assert(s.drop_last().drop_last() =~= seq![self.nation]);
            assert(s.drop_last() =~= seq![self.nation, self.group]);
            assert(out@.map_values(|p: &PowerId| *p) =~= s.filter(|o: Option<PowerId>| o is Some).map_values(
                |o: Option<PowerId>| o->0,
            ));
        }
        out
    }

    /// Buffs active at promotion state `at`, one per slot that has unlocked.
    pub fn active_buffs(&self, at: UnlockCond) -> (r: Vec<&BuffId>)
        ensures
            r@.map_values(|b: &BuffId| *b) == active_buffs_of(self.skill_slots@, at),
    {
        let mut out: Vec<&BuffId> = Vec::new();
        let mut i: usize = 0;
        while i < self.skill_slots.len()
            invariant
                i <= self.skill_slots@.len(),
                out@.map_values(|b: &BuffId| *b) == active_buffs_of(self.skill_slots@.take(i as int), at),
            decreases self.skill_slots@.len() - i,
        {
            proof {
                assert(self.skill_slots@.take(i + 1).drop_last() =~= self.skill_slots@.take(i as int));
            }
            if let Some(u) = self.skill_slots[i].active_at(at) {
                out.push(&u.buff);
            }
            proof {
                assert(out@.map_values(|b: &BuffId| *b) =~= active_buffs_of(self.skill_slots@.take(i + 1), at));
            }
            i = i + 1;
        }
        proof {
            assert(self.skill_slots@.take(self.skill_slots@.len() as int) =~= self.skill_slots@);
        }
        out
    }

    /// Buffs active once every tier is unlocked.
    pub fn max_buffs(&self) -> (r: Vec<&BuffId>)
        ensures
            r@.map_values(|b: &BuffId| *b) == max_buffs_of(self.skill_slots@),
    {
        let mut out: Vec<&BuffId> = Vec::new();
        let mut i: usize = 0;
        while i < self.skill_slots.len()
            invariant
                i <= self.skill_slots@.len(),
                out@.map_values(|b: &BuffId| *b) == max_buffs_of(self.skill_slots@.take(i as int)),
            decreases self.skill_slots@.len() - i,
        {
            proof {
                assert(self.skill_slots@.take(i + 1).drop_last() =~= self.skill_slots@.take(i as int));
            }
            if let Some(u) = self.skill_slots[i].max() {
                out.push(&u.buff);
            }
            proof {
                assert(out@.map_values(|b: &BuffId| *b) =~= max_buffs_of(self.skill_slots@.take(i + 1)));
            }
            i = i + 1;
        }
        proof {
            assert(self.skill_slots@.take(self.skill_slots@.len() as int) =~= self.skill_slots@);
        }
        out
    }
}

} // verus!
