//! The physical base layout: the grid of slots rooms are built into.

use vstd::prelude::*;
use crate::enums::SlotCategory;
use crate::ids::SlotId;
use crate::text::str_eq;
use crate::seqs::{keep, lemma_keep_step, lemma_take_all};

verus! {

/// Footprint in grid cells.
#[derive(Debug, Clone, Copy, PartialEq, Eq, Hash, Structural)]
pub struct GridSize {
    /// Height in cells.
    pub rows: u8,
    /// Width in cells.
    pub cols: u8,
}

/// Position in grid cells.
#[derive(Debug, Clone, Copy, PartialEq, Eq, Hash, Structural)]
pub struct GridPos {
    /// Row offset.
    pub row: i16,
    /// Column offset.
    pub col: i16,
}

/// One buildable slot in the layout.
#[derive(Debug, Clone, PartialEq, Eq)]
pub struct LayoutSlot {
    /// Slot id, e.g. `slot_34`.
    pub id: SlotId,
    /// What may be built here.
    pub category: SlotCategory,
    /// Footprint.
    pub size: GridSize,
    /// Position.
    pub offset: GridPos,
    /// Floor label, e.g. `B2`. Empty for a few utility slots upstream.
    pub storey: String,
    /// Upstream `cleanCostId`.
    pub clean_cost_id: String,
    /// Drones to clear the slot.
    pub cost_labor: i32,
    /// Drone capacity the slot provides once cleared.
    pub provide_labor: i32,
}

/// The whole layout.
#[derive(Debug, Clone, PartialEq, Eq)]
pub struct BaseLayout {
    /// Upstream layout id (currently only `v0`).
    pub id: String,
    /// Slots in ascending id order.
    pub slots: Vec<LayoutSlot>,
}

/// The slots of a sequence that have a category, in order.
pub open spec fn slots_in(s: Seq<LayoutSlot>, category: SlotCategory) -> Seq<LayoutSlot> {
    keep(s, |x: LayoutSlot| x.category == category)
}

impl BaseLayout {
    /// Looks up a slot by id: the first slot whose id is `id`.
    pub fn slot(&self, id: &str) -> (r: Option<&LayoutSlot>)
        ensures
            match r {
                Some(x) => exists|i: int|
                    0 <= i < self.slots@.len() && self.slots@[i] == *x && x.id@ == id@ && forall|j: int|
                        0 <= j < i ==> self.slots@[j].id@ != id@,
                None => forall|i: int| 0 <= i < self.slots@.len() ==> self.slots@[i].id@ != id@,
            },
    {
        let mut i: usize = 0;
        while i < self.slots.len()
            invariant
                i <= self.slots@.len(),
                forall|j: int| 0 <= j < i ==> self.slots@[j].id@ != id@,
            decreases self.slots@.len() - i,
        {
            if str_eq(self.slots[i].id.as_str(), id) {
                return Some(&self.slots[i]);
            }
            i = i + 1;
        }
        None
    }

    /// Slots of a given category, in layout order.
    pub fn slots_of(&self, category: SlotCategory) -> (r: Vec<&LayoutSlot>)
        ensures
            r@.map_values(|x: &LayoutSlot| *x) == slots_in(self.slots@, category),
    {
        let mut out: Vec<&LayoutSlot> = Vec::new();
        let mut i: usize = 0;
        while i < self.slots.len()
            invariant
                i <= self.slots@.len(),
                out@.map_values(|x: &LayoutSlot| *x) == slots_in(self.slots@.take(i as int), category),
            decreases self.slots@.len() - i,
        {
            proof {
                lemma_keep_step(self.slots@, |x: LayoutSlot| x.category == category, i as int);
            }
            if self.slots[i].category == category {
                out.push(&self.slots[i]);
            }
            i = i + 1;
        }
        proof {
            lemma_take_all(self.slots@);
        }
        out
    }
}

} // verus!
