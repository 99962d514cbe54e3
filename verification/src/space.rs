//! The search space: which slots may change, who may fill them, and the
//! moves that take one assignment to a neighbouring one.
//!
//! Every move goes through `Assignment`'s checked mutators, so the search
//! cannot produce an operator in two places or a slot beyond a room's
//! capacity, and it never touches a slot outside the variable ones. Slots
//! within a room are interchangeable (except the Training Room's two
//! roles), so swaps within a room are never proposed.

use vstd::prelude::*;
use crate::assignment::{
    Assignment, AssignmentView, Slot, is_placed, key_index, occupant, set_cell, slot_exists, swapped,
    placed_view, cleared_view,
    unstationed, lemma_key_index, lemma_set_cell_keys, all_occupied, occupied_view,
    check_outcome, lemma_same_labels, wf_view, holds_at,
};
use crate::base::{base_error, labelled, power_fits, first_room_error, room_error};
use crate::assignment::distinct_labels;
use crate::sim::SimError;
use crate::solve::SolveError;
use crate::seqs::{first_index, lemma_first_index_is, lemma_first_index_none};
use crate::base::{BaseConfig, Room, capacity_of, TRAINING_TRAINEE_SLOT};
use crate::enums::RoomType;
use crate::ids::{OperatorId, RoomId};
use crate::rng::{Pcg32, pcg_below, pcg_next};
use crate::seqs::{keep, lemma_keep_step, lemma_keep_len, lemma_keep_members};
use crate::game_data::GameData;
use crate::text::{str_eq, str_lt, texts, chars_lt, chars_le, lemma_chars_le_total_ordering, lemma_chars_lt_total};
use vstd::relations::sorted_by;

verus! {

/// The (room, index) of each slot.
pub open spec fn slot_cells(s: Seq<Slot>) -> Seq<(Seq<char>, u8)> {
    s.map_values(|t: Slot| (t.room@, t.index))
}

/// The ids of a list of operators.
pub open spec fn op_ids(s: Seq<OperatorId>) -> Seq<Seq<char>> {
    s.map_values(|o: OperatorId| o@)
}

/// The ids of a list of borrowed operators.
pub open spec fn op_ref_ids(s: Seq<&OperatorId>) -> Seq<Seq<char>> {
    s.map_values(|o: &OperatorId| o@)
}

/// Operators not stationed anywhere in a view.
pub open spec fn benched_in(v: AssignmentView) -> spec_fn(Seq<char>) -> bool {
    |op: Seq<char>| !is_placed(v, op)
}

/// Two views with the same rooms, in the same order, with the same numbers
/// of slots.
pub open spec fn same_shape(v: AssignmentView, w: AssignmentView) -> bool {
    &&& v.len() == w.len()
    &&& forall|q: int| 0 <= q < v.len() ==> #[trigger] w[q].0 == v[q].0 && w[q].1.len() == v[q].1.len()
}

/// `w` has the shape of `v` and differs from it only in the listed cells.
pub open spec fn touches_only(v: AssignmentView, w: AssignmentView, cells: Seq<(Seq<char>, u8)>) -> bool {
    &&& same_shape(v, w)
    &&& forall|q: int, j: int|
        0 <= q < v.len() && 0 <= j < v[q].1.len() && #[trigger] w[q].1[j] != v[q].1[j] ==> exists|t: int|
            0 <= t < cells.len() && #[trigger] cells[t] == (v[q].0, j as u8) && j < 256
}

/// A view touches nothing of itself.
proof fn lemma_touch_none(v: AssignmentView, cells: Seq<(Seq<char>, u8)>)
    ensures
        touches_only(v, v, cells),
{
}

/// Setting one more listed cell keeps the changes within the list.
pub(crate) proof fn lemma_touch_step(
    v0: AssignmentView,
    v1: AssignmentView,
    k: int,
    j: int,
    x: Option<Seq<char>>,
    cells: Seq<(Seq<char>, u8)>,
    t: int,
)
    requires
        touches_only(v0, v1, cells),
        0 <= k < v1.len(),
        0 <= j < v1[k].1.len(),
        j < 256,
        0 <= t < cells.len(),
        cells[t] == (v1[k].0, j as u8),
    ensures
        touches_only(v0, set_cell(v1, k, j, x), cells),
{
    let w = set_cell(v1, k, j, x);
    assert forall|q: int| 0 <= q < v0.len() implies #[trigger] w[q].0 == v0[q].0 && w[q].1.len() == v0[q].1.len() by {
        assert(v1[q].0 == v0[q].0);
    }
    assert forall|q: int, i: int|
        0 <= q < v0.len() && 0 <= i < v0[q].1.len() && #[trigger] w[q].1[i] != v0[q].1[i] implies exists|u: int|
            0 <= u < cells.len() && #[trigger] cells[u] == (v0[q].0, i as u8) && i < 256 by {
        assert(v1[q].0 == v0[q].0);
        if q == k && i == j {
            assert(cells[t] == (v0[q].0, i as u8));
        } else {
            assert(w[q].1[i] == v1[q].1[i]);
        }
    }
}

/// An assignment one may move to from a view: well formed, and differing
/// from the view only in the listed cells.
pub open spec fn good_move(v: AssignmentView, a: Assignment, cells: Seq<(Seq<char>, u8)>) -> bool {
    a.wf() && touches_only(v, a@, cells)
}

/// A slot of a view holds someone.
pub open spec fn is_filled(v: AssignmentView, s: Slot) -> bool {
    occupant(v, s.room@, s.index as int) is Some
}

/// Whether a slot exists and holds someone.
fn is_occupied(a: &Assignment, s: &Slot) -> (r: bool)
    ensures
        r == is_filled(a@, *s),
{
    match a.slots(s.room.as_str()) {
        None => false,
        Some(cells) => {
            let i = s.index as usize;
            if i < cells.len() {
                proof {
                    assert(crate::assignment::cells_view(cells@)[i as int] == crate::assignment::cell_view(cells@[i as int]));
                }
                cells[i].is_some()
            } else {
                false
            }
        },
    }
}

/// Whether a slot exists and is empty.
fn is_vacant(a: &Assignment, s: &Slot) -> (r: bool)
    ensures
        r == (slot_exists(a@, s.room@, s.index as int) && !is_filled(a@, *s)),
{
    match a.slots(s.room.as_str()) {
        None => false,
        Some(cells) => {
            let i = s.index as usize;
            if i < cells.len() {
                proof {
                    assert(crate::assignment::cells_view(cells@)[i as int] == crate::assignment::cell_view(cells@[i as int]));
                }
                cells[i].is_none()
            } else {
                false
            }
        },
    }
}

/// One room's variable slots.
pub struct RoomSlots {
    /// Indexes into `Space::slots`.
    pub slots: Vec<usize>,
    /// Whether slot order matters (Training Room).
    pub ordered: bool,
}

/// The search space.
pub struct Space {
    /// Slots the solver may change.
    pub slots: Vec<Slot>,
    /// Operators the solver may place, in a fixed order.
    pub pool: Vec<OperatorId>,
    /// Slots held fixed.
    pub locked: usize,
    /// Variable slots grouped by room, base rooms in order.
    pub groups: Vec<RoomSlots>,
    /// The group of each variable slot.
    pub slot_group: Vec<usize>,
    /// Every base room, in order, with whether its slot order matters.
    pub rooms: Vec<(RoomId, bool)>,
}

impl Space {
    /// Every variable slot has a group.
    pub closed spec fn wf(&self) -> bool {
        &&& self.slot_group@.len() == self.slots@.len()
        &&& forall|i: int| 0 <= i < self.slot_group@.len() ==> #[trigger] self.slot_group@[i] < self.groups@.len()
    }

    /// Whether the space is small enough for random moves: the bounds
    /// `propose` needs for its 32-bit draws.
    pub fn moves_fit(&self) -> (r: bool)
        ensures
            r == (self.pool@.len() <= 0x1_0000_0000 && self.slots@.len() * (self.slots@.len()
                + self.pool@.len() + 1) <= 0x1_0000_0000),
    {
        let p = self.pool.len() as u128;
        let n = self.slots.len() as u128;
        if p > 0x1_0000_0000u128 || n > 0x1_0000_0000u128 {
            proof {
                if n > 0x1_0000_0000 {
                    assert(n * (n + p + 1) >= n) by (nonlinear_arith)
                        requires
                            n >= 0,
                            p >= 0,
                    ;
                }
            }
            return false;
        }
        proof {
            assert(n * (n + p + 1) <= 0x1_0000_0000 * (0x1_0000_0000 + 0x1_0000_0000 + 1)) by (nonlinear_arith)
                requires
                    n <= 0x1_0000_0000,
                    p <= 0x1_0000_0000,
            ;
        }
        let big: u128 = n * (n + p + 1);
        big <= 0x1_0000_0000u128
    }

    /// Whether every group lists only slots of the space, as `candidates`
    /// needs.
    pub fn groups_fit(&self) -> (r: bool)
        ensures
            r == groups_in_range(*self),
    {
        let mut g: usize = 0;
        while g < self.groups.len()
            invariant
                g <= self.groups@.len(),
                forall|h: int, k: int|
                    0 <= h < g && 0 <= k < self.groups@[h].slots@.len() ==> #[trigger] self.groups@[h].slots@[k]
                        < self.slots@.len(),
            decreases self.groups@.len() - g,
        {
            let mut k: usize = 0;
            while k < self.groups[g].slots.len()
                invariant
                    g < self.groups@.len(),
                    k <= self.groups@[g as int].slots@.len(),
                    forall|h: int, j: int|
                        0 <= h < g && 0 <= j < self.groups@[h].slots@.len() ==> #[trigger] self.groups@[h].slots@[j]
                            < self.slots@.len(),
                    forall|j: int| 0 <= j < k ==> #[trigger] self.groups@[g as int].slots@[j] < self.slots@.len(),
                decreases self.groups@[g as int].slots@.len() - k,
            {
                if self.groups[g].slots[k] >= self.slots.len() {
                    return false;
                }
                k = k + 1;
            }
            g = g + 1;
        }
        true
    }

    /// Pool operators not currently assigned anywhere.
    pub fn unassigned<'a>(&'a self, a: &Assignment) -> (r: Vec<&'a OperatorId>)
        requires
            a.wf(),
        ensures
            op_ref_ids(r@) == keep(op_ids(self.pool@), benched_in(a@)),
    {
        let ghost p = benched_in(a@);
        let ghost ids = op_ids(self.pool@);
        let mut out: Vec<&OperatorId> = Vec::new();
        let mut i: usize = 0;
        proof {
            assert(op_ref_ids(out@) =~= keep(ids.take(0), p));
        }
        while i < self.pool.len()
            invariant
                a.wf(),
                p == benched_in(a@),
                ids == op_ids(self.pool@),
                i <= self.pool@.len(),
                op_ref_ids(out@) == keep(ids.take(i as int), p),
            decreases self.pool@.len() - i,
        {
            let op = &self.pool[i];
            proof {
                lemma_keep_step(ids, p, i as int);
            }
            let ghost before = out@;
            if a.locate(op.as_str()).is_none() {
                out.push(op);
                proof {
                    assert(op_ref_ids(out@) =~= op_ref_ids(before).push(op@));
                }
            }
            i = i + 1;
        }
        proof {
            assert(ids.take(ids.len() as int) =~= ids);
        }
        out
    }
}


/// A listed slot of a view: the list entry that names a cell.
proof fn lemma_listed_cell(v: AssignmentView, slots: Seq<Slot>, t: int)
    requires
        0 <= t < slots.len(),
        slot_exists(v, slots[t].room@, slots[t].index as int),
    ensures
        ({
            let k = key_index(v, slots[t].room@);
            &&& 0 <= k < v.len()
            &&& v[k].0 == slots[t].room@
            &&& slot_cells(slots)[t] == (v[k].0, (slots[t].index as int) as u8)
        }),
{
    lemma_key_index(v, slots[t].room@);
}

impl Space {
    /// Empties every variable slot.
    pub fn clear_variable(&self, a: &mut Assignment)
        requires
            old(a).wf(),
        ensures
            final(a).wf(),
            touches_only(old(a)@, final(a)@, slot_cells(self.slots@)),
            forall|t: int| 0 <= t < self.slots@.len() ==> !#[trigger] is_filled(final(a)@, self.slots@[t]),
    {
        let ghost v0 = a@;
        let ghost cells = slot_cells(self.slots@);
        let mut i: usize = 0;
        proof {
            lemma_touch_none(v0, cells);
        }
        while i < self.slots.len()
            invariant
                a.wf(),
                cells == slot_cells(self.slots@),
                i <= self.slots@.len(),
                touches_only(v0, a@, cells),
                forall|t: int| 0 <= t < i ==> !#[trigger] is_filled(a@, self.slots@[t]),
            decreases self.slots@.len() - i,
        {
            let ghost v1 = a@;
            let slot = &self.slots[i];
            a.remove(slot);
            proof {
                if slot_exists(v1, slot.room@, slot.index as int) {
                    let k = key_index(v1, slot.room@);
                    lemma_listed_cell(v1, self.slots@, i as int);
                    lemma_touch_step(v0, v1, k, slot.index as int, None, cells, i as int);
                    assert forall|t: int| 0 <= t <= i implies !#[trigger] is_filled(a@, self.slots@[t]) by {
                        let st = self.slots@[t];
                        lemma_set_cell_keys(v1, k, slot.index as int, None, st.room@);
                        lemma_key_index(v1, st.room@);
                        if t < i {
                            assert(!is_filled(v1, st));
                        }
                    }
                }
            }
            i = i + 1;
        }
    }
}


/// Whether variable slot `s` exists in `v` and is filled (or, with `filled`
/// false, exists and is empty).
pub open spec fn slot_matches(v: AssignmentView, s: Slot, filled: bool) -> bool {
    slot_exists(v, s.room@, s.index as int) && is_filled(v, s) == filled
}

/// The indexes below `n` of the variable slots that match `filled`, in
/// slot order.
pub open spec fn slots_matching(sp: Space, v: AssignmentView, filled: bool, n: int) -> Seq<usize>
    decreases n,
{
    if n <= 0 {
        Seq::empty()
    } else {
        let rest = slots_matching(sp, v, filled, n - 1);
        if slot_matches(v, sp.slots@[n - 1], filled) {
            rest.push((n - 1) as usize)
        } else {
            rest
        }
    }
}

impl Space {
    /// Indexes of the variable slots that exist and are filled (or, with
    /// `filled` false, exist and are empty), in slot order.
    fn slots_where(&self, a: &Assignment, filled: bool) -> (r: Vec<usize>)
        ensures
            r@ == slots_matching(*self, a@, filled, self.slots@.len() as int),
            r@.len() <= self.slots@.len(),
            forall|k: int| 0 <= k < r@.len() ==> #[trigger] r@[k] < self.slots@.len() && slot_exists(
                a@,
                self.slots@[r@[k] as int].room@,
                self.slots@[r@[k] as int].index as int,
            ) && is_filled(a@, self.slots@[r@[k] as int]) == filled,
    {
        let mut out: Vec<usize> = Vec::new();
        let mut i: usize = 0;
        while i < self.slots.len()
            invariant
                i <= self.slots@.len(),
                out@.len() <= i,
                out@ == slots_matching(*self, a@, filled, i as int),
                forall|k: int| 0 <= k < out@.len() ==> #[trigger] out@[k] < self.slots@.len() && slot_exists(
                    a@,
                    self.slots@[out@[k] as int].room@,
                    self.slots@[out@[k] as int].index as int,
                ) && is_filled(a@, self.slots@[out@[k] as int]) == filled,
            decreases self.slots@.len() - i,
        {
            let keep_it = if filled {
                is_occupied(a, &self.slots[i])
            } else {
                is_vacant(a, &self.slots[i])
            };
            if keep_it {
                proof {
                    if filled {
                        assert(occupant(a@, self.slots@[i as int].room@, self.slots@[i as int].index as int) is Some);
                    }
                }
                out.push(i);
            }
            i = i + 1;
        }
        out
    }

    /// Swaps two random variable slots that are not interchangeable, when at
    /// least one is filled.
    fn swap(&self, a: &mut Assignment, rng: &mut Pcg32) -> (r: bool)
        requires
            old(a).wf(),
            self.wf(),
            self.slots@.len() <= 0x1_0000_0000,
        ensures
            final(a).wf(),
            (r, final(a)@, final(rng)@) == swap_try(*self, old(a)@, old(rng)@),
            touches_only(old(a)@, final(a)@, slot_cells(self.slots@)),
            !r ==> final(a)@ == old(a)@,
            r ==> neighbour_views(*self, old(a)@).contains(final(a)@),
    {
        let ghost v = a@;
        let ghost cells = slot_cells(self.slots@);
        proof {
            lemma_touch_none(v, cells);
        }
        if self.slots.len() < 2 {
            return false;
        }
        let i = rng.below(self.slots.len());
        let j = rng.below(self.slots.len());
        if i == j {
            return false;
        }
        let same_group = self.slot_group[i] == self.slot_group[j];
        if same_group && !self.groups[self.slot_group[i]].ordered {
            return false;
        }
        let si = &self.slots[i];
        let sj = &self.slots[j];
        if !is_occupied(a, si) && !is_occupied(a, sj) {
            return false;
        }
        let r = a.swap(si, sj);
        proof {
            if r is Ok {
                let ka = key_index(v, si.room@);
                let kb = key_index(v, sj.room@);
                lemma_listed_cell(v, self.slots@, i as int);
                lemma_listed_cell(v, self.slots@, j as int);
                let x = v[kb].1[sj.index as int];
                let w1 = set_cell(v, ka, si.index as int, x);
                lemma_touch_step(v, v, ka, si.index as int, x, cells, i as int);
                lemma_set_cell_keys(v, ka, si.index as int, x, sj.room@);
                lemma_touch_step(v, w1, kb, sj.index as int, v[ka].1[si.index as int], cells, j as int);
                let names = keep(op_ids(self.pool@), benched_in(v));
                if i < j {
                    lemma_swap_moves_has(*self, v, 0, 1, i as int, j as int);
                } else {
                    lemma_swap_moves_has(*self, v, 0, 1, j as int, i as int);
                    lemma_swapped_symmetric(v, ka, si.index as int, kb, sj.index as int);
                }
                lemma_contains_concat(swap_moves(*self, v, 0, 1), bench_moves(*self, v, names, 0, 0), a@);
            }
        }
        r.is_ok()
    }

    /// Replaces the occupant of a random filled variable slot with a random
    /// bench operator.
    fn replace(&self, a: &mut Assignment, rng: &mut Pcg32) -> (r: bool)
        requires
            old(a).wf(),
            self.wf(),
            self.slots@.len() <= 0x1_0000_0000,
            self.pool@.len() <= 0x1_0000_0000,
        ensures
            final(a).wf(),
            (r, final(a)@, final(rng)@) == bench_try(*self, old(a)@, old(rng)@, false),
            touches_only(old(a)@, final(a)@, slot_cells(self.slots@)),
            !r ==> final(a)@ == old(a)@,
            r ==> neighbour_views(*self, old(a)@).contains(final(a)@),
    {
        let ghost v = a@;
        let ghost cells = slot_cells(self.slots@);
        proof {
            lemma_touch_none(v, cells);
        }
        let occupied = self.slots_where(a, true);
        let bench = self.unassigned(a);
        proof {
            lemma_keep_len(op_ids(self.pool@), benched_in(v));
        }
        if occupied.len() == 0 || bench.len() == 0 {
            return false;
        }
        let t = occupied[rng.below(occupied.len())];
        let slot = self.slots[t].duplicate();
        let b = rng.below(bench.len());
        let op = bench[b].duplicate();
        proof {
            lemma_keep_members(op_ids(self.pool@), benched_in(v), b as int);
            assert(op_ref_ids(bench@)[b as int] == op@);
            assert(!is_placed(v, op@));
            assert(unstationed(v, op@) == v);
        }
        let r = a.move_to(&op, &slot);
        proof {
            let k = key_index(v, slot.room@);
            lemma_listed_cell(v, self.slots@, t as int);
            lemma_touch_step(v, v, k, slot.index as int, Some(op@), cells, t as int);
            if r is Ok {
                let names = keep(op_ids(self.pool@), benched_in(v));
                assert(names[b as int] == op@);
                assert(move_view(v, op@, slot) == Some(a@));
                lemma_bench_moves_has(*self, v, names, 0, 0, t as int, b as int);
                lemma_contains_concat_right(swap_moves(*self, v, 0, 1), bench_moves(*self, v, names, 0, 0), a@);
            }
        }
        r.is_ok()
    }

    /// Puts a random bench operator into a random empty variable slot.
    fn fill(&self, a: &mut Assignment, rng: &mut Pcg32) -> (r: bool)
        requires
            old(a).wf(),
            self.wf(),
            self.slots@.len() <= 0x1_0000_0000,
            self.pool@.len() <= 0x1_0000_0000,
        ensures
            final(a).wf(),
            (r, final(a)@, final(rng)@) == bench_try(*self, old(a)@, old(rng)@, true),
            touches_only(old(a)@, final(a)@, slot_cells(self.slots@)),
            !r ==> final(a)@ == old(a)@,
            r ==> neighbour_views(*self, old(a)@).contains(final(a)@),
    {
        let ghost v = a@;
        let ghost cells = slot_cells(self.slots@);
        proof {
            lemma_touch_none(v, cells);
        }
        let empty = self.slots_where(a, false);
        let bench = self.unassigned(a);
        proof {
            lemma_keep_len(op_ids(self.pool@), benched_in(v));
        }
        if empty.len() == 0 || bench.len() == 0 {
            return false;
        }
        let t = empty[rng.below(empty.len())];
        let slot = self.slots[t].duplicate();
        let b = rng.below(bench.len());
        let op = bench[b].duplicate();
        proof {
            lemma_keep_members(op_ids(self.pool@), benched_in(v), b as int);
            assert(op_ref_ids(bench@)[b as int] == op@);
            assert(!is_placed(v, op@));
        }
        let ghost o = op@;
        let r = a.place(&slot, op);
        proof {
            let k = key_index(v, slot.room@);
            lemma_listed_cell(v, self.slots@, t as int);
            lemma_touch_step(v, v, k, slot.index as int, Some(o), cells, t as int);
            if r is Ok {
                let names = keep(op_ids(self.pool@), benched_in(v));
                assert(names[b as int] == o);
                assert(placed_view(v, slot, o) == Some(a@));
                lemma_bench_moves_has(*self, v, names, 0, 0, t as int, b as int);
                lemma_contains_concat_right(swap_moves(*self, v, 0, 1), bench_moves(*self, v, names, 0, 0), a@);
            }
        }
        r.is_ok()
    }

    /// Empties a random filled variable slot.
    fn clear(&self, a: &mut Assignment, rng: &mut Pcg32) -> (r: bool)
        requires
            old(a).wf(),
            self.wf(),
            self.slots@.len() <= 0x1_0000_0000,
        ensures
            final(a).wf(),
            (r, final(a)@, final(rng)@) == clear_try(*self, old(a)@, old(rng)@),
            touches_only(old(a)@, final(a)@, slot_cells(self.slots@)),
            !r ==> final(a)@ == old(a)@,
            r ==> neighbour_views(*self, old(a)@).contains(final(a)@),
    {
        let ghost v = a@;
        let ghost cells = slot_cells(self.slots@);
        proof {
            lemma_touch_none(v, cells);
        }
        let occupied = self.slots_where(a, true);
        if occupied.len() == 0 {
            return false;
        }
        let t = occupied[rng.below(occupied.len())];
        let slot = self.slots[t].duplicate();
        let r = a.remove(&slot);
        proof {
            let k = key_index(v, slot.room@);
            lemma_listed_cell(v, self.slots@, t as int);
            lemma_touch_step(v, v, k, slot.index as int, None, cells, t as int);
            let names = keep(op_ids(self.pool@), benched_in(v));
            lemma_bench_moves_has(*self, v, names, 0, 0, t as int, names.len() as int);
            lemma_contains_concat_right(swap_moves(*self, v, 0, 1), bench_moves(*self, v, names, 0, 0), a@);
        }
        r.is_some()
    }
}


/// What a random swap does to `v` with generator `g`: whether it changed
/// anything, the view after, and the generator after. Two slots are drawn;
/// nothing changes when they are the same slot, interchangeable, or both
/// empty.
pub open spec fn swap_try(sp: Space, v: AssignmentView, g: (u64, u64)) -> (bool, AssignmentView, (u64, u64)) {
    let n = sp.slots@.len() as int;
    if n < 2 {
        (false, v, g)
    } else {
        let i = pcg_below(g, n);
        let j = pcg_below(pcg_next(g), n);
        let after = pcg_next(pcg_next(g));
        if i == j || interchangeable(sp, i, j) || (!is_filled(v, sp.slots@[i]) && !is_filled(
            v,
            sp.slots@[j],
        )) {
            (false, v, after)
        } else {
            match swap_view(v, sp.slots@[i], sp.slots@[j]) {
                Some(w) => (true, w, after),
                None => (false, v, after),
            }
        }
    }
}

/// What a random bench move does: a filled slot (or, for `into_empty`, an
/// empty one) and a bench operator are drawn, and the operator is moved
/// in (or placed).
pub open spec fn bench_try(sp: Space, v: AssignmentView, g: (u64, u64), into_empty: bool) -> (
    bool,
    AssignmentView,
    (u64, u64),
) {
    let targets = slots_matching(sp, v, !into_empty, sp.slots@.len() as int);
    let bench = keep(op_ids(sp.pool@), benched_in(v));
    if targets.len() == 0 || bench.len() == 0 {
        (false, v, g)
    } else {
        let slot = sp.slots@[targets[pcg_below(g, targets.len() as int)] as int];
        let op = bench[pcg_below(pcg_next(g), bench.len() as int)];
        let after = pcg_next(pcg_next(g));
        let moved = if into_empty {
            placed_view(v, slot, op)
        } else {
            move_view(v, op, slot)
        };
        match moved {
            Some(w) => (true, w, after),
            None => (false, v, after),
        }
    }
}

/// What a random clear does: a filled slot is drawn and emptied.
pub open spec fn clear_try(sp: Space, v: AssignmentView, g: (u64, u64)) -> (bool, AssignmentView, (u64, u64)) {
    let filled = slots_matching(sp, v, true, sp.slots@.len() as int);
    if filled.len() == 0 {
        (false, v, g)
    } else {
        let slot = sp.slots@[filled[pcg_below(g, filled.len() as int)] as int];
        (true, cleared_view(v, slot), pcg_next(g))
    }
}

/// What `propose` returns and leaves the generator in, with `left` random
/// tries to go: each try rolls a move kind (swap 40%, replace 30%, fill 20%,
/// clear 10%) and stops at the first that changes something; with no tries
/// left, one of all the neighbours is drawn.
pub open spec fn propose_from(sp: Space, v: AssignmentView, g: (u64, u64), left: nat) -> (
    Option<AssignmentView>,
    (u64, u64),
)
    decreases left,
{
    if left == 0 {
        let all = neighbour_views(sp, v);
        if all.len() == 0 {
            (None, g)
        } else {
            (Some(all[pcg_below(g, all.len() as int)]), pcg_next(g))
        }
    } else {
        let roll = pcg_below(g, 100);
        let g1 = pcg_next(g);
        let m = if roll < 40 {
            swap_try(sp, v, g1)
        } else if roll < 70 {
            bench_try(sp, v, g1, false)
        } else if roll < 90 {
            bench_try(sp, v, g1, true)
        } else {
            clear_try(sp, v, g1)
        };
        if m.0 {
            (Some(m.1), m.2)
        } else {
            propose_from(sp, v, m.2, (left - 1) as nat)
        }
    }
}

/// The views of a list of assignments.
pub open spec fn views(s: Seq<Assignment>) -> Seq<AssignmentView> {
    s.map_values(|a: Assignment| a@)
}

/// Every listed assignment keeps the invariants.
pub open spec fn all_wf(s: Seq<Assignment>) -> bool {
    forall|i: int| 0 <= i < s.len() ==> (#[trigger] s[i]).wf()
}

pub proof fn lemma_views_push(s: Seq<Assignment>, a: Assignment)
    ensures
        views(s.push(a)) == views(s).push(a@),
{
    assert(views(s.push(a)) =~= views(s).push(a@));
}

/// The view after `swap` exchanges two slots, or `None` when one is
/// missing.
pub open spec fn swap_view(v: AssignmentView, a: Slot, b: Slot) -> Option<AssignmentView> {
    if slot_exists(v, a.room@, a.index as int) && slot_exists(v, b.room@, b.index as int) {
        Some(swapped(v, key_index(v, a.room@), a.index as int, key_index(v, b.room@), b.index as int))
    } else {
        None
    }
}

/// The view after `move_to` brings `op` to `slot`, or `None` when it
/// refuses.
pub open spec fn move_view(v: AssignmentView, op: Seq<char>, slot: Slot) -> Option<AssignmentView> {
    if slot_exists(v, slot.room@, slot.index as int) {
        placed_view(unstationed(v, op), slot, op)
    } else {
        None
    }
}

/// A move's result as a list: one view, or none.
pub open spec fn opt_seq(o: Option<AssignmentView>) -> Seq<AssignmentView> {
    match o {
        Some(w) => seq![w],
        None => Seq::empty(),
    }
}

/// Two variable slots of the same room whose order does not matter.
pub open spec fn interchangeable(sp: Space, i: int, j: int) -> bool {
    sp.slot_group@[i] == sp.slot_group@[j] && !sp.groups@[sp.slot_group@[i] as int].ordered
}

/// The swaps of slot pairs `(i, j)` onward, pairs in order (`i < j`): two
/// slots that are not interchangeable, at least one filled.
pub open spec fn swap_moves(sp: Space, v: AssignmentView, i: int, j: int) -> Seq<AssignmentView>
    decreases sp.slots@.len() - i, sp.slots@.len() - j,
{
    let n = sp.slots@.len() as int;
    if i < 0 || i >= n {
        Seq::empty()
    } else if j < 0 || j >= n {
        swap_moves(sp, v, i + 1, i + 2)
    } else {
        let here = if !interchangeable(sp, i, j) && (is_filled(v, sp.slots@[i]) || is_filled(v, sp.slots@[j])) {
            opt_seq(swap_view(v, sp.slots@[i], sp.slots@[j]))
        } else {
            Seq::empty()
        };
        here + swap_moves(sp, v, i, j + 1)
    }
}

/// The bench moves from slot `t`, bench operator `b` onward: each bench
/// operator into each slot (moved in over a filled one, placed in an empty
/// one), then the slot emptied if it is filled.
pub open spec fn bench_moves(sp: Space, v: AssignmentView, bench: Seq<Seq<char>>, t: int, b: int) -> Seq<
    AssignmentView,
>
    decreases sp.slots@.len() - t, bench.len() + 1 - b,
{
    let n = sp.slots@.len() as int;
    if t < 0 || t >= n || b < 0 {
        Seq::empty()
    } else if b < bench.len() {
        let slot = sp.slots@[t];
        let here = if is_filled(v, slot) {
            move_view(v, bench[b], slot)
        } else {
            placed_view(v, slot, bench[b])
        };
        opt_seq(here) + bench_moves(sp, v, bench, t, b + 1)
    } else {
        let slot = sp.slots@[t];
        let gone = if is_filled(v, slot) {
            seq![cleared_view(v, slot)]
        } else {
            Seq::empty()
        };
        gone + bench_moves(sp, v, bench, t + 1, 0)
    }
}

/// Every assignment one move away from a view, in the order `neighbours`
/// lists them.
pub open spec fn neighbour_views(sp: Space, v: AssignmentView) -> Seq<AssignmentView> {
    swap_moves(sp, v, 0, 1) + bench_moves(sp, v, keep(op_ids(sp.pool@), benched_in(v)), 0, 0)
}

/// What the front of a list holds, the whole list holds.
proof fn lemma_contains_concat(x: Seq<AssignmentView>, y: Seq<AssignmentView>, w: AssignmentView)
    requires
        x.contains(w),
    ensures
        (x + y).contains(w),
{
    let k = choose|k: int| 0 <= k < x.len() && x[k] == w;
    assert((x + y)[k] == w);
}

/// What the back of a list holds, the whole list holds.
proof fn lemma_contains_concat_right(x: Seq<AssignmentView>, y: Seq<AssignmentView>, w: AssignmentView)
    requires
        y.contains(w),
    ensures
        (x + y).contains(w),
{
    let k = choose|k: int| 0 <= k < y.len() && y[k] == w;
    assert((x + y)[x.len() + k] == w);
}

/// Exchanging two cells does not depend on which is named first.
proof fn lemma_swapped_symmetric(v: AssignmentView, ka: int, ia: int, kb: int, ib: int)
    requires
        0 <= ka < v.len(),
        0 <= ia < v[ka].1.len(),
        0 <= kb < v.len(),
        0 <= ib < v[kb].1.len(),
    ensures
        swapped(v, ka, ia, kb, ib) == swapped(v, kb, ib, ka, ia),
{
    let x = swapped(v, ka, ia, kb, ib);
    let y = swapped(v, kb, ib, ka, ia);
    assert forall|q: int| 0 <= q < v.len() implies x[q] == y[q] by {
        assert(x[q].1 =~= y[q].1);
    }
    assert(x =~= y);
}

/// Neither part of a list holds `w`, so the list does not.
proof fn lemma_concat_lacks(x: Seq<AssignmentView>, y: Seq<AssignmentView>, w: AssignmentView)
    requires
        !x.contains(w),
        !y.contains(w),
    ensures
        !(x + y).contains(w),
{
    if (x + y).contains(w) {
        let k = choose|k: int| 0 <= k < (x + y).len() && (x + y)[k] == w;
        if k < x.len() {
            assert(x[k] == w);
        } else {
            assert(y[k - x.len()] == w);
        }
    }
}

/// A view that differs from `v` in one cell is not `v`.
proof fn lemma_cell_differs(v: AssignmentView, w: AssignmentView, k: int, i: int)
    requires
        0 <= k < v.len(),
        0 <= i < v[k].1.len(),
        w[k].1[i] != v[k].1[i],
    ensures
        w != v,
{
}

/// Swapping two distinct variable slots, one of them filled, changes the
/// view.
proof fn lemma_swap_differs(sp: Space, v: AssignmentView, i: int, j: int)
    requires
        wf_view(v),
        slot_cells(sp.slots@).no_duplicates(),
        0 <= i < j < sp.slots@.len(),
        is_filled(v, sp.slots@[i]) || is_filled(v, sp.slots@[j]),
    ensures
        swap_view(v, sp.slots@[i], sp.slots@[j]) matches Some(w) ==> w != v,
{
    let a = sp.slots@[i];
    let b = sp.slots@[j];
    if let Some(w) = swap_view(v, a, b) {
        let ka = key_index(v, a.room@);
        let kb = key_index(v, b.room@);
        lemma_key_index(v, a.room@);
        lemma_key_index(v, b.room@);
        let ia = a.index as int;
        let ib = b.index as int;
        assert(slot_cells(sp.slots@)[i] != slot_cells(sp.slots@)[j]);
        assert(ka != kb || ia != ib);
        let x = v[ka].1[ia];
        let y = v[kb].1[ib];
        if x == y {
            assert(x is Some);
            assert(holds_at(v, ka, ia, x->0));
            assert(holds_at(v, kb, ib, x->0));
        }
        assert(w[ka].1[ia] == y);
        lemma_cell_differs(v, w, ka, ia);
    }
}

/// No swap from pair `(i, j)` on gives back the view itself.
proof fn lemma_swap_moves_differ(sp: Space, v: AssignmentView, i: int, j: int)
    requires
        wf_view(v),
        slot_cells(sp.slots@).no_duplicates(),
        0 <= i < j,
    ensures
        !swap_moves(sp, v, i, j).contains(v),
    decreases sp.slots@.len() - i, sp.slots@.len() - j,
{
    let n = sp.slots@.len() as int;
    if i >= n {
    } else if j >= n {
        lemma_swap_moves_differ(sp, v, i + 1, i + 2);
    } else {
        let here = if !interchangeable(sp, i, j) && (is_filled(v, sp.slots@[i]) || is_filled(v, sp.slots@[j])) {
            opt_seq(swap_view(v, sp.slots@[i], sp.slots@[j]))
        } else {
            Seq::empty()
        };
        if !interchangeable(sp, i, j) && (is_filled(v, sp.slots@[i]) || is_filled(v, sp.slots@[j])) {
            lemma_swap_differs(sp, v, i, j);
        }
        assert(!here.contains(v));
        lemma_swap_moves_differ(sp, v, i, j + 1);
        lemma_concat_lacks(here, swap_moves(sp, v, i, j + 1), v);
    }
}

/// Putting an operator who is not stationed into an existing slot changes
/// the view.
proof fn lemma_place_differs(v: AssignmentView, slot: Slot, op: Seq<char>)
    requires
        !is_placed(v, op),
    ensures
        placed_view(v, slot, op) matches Some(w) ==> w != v,
{
    if let Some(w) = placed_view(v, slot, op) {
        let k = key_index(v, slot.room@);
        lemma_key_index(v, slot.room@);
        let i = slot.index as int;
        assert(!holds_at(v, k, i, op));
        lemma_cell_differs(v, w, k, i);
    }
}

/// No bench move from slot `t`, bench operator `b` on gives back the view.
proof fn lemma_bench_moves_differ(sp: Space, v: AssignmentView, bench: Seq<Seq<char>>, t: int, b: int)
    requires
        forall|q: int| 0 <= q < bench.len() ==> !is_placed(v, #[trigger] bench[q]),
    ensures
        !bench_moves(sp, v, bench, t, b).contains(v),
    decreases sp.slots@.len() - t, bench.len() + 1 - b,
{
    let n = sp.slots@.len() as int;
    if t < 0 || t >= n || b < 0 {
    } else if b < bench.len() {
        let slot = sp.slots@[t];
        let here = if is_filled(v, slot) {
            move_view(v, bench[b], slot)
        } else {
            placed_view(v, slot, bench[b])
        };
        assert(!is_placed(v, bench[b]));
        assert(unstationed(v, bench[b]) == v);
        lemma_place_differs(v, slot, bench[b]);
        assert(!opt_seq(here).contains(v));
        lemma_bench_moves_differ(sp, v, bench, t, b + 1);
        lemma_concat_lacks(opt_seq(here), bench_moves(sp, v, bench, t, b + 1), v);
    } else {
        let slot = sp.slots@[t];
        let gone = if is_filled(v, slot) {
            seq![cleared_view(v, slot)]
        } else {
            Seq::empty()
        };
        if is_filled(v, slot) {
            let k = key_index(v, slot.room@);
            lemma_key_index(v, slot.room@);
            lemma_cell_differs(v, cleared_view(v, slot), k, slot.index as int);
            assert(gone[0] != v);
        }
        assert(!gone.contains(v));
        lemma_bench_moves_differ(sp, v, bench, t + 1, 0);
        lemma_concat_lacks(gone, bench_moves(sp, v, bench, t + 1, 0), v);
    }
}

/// Every neighbour differs from the assignment it neighbours, for a space
/// whose variable slots are distinct (as `Space::new` builds them): a move
/// always changes some slot.
pub proof fn law_neighbours_differ(sp: Space, v: AssignmentView)
    requires
        wf_view(v),
        slot_cells(sp.slots@).no_duplicates(),
    ensures
        !neighbour_views(sp, v).contains(v),
{
    let bench = keep(op_ids(sp.pool@), benched_in(v));
    assert forall|q: int| 0 <= q < bench.len() implies !is_placed(v, #[trigger] bench[q]) by {
        lemma_keep_members(op_ids(sp.pool@), benched_in(v), q);
    }
    lemma_swap_moves_differ(sp, v, 0, 1);
    lemma_bench_moves_differ(sp, v, bench, 0, 0);
    lemma_concat_lacks(swap_moves(sp, v, 0, 1), bench_moves(sp, v, bench, 0, 0), v);
}

/// The swap of a pair of slots `(i, j)`, `i < j`, is listed among the swaps
/// from any earlier pair on.
proof fn lemma_swap_moves_has(sp: Space, v: AssignmentView, i0: int, j0: int, i: int, j: int)
    requires
        sp.wf(),
        0 <= i0,
        0 <= i < j < sp.slots@.len(),
        i0 < i || (i0 == i && j0 <= j),
        i0 + 1 <= j0,
    ensures
        !interchangeable(sp, i, j) && (is_filled(v, sp.slots@[i]) || is_filled(v, sp.slots@[j])) ==> (
        swap_view(v, sp.slots@[i], sp.slots@[j]) matches Some(w) ==> swap_moves(sp, v, i0, j0).contains(w)),
    decreases sp.slots@.len() - i0, sp.slots@.len() - j0,
{
    let n = sp.slots@.len() as int;
    if j0 >= n {
        lemma_swap_moves_has(sp, v, i0 + 1, i0 + 2, i, j);
        assert(swap_moves(sp, v, i0, j0) == swap_moves(sp, v, i0 + 1, i0 + 2));
    } else {
        let here = if !interchangeable(sp, i0, j0) && (is_filled(v, sp.slots@[i0]) || is_filled(v, sp.slots@[j0])) {
            opt_seq(swap_view(v, sp.slots@[i0], sp.slots@[j0]))
        } else {
            Seq::empty()
        };
        let rest = swap_moves(sp, v, i0, j0 + 1);
        assert(swap_moves(sp, v, i0, j0) == here + rest);
        if i0 == i && j0 == j {
            if !interchangeable(sp, i, j) && (is_filled(v, sp.slots@[i]) || is_filled(v, sp.slots@[j])) {
                if let Some(w) = swap_view(v, sp.slots@[i], sp.slots@[j]) {
                    assert((here + rest)[0] == w);
                }
            }
        } else {
            lemma_swap_moves_has(sp, v, i0, j0 + 1, i, j);
            if !interchangeable(sp, i, j) && (is_filled(v, sp.slots@[i]) || is_filled(v, sp.slots@[j])) {
                if let Some(w) = swap_view(v, sp.slots@[i], sp.slots@[j]) {
                    let k = choose|k: int| 0 <= k < rest.len() && rest[k] == w;
                    assert((here + rest)[here.len() + k] == w);
                }
            }
        }
    }
}

/// The move of bench operator `b` into slot `t` (or, for `b` past the
/// bench, the emptying of slot `t`) is listed among the bench moves from
/// any earlier step on.
proof fn lemma_bench_moves_has(
    sp: Space,
    v: AssignmentView,
    bench: Seq<Seq<char>>,
    t0: int,
    b0: int,
    t: int,
    b: int,
)
    requires
        0 <= t0,
        0 <= b0,
        0 <= t < sp.slots@.len(),
        0 <= b <= bench.len(),
        t0 < t || (t0 == t && b0 <= b),
    ensures
        b < bench.len() ==> ((if is_filled(v, sp.slots@[t]) {
            move_view(v, bench[b], sp.slots@[t])
        } else {
            placed_view(v, sp.slots@[t], bench[b])
        }) matches Some(w) ==> bench_moves(sp, v, bench, t0, b0).contains(w)),
        b == bench.len() && is_filled(v, sp.slots@[t]) ==> bench_moves(sp, v, bench, t0, b0).contains(
            cleared_view(v, sp.slots@[t]),
        ),
    decreases sp.slots@.len() - t0, bench.len() + 1 - b0,
{
    let n = sp.slots@.len() as int;
    let slot = sp.slots@[t0];
    if b0 < bench.len() {
        let here = opt_seq(
            if is_filled(v, slot) {
                move_view(v, bench[b0], slot)
            } else {
                placed_view(v, slot, bench[b0])
            },
        );
        let rest = bench_moves(sp, v, bench, t0, b0 + 1);
        assert(bench_moves(sp, v, bench, t0, b0) == here + rest);
        if t0 == t && b0 == b {
            if here.len() > 0 {
                assert((here + rest)[0] == here[0]);
            }
        } else {
            lemma_bench_moves_has(sp, v, bench, t0, b0 + 1, t, b);
            assert forall|w: AssignmentView| rest.contains(w) implies (here + rest).contains(w) by {
                let k = choose|k: int| 0 <= k < rest.len() && rest[k] == w;
                assert((here + rest)[here.len() + k] == w);
            }
        }
    } else {
        let gone = if is_filled(v, slot) {
            seq![cleared_view(v, slot)]
        } else {
            Seq::<AssignmentView>::empty()
        };
        let rest = bench_moves(sp, v, bench, t0 + 1, 0);
        assert(bench_moves(sp, v, bench, t0, b0) == gone + rest);
        if t0 == t {
            if b == bench.len() && is_filled(v, sp.slots@[t]) {
                assert((gone + rest)[0] == cleared_view(v, slot));
            }
        } else {
            lemma_bench_moves_has(sp, v, bench, t0 + 1, 0, t, b);
            assert forall|w: AssignmentView| rest.contains(w) implies (gone + rest).contains(w) by {
                let k = choose|k: int| 0 <= k < rest.len() && rest[k] == w;
                assert((gone + rest)[gone.len() + k] == w);
            }
        }
    }
}

impl Space {
    /// Every assignment one move away from `current`: a swap of two variable
    /// slots that are not interchangeable, with at least one filled; a bench
    /// operator into a variable slot; or a filled variable slot emptied.
    pub fn neighbours(&self, current: &Assignment) -> (r: Vec<Assignment>)
        requires
            current.wf(),
            self.wf(),
        ensures
            views(r@) == neighbour_views(*self, current@),
            r@.len() <= self.slots@.len() * (self.slots@.len() + self.pool@.len() + 1),
            forall|k: int| 0 <= k < r@.len() ==> good_move(current@, #[trigger] r@[k], slot_cells(self.slots@)),
    {
        let ghost v = current@;
        let ghost cells = slot_cells(self.slots@);
        let ghost total_swaps = swap_moves(*self, v, 0, 1);
        let n = self.slots.len();
        let mut out: Vec<Assignment> = Vec::new();
        let mut i: usize = 0;
        proof {
            assert(views(out@) + total_swaps =~= total_swaps);
        }
        while i < n
            invariant
                self.wf(),
                current.wf(),
                v == current@,
                cells == slot_cells(self.slots@),
                total_swaps == swap_moves(*self, v, 0, 1),
                n == self.slots@.len(),
                i <= n,
                out@.len() <= i * n,
                forall|k: int| 0 <= k < out@.len() ==> good_move(v, #[trigger] out@[k], cells),
                views(out@) + swap_moves(*self, v, i as int, i + 1) == total_swaps,
            decreases n - i,
        {
            let mut j: usize = i + 1;
            while j < n
                invariant
                    self.wf(),
                    current.wf(),
                    v == current@,
                    cells == slot_cells(self.slots@),
                    total_swaps == swap_moves(*self, v, 0, 1),
                    n == self.slots@.len(),
                    i < n,
                    i + 1 <= j <= n,
                    out@.len() <= i * n + (j - i - 1),
                    forall|k: int| 0 <= k < out@.len() ==> good_move(v, #[trigger] out@[k], cells),
                    views(out@) + swap_moves(*self, v, i as int, j as int) == total_swaps,
                decreases n - j,
            {
                let ghost before = out@;
                let ghost here = if !interchangeable(*self, i as int, j as int) && (is_filled(v, self.slots@[i as int])
                    || is_filled(v, self.slots@[j as int])) {
                    opt_seq(swap_view(v, self.slots@[i as int], self.slots@[j as int]))
                } else {
                    Seq::empty()
                };
                let same_group = self.slot_group[i] == self.slot_group[j];
                if !(same_group && !self.groups[self.slot_group[i]].ordered) {
                    let si = &self.slots[i];
                    let sj = &self.slots[j];
                    if is_occupied(current, si) || is_occupied(current, sj) {
                        let mut a = current.duplicate();
                        let r = a.swap(si, sj);
                        if r.is_ok() {
                            proof {
                                lemma_touch_none(v, cells);
                                let ka = key_index(v, si.room@);
                                let kb = key_index(v, sj.room@);
                                lemma_listed_cell(v, self.slots@, i as int);
                                lemma_listed_cell(v, self.slots@, j as int);
                                let x = v[kb].1[sj.index as int];
                                let w1 = set_cell(v, ka, si.index as int, x);
                                lemma_touch_step(v, v, ka, si.index as int, x, cells, i as int);
                                lemma_set_cell_keys(v, ka, si.index as int, x, sj.room@);
                                lemma_touch_step(v, w1, kb, sj.index as int, v[ka].1[si.index as int], cells, j as int);
                                lemma_views_push(out@, a);
                                assert(here == seq![a@]);
                            }
                            out.push(a);
                        } else {
                            proof {
                                assert(here == Seq::<AssignmentView>::empty());
                            }
                        }
                    }
                }
                proof {
                    assert(views(out@) =~= views(before) + here);
                    assert(swap_moves(*self, v, i as int, j as int) == here + swap_moves(*self, v, i as int, j + 1));
                    assert(views(out@) + swap_moves(*self, v, i as int, j + 1) =~= views(before) + swap_moves(
                        *self,
                        v,
                        i as int,
                        j as int,
                    ));
                }
                j = j + 1;
            }
            proof {
                assert((i + 1) * n == i * n + n) by (nonlinear_arith);
                assert(swap_moves(*self, v, i as int, j as int) == swap_moves(*self, v, i + 1, i + 2));
            }
            i = i + 1;
        }
        proof {
            assert(views(out@) =~= total_swaps);
        }
        let bench = self.unassigned(current);
        proof {
            lemma_keep_len(op_ids(self.pool@), benched_in(v));
        }
        let ghost names = keep(op_ids(self.pool@), benched_in(v));
        let ghost total = total_swaps + bench_moves(*self, v, names, 0, 0);
        proof {
            assert(views(out@) + bench_moves(*self, v, names, 0, 0) == total);
        }
        let m = bench.len();
        let mut t: usize = 0;
        while t < n
            invariant
                self.wf(),
                current.wf(),
                v == current@,
                cells == slot_cells(self.slots@),
                n == self.slots@.len(),
                m == bench@.len(),
                m <= self.pool@.len(),
                op_ref_ids(bench@) == keep(op_ids(self.pool@), benched_in(v)),
                names == keep(op_ids(self.pool@), benched_in(v)),
                t <= n,
                out@.len() <= n * n + t * (m + 1),
                forall|k: int| 0 <= k < out@.len() ==> good_move(v, #[trigger] out@[k], cells),
                views(out@) + bench_moves(*self, v, names, t as int, 0) == total,
            decreases n - t,
        {
            let slot = &self.slots[t];
            let occupied = is_occupied(current, slot);
            let mut b: usize = 0;
            while b < m
                invariant
                    self.wf(),
                    current.wf(),
                    v == current@,
                    cells == slot_cells(self.slots@),
                    n == self.slots@.len(),
                    m == bench@.len(),
                    op_ref_ids(bench@) == keep(op_ids(self.pool@), benched_in(v)),
                    names == keep(op_ids(self.pool@), benched_in(v)),
                    t < n,
                    *slot == self.slots@[t as int],
                    occupied == is_filled(v, *slot),
                    b <= m,
                    out@.len() <= n * n + t * (m + 1) + b,
                    forall|k: int| 0 <= k < out@.len() ==> good_move(v, #[trigger] out@[k], cells),
                    views(out@) + bench_moves(*self, v, names, t as int, b as int) == total,
                decreases m - b,
            {
                let op = bench[b];
                let ghost before = out@;
                proof {
                    lemma_keep_members(op_ids(self.pool@), benched_in(v), b as int);
                    assert(op_ref_ids(bench@)[b as int] == op@);
                    assert(names[b as int] == op@);
                    assert(!is_placed(v, op@));
                    assert(unstationed(v, op@) == v);
                    lemma_touch_none(v, cells);
                }
                let ghost here = if occupied {
                    move_view(v, op@, *slot)
                } else {
                    placed_view(v, *slot, op@)
                };
                let mut a = current.duplicate();
                let moved = if occupied {
                    a.move_to(op, slot).is_ok()
                } else {
                    a.place(slot, op.duplicate()).is_ok()
                };
                proof {
                    assert(here == if moved {
                        Some(a@)
                    } else {
                        None::<AssignmentView>
                    });
                }
                if moved {
                    proof {
                        let k = key_index(v, slot.room@);
                        lemma_listed_cell(v, self.slots@, t as int);
                        lemma_touch_step(v, v, k, slot.index as int, Some(op@), cells, t as int);
                        lemma_views_push(out@, a);
                    }
                    out.push(a);
                }
                proof {
                    assert(views(out@) =~= views(before) + opt_seq(here));
                    assert(bench_moves(*self, v, names, t as int, b as int) == opt_seq(here) + bench_moves(
                        *self,
                        v,
                        names,
                        t as int,
                        b + 1,
                    ));
                    assert(views(out@) + bench_moves(*self, v, names, t as int, b + 1) =~= views(before) + bench_moves(
                        *self,
                        v,
                        names,
                        t as int,
                        b as int,
                    ));
                }
                b = b + 1;
            }
            let ghost before = out@;
            let ghost gone = if occupied {
                seq![cleared_view(v, *slot)]
            } else {
                Seq::<AssignmentView>::empty()
            };
            if occupied {
                let mut a = current.duplicate();
                let removed = a.remove(slot);
                proof {
                    let k = key_index(v, slot.room@);
                    lemma_touch_none(v, cells);
                    lemma_listed_cell(v, self.slots@, t as int);
                    assert(removed is Some);
                    lemma_touch_step(v, v, k, slot.index as int, None, cells, t as int);
                    lemma_views_push(out@, a);
                }
                out.push(a);
            }
            proof {
                assert((t + 1) * (m + 1) == t * (m + 1) + m + 1) by (nonlinear_arith);
                assert(views(out@) =~= views(before) + gone);
                assert(bench_moves(*self, v, names, t as int, b as int) == gone + bench_moves(
                    *self,
                    v,
                    names,
                    t + 1,
                    0,
                ));
                assert(views(out@) + bench_moves(*self, v, names, t + 1, 0) =~= views(before) + bench_moves(
                    *self,
                    v,
                    names,
                    t as int,
                    b as int,
                ));
            }
            t = t + 1;
        }
        proof {
            let p = self.pool@.len();
            assert(n * n + n * (m + 1) <= n * (n + p + 1)) by (nonlinear_arith)
                requires
                    m <= p,
            ;
            assert(views(out@) =~= total);
        }
        out
    }

    /// A random neighbour: swap two slots, replace an occupant with a bench
    /// operator, fill an empty slot, or clear a slot. Tries random moves a
    /// few times, then picks among every neighbour; `None` only if no move
    /// applies at all. The proposal, and how far the generator moves, follow
    /// from the space, `current` and the generator's state alone.
    pub fn propose(&self, current: &Assignment, rng: &mut Pcg32) -> (r: Option<Assignment>)
        requires
            current.wf(),
            self.wf(),
            self.pool@.len() <= 0x1_0000_0000,
            self.slots@.len() * (self.slots@.len() + self.pool@.len() + 1) <= 0x1_0000_0000,
        ensures
            match r {
                Some(a) => a.wf() && touches_only(current@, a@, slot_cells(self.slots@)) && neighbour_views(
                    *self,
                    current@,
                ).contains(a@) && propose_from(*self, current@, old(rng)@, 24).0 == Some(a@) && (
                slot_cells(self.slots@).no_duplicates() ==> a@ != current@),
                None => neighbour_views(*self, current@).len() == 0 && propose_from(
                    *self,
                    current@,
                    old(rng)@,
                    24,
                ).0 is None,
            },
            final(rng)@ == propose_from(*self, current@, old(rng)@, 24).1,
    {
        proof {
            if slot_cells(self.slots@).no_duplicates() {
                law_neighbours_differ(*self, current@);
            }
            let n = self.slots@.len();
            let p = self.pool@.len();
            assert(n <= 0x1_0000_0000) by (nonlinear_arith)
                requires
                    n * (n + p + 1) <= 0x1_0000_0000,
            ;
        }
        let mut tries: u32 = 0;
        while tries < 24
            invariant
                current.wf(),
                self.wf(),
                self.pool@.len() <= 0x1_0000_0000,
                self.slots@.len() <= 0x1_0000_0000,
                tries <= 24,
                slot_cells(self.slots@).no_duplicates() ==> !neighbour_views(*self, current@).contains(
                    current@,
                ),
                propose_from(*self, current@, rng@, (24 - tries) as nat) == propose_from(
                    *self,
                    current@,
                    old(rng)@,
                    24,
                ),
            decreases 24 - tries,
        {
            let mut a = current.duplicate();
            let roll = rng.below(100);
            let changed = if roll < 40 {
                self.swap(&mut a, rng)
            } else if roll < 70 {
                self.replace(&mut a, rng)
            } else if roll < 90 {
                self.fill(&mut a, rng)
            } else {
                self.clear(&mut a, rng)
            };
            if changed {
                return Some(a);
            }
            tries = tries + 1;
        }
        let mut all = self.neighbours(current);
        if all.len() == 0 {
            proof {
                assert(views(all@).len() == all@.len());
            }
            None
        } else {
            let pick = rng.below(all.len());
            proof {
                assert(good_move(current@, all@[pick as int], slot_cells(self.slots@)));
                assert(views(all@)[pick as int] == all@[pick as int]@);
            }
            Some(all.swap_remove(pick))
        }
    }
}


/// Whether slot `i` of a base room is held fixed: locked by the request, or
/// the Training Room's trainee slot.
pub open spec fn fixed_slot(room: Room, i: int, locked: Seq<Slot>) -> bool {
    slot_cells(locked).contains((room.id@, i as u8)) || (room.kind == RoomType::Training && i
        == TRAINING_TRAINEE_SLOT as int)
}

/// The number of slots a base room has at its level.
pub open spec fn room_cap(data: GameData, room: Room) -> nat {
    capacity_of(data, room.kind, room.level) as nat
}

/// The variable slots among the first `n` of a base room, in index order.
pub open spec fn room_variables(room: Room, n: nat, locked: Seq<Slot>) -> Seq<(Seq<char>, u8)>
    decreases n,
{
    if n == 0 {
        Seq::empty()
    } else {
        let prev = room_variables(room, (n - 1) as nat, locked);
        if fixed_slot(room, n - 1, locked) {
            prev
        } else {
            prev.push((room.id@, (n - 1) as u8))
        }
    }
}

/// How many of the first `n` slots of a base room are held fixed.
pub open spec fn room_fixed(room: Room, n: nat, locked: Seq<Slot>) -> nat
    decreases n,
{
    if n == 0 {
        0
    } else {
        room_fixed(room, (n - 1) as nat, locked) + if fixed_slot(room, n - 1, locked) {
            1nat
        } else {
            0nat
        }
    }
}

/// The variable slots of a base, rooms in order, slots in index order.
pub open spec fn base_variables(rooms: Seq<Room>, data: GameData, locked: Seq<Slot>) -> Seq<(Seq<char>, u8)>
    decreases rooms.len(),
{
    if rooms.len() == 0 {
        Seq::empty()
    } else {
        base_variables(rooms.drop_last(), data, locked) + room_variables(
            rooms.last(),
            room_cap(data, rooms.last()),
            locked,
        )
    }
}

/// How many slots of a base are held fixed.
pub open spec fn base_fixed(rooms: Seq<Room>, data: GameData, locked: Seq<Slot>) -> nat
    decreases rooms.len(),
{
    if rooms.len() == 0 {
        0
    } else {
        base_fixed(rooms.drop_last(), data, locked) + room_fixed(rooms.last(), room_cap(data, rooms.last()), locked)
    }
}

/// How many slots a base has.
pub open spec fn base_slots(rooms: Seq<Room>, data: GameData) -> nat
    decreases rooms.len(),
{
    if rooms.len() == 0 {
        0
    } else {
        base_slots(rooms.drop_last(), data) + room_cap(data, rooms.last())
    }
}

/// An operator the starting assignment puts in a fixed slot of the base.
pub open spec fn held_fixed(rooms: Seq<Room>, data: GameData, locked: Seq<Slot>, v: AssignmentView, op: Seq<char>) -> bool {
    exists|j: int, i: int|
        0 <= j < rooms.len() && 0 <= i < room_cap(data, rooms[j]) && fixed_slot(rooms[j], i, locked)
            && #[trigger] occupant(v, rooms[j].id@, i) == Some(op)
}

/// Each slot of a room is fixed or variable.
proof fn lemma_room_split(room: Room, n: nat, locked: Seq<Slot>)
    ensures
        room_variables(room, n, locked).len() + room_fixed(room, n, locked) == n,
    decreases n,
{
    if n > 0 {
        lemma_room_split(room, (n - 1) as nat, locked);
    }
}

/// Each slot of a base is fixed or variable, and a prefix of the rooms has
/// no more slots than the base.
proof fn lemma_base_split(rooms: Seq<Room>, data: GameData, locked: Seq<Slot>, q: int)
    requires
        0 <= q <= rooms.len(),
    ensures
        base_variables(rooms, data, locked).len() + base_fixed(rooms, data, locked) == base_slots(rooms, data),
        base_slots(rooms.take(q), data) <= base_slots(rooms, data),
    decreases rooms.len(),
{
    if rooms.len() > 0 {
        lemma_room_split(rooms.last(), room_cap(data, rooms.last()), locked);
        if q == rooms.len() {
            assert(rooms.take(q) =~= rooms);
            lemma_base_split(rooms.drop_last(), data, locked, q - 1);
        } else {
            assert(rooms.take(q) =~= rooms.drop_last().take(q));
            lemma_base_split(rooms.drop_last(), data, locked, q);
        }
    } else {
        assert(rooms.take(q) =~= rooms);
    }
}

/// A room's variable slots carry its label and distinct indexes below `n`.
proof fn lemma_room_variables_distinct(room: Room, n: nat, locked: Seq<Slot>)
    requires
        n <= 256,
    ensures
        room_variables(room, n, locked).no_duplicates(),
        forall|k: int| 0 <= k < room_variables(room, n, locked).len() ==> (#[trigger] room_variables(room, n, locked)[k]).0
            == room.id@ && room_variables(room, n, locked)[k].1 < n,
    decreases n,
{
    if n > 0 {
        lemma_room_variables_distinct(room, (n - 1) as nat, locked);
        let prev = room_variables(room, (n - 1) as nat, locked);
        if !fixed_slot(room, n - 1, locked) {
            let e = (room.id@, (n - 1) as u8);
            assert(((n - 1) as u8) as int == n - 1);
            assert forall|k: int| 0 <= k < prev.len() implies prev[k] != e by {
                assert(prev[k].1 < n - 1);
            }
            lemma_push_fresh(prev, e);
        }
    }
}

/// With distinct room labels, the variable slots of a base are distinct
/// cells, each labelled by one of the rooms.
proof fn lemma_base_variables_distinct(rooms: Seq<Room>, data: GameData, locked: Seq<Slot>)
    requires
        distinct_labels(rooms),
    ensures
        base_variables(rooms, data, locked).no_duplicates(),
        forall|k: int| 0 <= k < base_variables(rooms, data, locked).len() ==> exists|j: int| 0 <= j < rooms.len()
            && rooms[j].id@ == (#[trigger] base_variables(rooms, data, locked)[k]).0,
    decreases rooms.len(),
{
    if rooms.len() > 0 {
        let front = rooms.drop_last();
        assert(distinct_labels(front)) by {
            assert forall|a: int, b: int| 0 <= a < b < front.len() implies front[a].id@ != front[b].id@ by {
                assert(front[a] == rooms[a] && front[b] == rooms[b]);
            }
        }
        lemma_base_variables_distinct(front, data, locked);
        let last = rooms.last();
        lemma_room_variables_distinct(last, room_cap(data, last), locked);
        let x = base_variables(front, data, locked);
        let y = room_variables(last, room_cap(data, last), locked);
        assert forall|i: int, j: int| 0 <= i < x.len() && 0 <= j < y.len() implies x[i] != y[j] by {
            let jj = choose|jj: int| 0 <= jj < front.len() && front[jj].id@ == x[i].0;
            assert(front[jj] == rooms[jj]);
            assert(y[j].0 == last.id@);
        }
        vstd::seq_lib::lemma_no_dup_in_concat(x, y);
        assert forall|k: int| 0 <= k < (x + y).len() implies exists|j: int| 0 <= j < rooms.len() && rooms[j].id@
            == (#[trigger] (x + y)[k]).0 by {
            if k < x.len() {
                assert((x + y)[k] == x[k]);
                let jj = choose|jj: int| 0 <= jj < front.len() && front[jj].id@ == x[k].0;
                assert(front[jj] == rooms[jj]);
            } else {
                assert((x + y)[k] == y[k - x.len()]);
                assert(rooms[rooms.len() - 1] == last);
            }
        }
    }
}

/// A base whose rooms pass their checks has distinct room labels.
proof fn lemma_rooms_checked_distinct(rooms: Seq<Room>, data: GameData, n: int)
    requires
        0 <= n <= rooms.len(),
        first_room_error(rooms, n, data) is None,
    ensures
        forall|a: int, b: int| 0 <= a < b < n ==> rooms[a].id@ != rooms[b].id@,
    decreases n,
{
    if n > 0 {
        lemma_rooms_checked_distinct(rooms, data, n - 1);
        assert(room_error(rooms, n - 1, data) is None);
    }
}

/// The pool built from candidates lists nobody twice.
proof fn lemma_first_pool_distinct(c: Seq<Seq<char>>, fixed: spec_fn(Seq<char>) -> bool)
    ensures
        first_pool(c, fixed).no_duplicates(),
    decreases c.len(),
{
    if c.len() > 0 {
        lemma_first_pool_distinct(c.drop_last(), fixed);
        let p = first_pool(c.drop_last(), fixed);
        if !(fixed(c.last()) || p.contains(c.last())) {
            lemma_push_fresh(p, c.last());
        }
    }
}

/// Extending a pool keeps it free of repeats.
proof fn lemma_extended_pool_distinct(
    p0: Seq<Seq<char>>,
    occ: Seq<(Seq<char>, u8, Seq<char>)>,
    vars: Seq<(Seq<char>, u8)>,
)
    requires
        p0.no_duplicates(),
    ensures
        extended_pool(p0, occ, vars).no_duplicates(),
    decreases occ.len(),
{
    if occ.len() > 0 {
        lemma_extended_pool_distinct(p0, occ.drop_last(), vars);
        let p = extended_pool(p0, occ.drop_last(), vars);
        let e = occ.last();
        if vars.contains((e.0, e.1)) && !p.contains(e.2) {
            lemma_push_fresh(p, e.2);
        }
    }
}

/// Adding an element a list lacks keeps it free of repeats.
proof fn lemma_push_fresh<T>(p: Seq<T>, x: T)
    requires
        p.no_duplicates(),
        !p.contains(x),
    ensures
        p.push(x).no_duplicates(),
{
    assert forall|i: int, j: int| 0 <= i < p.push(x).len() && 0 <= j < p.push(x).len() && i != j implies p.push(x)[i]
        != p.push(x)[j] by {
        if i < p.len() && j < p.len() {
            assert(p.push(x)[i] == p[i]);
            assert(p.push(x)[j] == p[j]);
        } else if i < p.len() {
            assert(p.push(x)[i] == p[i]);
            assert(p.push(x)[j] == x);
        } else if j < p.len() {
            assert(p.push(x)[j] == p[j]);
            assert(p.push(x)[i] == x);
        }
    }
}

/// One more room, one more step of each per-base count.
proof fn lemma_base_step(rooms: Seq<Room>, data: GameData, locked: Seq<Slot>, q: int)
    requires
        0 <= q < rooms.len(),
    ensures
        base_variables(rooms.take(q + 1), data, locked) == base_variables(rooms.take(q), data, locked)
            + room_variables(rooms[q], room_cap(data, rooms[q]), locked),
        base_fixed(rooms.take(q + 1), data, locked) == base_fixed(rooms.take(q), data, locked) + room_fixed(
            rooms[q],
            room_cap(data, rooms[q]),
            locked,
        ),
        base_slots(rooms.take(q + 1), data) == base_slots(rooms.take(q), data) + room_cap(data, rooms[q]),
{
    assert(rooms.take(q + 1).drop_last() =~= rooms.take(q));
}

/// Whether a list of slots names a slot.
fn slots_contain(list: &[Slot], s: &Slot) -> (r: bool)
    ensures
        r == slot_cells(list@).contains((s.room@, s.index)),
{
    let mut i: usize = 0;
    while i < list.len()
        invariant
            i <= list@.len(),
            forall|j: int| 0 <= j < i ==> slot_cells(list@)[j] != (s.room@, s.index),
        decreases list@.len() - i,
    {
        if list[i].same(s) {
            proof {
                assert(slot_cells(list@)[i as int] == (s.room@, s.index));
            }
            return true;
        }
        i = i + 1;
    }
    false
}

/// Whether a list of operators holds an id.
fn ids_contain(list: &Vec<OperatorId>, id: &str) -> (r: bool)
    ensures
        r == op_ids(list@).contains(id@),
{
    let mut i: usize = 0;
    while i < list.len()
        invariant
            i <= list@.len(),
            forall|j: int| 0 <= j < i ==> op_ids(list@)[j] != id@,
        decreases list@.len() - i,
    {
        if str_eq(list[i].as_str(), id) {
            proof {
                assert(op_ids(list@)[i as int] == id@);
            }
            return true;
        }
        i = i + 1;
    }
    false
}

/// Who sits in slot `i` of a room.
fn occupant_of<'a>(a: &'a Assignment, room: &str, i: usize) -> (r: Option<&'a OperatorId>)
    ensures
        match r {
            Some(o) => occupant(a@, room@, i as int) == Some(o@),
            None => occupant(a@, room@, i as int) is None,
        },
{
    match a.slots(room) {
        None => None,
        Some(cells) => {
            if i < cells.len() {
                proof {
                    assert(crate::assignment::cells_view(cells@)[i as int] == crate::assignment::cell_view(cells@[i as int]));
                }
                match &cells[i] {
                    Some(o) => Some(o),
                    None => None,
                }
            } else {
                None
            }
        },
    }
}

/// Every group lists slot positions of the space.
pub open spec fn groups_in_range(sp: Space) -> bool {
    forall|g: int, k: int|
        0 <= g < sp.groups@.len() && 0 <= k < sp.groups@[g].slots@.len() ==> #[trigger] sp.groups@[g].slots@[k]
            < sp.slots@.len()
}

/// A group lists slot position `i`.
pub open spec fn lists_slot(grp: RoomSlots, i: int) -> bool {
    exists|k: int| 0 <= k < grp.slots@.len() && grp.slots@[k] == i
}

/// The members of a group: positions of slots of that group, increasing.
pub open spec fn members_of(grp: RoomSlots, slot_group: Seq<usize>, g: int) -> bool {
    &&& forall|k: int| 0 <= k < grp.slots@.len() ==> #[trigger] grp.slots@[k] < slot_group.len()
        && slot_group[grp.slots@[k] as int] == g
    &&& forall|k1: int, k2: int| 0 <= k1 < k2 < grp.slots@.len() ==> #[trigger] grp.slots@[k1] < #[trigger] grp.slots@[k2]
}

/// Each group lists, in increasing order, exactly the variable slots that
/// belong to it.
pub open spec fn groups_match(groups: Seq<RoomSlots>, slot_group: Seq<usize>) -> bool {
    &&& forall|g: int| 0 <= g < groups.len() ==> #[trigger] members_of(groups[g], slot_group, g)
    &&& forall|i: int| 0 <= i < slot_group.len() ==> lists_slot(groups[#[trigger] slot_group[i] as int], i)
}

/// The slots of a base split into variable ones, grouped by room, and fixed
/// ones, whose occupants in the starting assignment are collected.
struct Layout {
    slots: Vec<Slot>,
    groups: Vec<RoomSlots>,
    slot_group: Vec<usize>,
    rooms: Vec<(RoomId, bool)>,
    fixed_ops: Vec<OperatorId>,
    locked: usize,
}

/// A room entry of a space names a base room and whether its slot order
/// matters.
pub open spec fn listed_room(e: (RoomId, bool), room: Room) -> bool {
    e.0@ == room.id@ && e.1 == (room.kind == RoomType::Training)
}

/// The first `n` room entries of a space list the first `n` base rooms.
pub open spec fn rooms_listed(list: Seq<(RoomId, bool)>, rooms: Seq<Room>, n: int) -> bool {
    forall|k: int| 0 <= k < n ==> #[trigger] listed_room(list[k], rooms[k])
}

/// Splits a base's slots into variable and fixed ones.
fn layout(base: &BaseConfig, data: &GameData, locked: &[Slot], initial: &Assignment) -> (r: Layout)
    requires
        base_slots(base.rooms@, *data) <= usize::MAX,
    ensures
        slot_cells(r.slots@) == base_variables(base.rooms@, *data, locked@),
        r.locked == base_fixed(base.rooms@, *data, locked@),
        forall|op: Seq<char>| #[trigger] op_ids(r.fixed_ops@).contains(op) <==> held_fixed(base.rooms@, *data, locked@, initial@, op),
        r.rooms@.len() == base.rooms@.len(),
        rooms_listed(r.rooms@, base.rooms@, base.rooms@.len() as int),
        r.groups@.len() == r.rooms@.len(),
        forall|g: int| 0 <= g < r.groups@.len() ==> #[trigger] r.groups@[g].ordered == r.rooms@[g].1,
        r.slot_group@.len() == r.slots@.len(),
        forall|i: int| 0 <= i < r.slot_group@.len() ==> #[trigger] r.slot_group@[i] < r.groups@.len()
            && r.rooms@[r.slot_group@[i] as int].0@ == r.slots@[i].room@,
        groups_match(r.groups@, r.slot_group@),
{
    let ghost rooms = base.rooms@;
    let ghost lk = locked@;
    let mut slots: Vec<Slot> = Vec::new();
    let mut groups: Vec<RoomSlots> = Vec::new();
    let mut slot_group: Vec<usize> = Vec::new();
    let mut room_list: Vec<(RoomId, bool)> = Vec::new();
    let mut fixed_ops: Vec<OperatorId> = Vec::new();
    let mut count: usize = 0;
    let mut q: usize = 0;
    proof {
        assert(rooms.take(0) =~= Seq::<Room>::empty());
        assert(slot_cells(slots@) =~= Seq::empty());
        lemma_base_split(rooms, *data, lk, 0);
    }
    while q < base.rooms.len()
        invariant
            rooms == base.rooms@,
            lk == locked@,
            base_slots(rooms, *data) <= usize::MAX,
            q <= rooms.len(),
            slot_cells(slots@) == base_variables(rooms.take(q as int), *data, lk),
            count == base_fixed(rooms.take(q as int), *data, lk),
            forall|op: Seq<char>| #[trigger] op_ids(fixed_ops@).contains(op) <==> held_fixed(rooms.take(q as int), *data, lk, initial@, op),
            room_list@.len() == q,
            rooms_listed(room_list@, rooms, q as int),
            groups@.len() == q,
            forall|g: int| 0 <= g < groups@.len() ==> #[trigger] groups@[g].ordered == room_list@[g].1,
            slot_group@.len() == slots@.len(),
            forall|i: int| 0 <= i < slot_group@.len() ==> #[trigger] slot_group@[i] < groups@.len()
                && room_list@[slot_group@[i] as int].0@ == slots@[i].room@,
            groups_match(groups@, slot_group@),
        decreases rooms.len() - q,
    {
        let room = &base.rooms[q];
        let ordered = room.kind == RoomType::Training;
        let ghost old_list = room_list@;
        room_list.push((room.id.duplicate(), ordered));
        proof {
            assert(room_list@[q as int].0@ == rooms[q as int].id@);
            assert(room_list@[q as int].1 == (rooms[q as int].kind == RoomType::Training));
            assert forall|k: int| 0 <= k < q + 1 implies #[trigger] listed_room(room_list@[k], rooms[k]) by {
                if k < q {
                    assert(room_list@[k] == old_list[k]);
                    assert(listed_room(old_list[k], rooms[k]));
                }
            }
            assert forall|k: int| 0 <= k < slot_group@.len() implies #[trigger] slot_group@[k] <= groups@.len()
                && room_list@[slot_group@[k] as int].0@ == slots@[k].room@ by {
                assert(room_list@[slot_group@[k] as int] == old_list[slot_group@[k] as int]);
            }
        }
        let mut group = RoomSlots { slots: Vec::new(), ordered };
        let cap = room.capacity(data);
        let ghost start_cells = slot_cells(slots@);
        let ghost start_count = count as int;
        let ghost start_fixed = fixed_ops@;
        proof {
            lemma_base_split(rooms, *data, lk, q as int);
            lemma_base_split(rooms, *data, lk, q + 1);
            lemma_base_step(rooms, *data, lk, q as int);
            lemma_base_split(rooms.take(q as int), *data, lk, q as int);
            assert(slot_cells(slots@) =~= start_cells + room_variables(*room, 0, lk));
        }
        let mut i: u8 = 0;
        while i < cap
            invariant
                rooms == base.rooms@,
                lk == locked@,
                q < rooms.len(),
                *room == rooms[q as int],
                cap as nat == room_cap(*data, *room),
                ordered == (room.kind == RoomType::Training),
                group.ordered == ordered,
                base_slots(rooms, *data) <= usize::MAX,
                base_slots(rooms.take(q + 1), *data) <= base_slots(rooms, *data),
                base_slots(rooms.take(q + 1), *data) == base_slots(rooms.take(q as int), *data) + cap,
                start_cells.len() + start_count == base_slots(rooms.take(q as int), *data),
                i <= cap,
                slot_cells(slots@) == start_cells + room_variables(*room, i as nat, lk),
                count == start_count + room_fixed(*room, i as nat, lk),
                forall|op: Seq<char>| #[trigger] op_ids(fixed_ops@).contains(op) <==> (op_ids(start_fixed).contains(op)
                    || exists|i2: int| 0 <= i2 < i && fixed_slot(*room, i2, lk) && #[trigger] occupant(initial@, room.id@, i2) == Some(op)),
                room_list@.len() == q + 1,
                room_list@[q as int].0@ == room.id@,
                rooms_listed(room_list@, rooms, q + 1),
                groups@.len() == q,
                forall|g: int| 0 <= g < groups@.len() ==> #[trigger] groups@[g].ordered == room_list@[g].1,
                slot_group@.len() == slots@.len(),
                forall|k: int| 0 <= k < slot_group@.len() ==> #[trigger] slot_group@[k] <= groups@.len()
                    && room_list@[slot_group@[k] as int].0@ == slots@[k].room@,
                forall|g: int| 0 <= g < groups@.len() ==> #[trigger] members_of(groups@[g], slot_group@, g),
                members_of(group, slot_group@, q as int),
                forall|k: int| 0 <= k < slot_group@.len() ==> (if #[trigger] slot_group@[k] < q {
                    lists_slot(groups@[slot_group@[k] as int], k)
                } else {
                    lists_slot(group, k)
                }),
            decreases cap - i,
        {
            proof {
                lemma_room_split(*room, i as nat, lk);
                lemma_room_split(*room, (i + 1) as nat, lk);
            }
            let slot = Slot::new(room.id.as_str(), i);
            let fixed = slots_contain(locked, &slot) || (ordered && i == TRAINING_TRAINEE_SLOT);
            proof {
                assert(fixed == fixed_slot(*room, i as int, lk));
            }
            if fixed {
                count = count + 1;
                let ghost before = fixed_ops@;
                match occupant_of(initial, room.id.as_str(), i as usize) {
                    Some(op) => {
                        fixed_ops.push(op.duplicate());
                        proof {
                            assert(op_ids(fixed_ops@) =~= op_ids(before).push(op@));
                        }
                    },
                    None => {},
                }
                proof {
                    let nw = op_ids(fixed_ops@);
                    let od = op_ids(before);
                    assert forall|y: Seq<char>| od.contains(y) implies nw.contains(y) by {
                        let p = choose|p: int| 0 <= p < od.len() && od[p] == y;
                        assert(nw[p] == y);
                    }
                    assert forall|op: Seq<char>| #[trigger] op_ids(fixed_ops@).contains(op) <==> (op_ids(start_fixed).contains(op)
                        || exists|i2: int| 0 <= i2 < i + 1 && fixed_slot(*room, i2, lk) && #[trigger] occupant(initial@, room.id@, i2) == Some(op)) by {
                        if nw.contains(op) {
                            if od.contains(op) {
                                if !op_ids(start_fixed).contains(op) {
                                    let i2 = choose|i2: int| 0 <= i2 < i && fixed_slot(*room, i2, lk) && #[trigger] occupant(initial@, room.id@, i2) == Some(op);
                                    assert(0 <= i2 < i + 1 && fixed_slot(*room, i2, lk) && occupant(initial@, room.id@, i2) == Some(op));
                                }
                            } else {
                                let p = choose|p: int| 0 <= p < nw.len() && nw[p] == op;
                                assert(p == nw.len() - 1);
                                assert(fixed_slot(*room, i as int, lk) && occupant(initial@, room.id@, i as int) == Some(op));
                            }
                        }
                        if exists|i2: int| 0 <= i2 < i + 1 && fixed_slot(*room, i2, lk) && #[trigger] occupant(initial@, room.id@, i2) == Some(op) {
                            let i2 = choose|i2: int| 0 <= i2 < i + 1 && fixed_slot(*room, i2, lk) && #[trigger] occupant(initial@, room.id@, i2) == Some(op);
                            if i2 < i {
                                assert(od.contains(op));
                            } else {
                                assert(nw[nw.len() - 1] == op);
                            }
                        }
                        if op_ids(start_fixed).contains(op) {
                            assert(od.contains(op));
                        }
                    }
                }
            } else {
                let ghost before = slots@;
                let ghost sg0 = slot_group@;
                let ghost gr0 = group;
                slot_group.push(groups.len());
                group.slots.push(slots.len());
                slots.push(slot);
                proof {
                    let n0 = sg0.len() as int;
                    assert forall|g: int| 0 <= g < groups@.len() implies #[trigger] members_of(groups@[g], slot_group@, g) by {
                        assert(members_of(groups@[g], sg0, g));
                        assert forall|k: int| 0 <= k < groups@[g].slots@.len() implies #[trigger] groups@[g].slots@[k]
                            < slot_group@.len() && slot_group@[groups@[g].slots@[k] as int] == g by {
                            assert(groups@[g].slots@[k] < sg0.len());
                        }
                    }
                    assert forall|k: int| 0 <= k < group.slots@.len() implies #[trigger] group.slots@[k] < slot_group@.len()
                        && slot_group@[group.slots@[k] as int] == q by {
                        if k < gr0.slots@.len() {
                            assert(group.slots@[k] == gr0.slots@[k]);
                        }
                    }
                    assert forall|k1: int, k2: int| 0 <= k1 < k2 < group.slots@.len() implies #[trigger] group.slots@[k1]
                        < #[trigger] group.slots@[k2] by {
                        assert(group.slots@[k1] == gr0.slots@[k1]);
                        assert(gr0.slots@[k1] < sg0.len());
                        if k2 < gr0.slots@.len() {
                            assert(group.slots@[k2] == gr0.slots@[k2]);
                        }
                    }
                    assert forall|k: int| 0 <= k < slot_group@.len() implies (if #[trigger] slot_group@[k] < q {
                        lists_slot(groups@[slot_group@[k] as int], k)
                    } else {
                        lists_slot(group, k)
                    }) by {
                        if k < n0 {
                            assert(slot_group@[k] == sg0[k]);
                            if sg0[k] >= q {
                                let w = choose|w: int| 0 <= w < gr0.slots@.len() && gr0.slots@[w] == k;
                                assert(group.slots@[w] == k);
                            }
                        } else {
                            assert(group.slots@[gr0.slots@.len() as int] == k);
                        }
                    }
                    assert(slot_cells(slots@) =~= slot_cells(before).push((room.id@, i)));
                    assert forall|op: Seq<char>| #[trigger] op_ids(fixed_ops@).contains(op) <==> (op_ids(start_fixed).contains(op)
                        || exists|i2: int| 0 <= i2 < i + 1 && fixed_slot(*room, i2, lk) && #[trigger] occupant(initial@, room.id@, i2) == Some(op)) by {
                        if exists|i2: int| 0 <= i2 < i + 1 && fixed_slot(*room, i2, lk) && #[trigger] occupant(initial@, room.id@, i2) == Some(op) {
                            let i2 = choose|i2: int| 0 <= i2 < i + 1 && fixed_slot(*room, i2, lk) && #[trigger] occupant(initial@, room.id@, i2) == Some(op);
                            assert(i2 < i);
                        }
                    }
                }
            }
            i = i + 1;
        }
        let ghost gs0 = groups@;
        let ghost last = group;
        groups.push(group);
        proof {
            assert forall|g: int| 0 <= g < groups@.len() implies #[trigger] members_of(groups@[g], slot_group@, g) by {
                if g < q {
                    assert(groups@[g] == gs0[g]);
                } else {
                    assert(groups@[g] == last);
                }
            }
            assert forall|k: int| 0 <= k < slot_group@.len() implies lists_slot(groups@[#[trigger] slot_group@[k] as int], k) by {
                if slot_group@[k] < q {
                    assert(groups@[slot_group@[k] as int] == gs0[slot_group@[k] as int]);
                } else {
                    assert(groups@[slot_group@[k] as int] == last);
                }
            }
            assert forall|op: Seq<char>| #[trigger] op_ids(fixed_ops@).contains(op) <==> held_fixed(rooms.take(q + 1), *data, lk, initial@, op) by {
                let t = rooms.take(q + 1);
                if held_fixed(t, *data, lk, initial@, op) {
                    let (j, i2) = choose|j: int, i2: int|
                        0 <= j < t.len() && 0 <= i2 < room_cap(*data, t[j]) && fixed_slot(t[j], i2, lk)
                            && #[trigger] occupant(initial@, t[j].id@, i2) == Some(op);
                    if j < q {
                        assert(rooms.take(q as int)[j] == t[j]);
                        assert(held_fixed(rooms.take(q as int), *data, lk, initial@, op));
                    }
                }
                if op_ids(start_fixed).contains(op) {
                    let s0 = rooms.take(q as int);
                    let (j, i2) = choose|j: int, i2: int|
                        0 <= j < s0.len() && 0 <= i2 < room_cap(*data, s0[j]) && fixed_slot(s0[j], i2, lk)
                            && #[trigger] occupant(initial@, s0[j].id@, i2) == Some(op);
                    assert(t[j] == s0[j]);
                }
                if exists|i2: int| 0 <= i2 < cap && fixed_slot(*room, i2, lk) && #[trigger] occupant(initial@, room.id@, i2) == Some(op) {
                    let i2 = choose|i2: int| 0 <= i2 < cap && fixed_slot(*room, i2, lk) && #[trigger] occupant(initial@, room.id@, i2) == Some(op);
                    assert(t[q as int] == *room);
                }
            }
        }
        q = q + 1;
    }
    proof {
        assert(rooms.take(rooms.len() as int) =~= rooms);
    }
    Layout { slots, groups, slot_group, rooms: room_list, fixed_ops, locked: count }
}


/// Operators the game data knows.
pub open spec fn unknown_in(data: GameData) -> spec_fn(Seq<char>) -> bool {
    |op: Seq<char>| data.spec_operator(op) is None
}

/// The candidates, first occurrences only, without those `fixed` holds.
pub open spec fn first_pool(c: Seq<Seq<char>>, fixed: spec_fn(Seq<char>) -> bool) -> Seq<Seq<char>>
    decreases c.len(),
{
    if c.len() == 0 {
        Seq::empty()
    } else {
        let p = first_pool(c.drop_last(), fixed);
        if fixed(c.last()) || p.contains(c.last()) {
            p
        } else {
            p.push(c.last())
        }
    }
}

/// A pool extended, in listing order, by the operators the starting
/// assignment puts in variable slots.
pub open spec fn extended_pool(
    p0: Seq<Seq<char>>,
    occ: Seq<(Seq<char>, u8, Seq<char>)>,
    vars: Seq<(Seq<char>, u8)>,
) -> Seq<Seq<char>>
    decreases occ.len(),
{
    if occ.len() == 0 {
        p0
    } else {
        let p = extended_pool(p0, occ.drop_last(), vars);
        let e = occ.last();
        if vars.contains((e.0, e.1)) && !p.contains(e.2) {
            p.push(e.2)
        } else {
            p
        }
    }
}

/// The first listed occupant of a variable slot that would join the pool
/// and that the game data does not know, or -1.
pub open spec fn first_added_unknown(
    p0: Seq<Seq<char>>,
    occ: Seq<(Seq<char>, u8, Seq<char>)>,
    vars: Seq<(Seq<char>, u8)>,
    data: GameData,
) -> int
    decreases occ.len(),
{
    if occ.len() == 0 {
        -1
    } else {
        let k = first_added_unknown(p0, occ.drop_last(), vars, data);
        let e = occ.last();
        if k >= 0 {
            k
        } else if vars.contains((e.0, e.1)) && !extended_pool(p0, occ.drop_last(), vars).contains(e.2)
            && data.spec_operator(e.2) is None {
            occ.len() - 1
        } else {
            -1
        }
    }
}

/// The pool a space builds: the candidates the data knows, first
/// occurrences only, without operators held in fixed slots, then the
/// starting assignment's operators in variable slots; or the first operator
/// the data does not know.
#[verifier::rlimit(40)]
fn build_pool(
    cands: &[OperatorId],
    fixed_ops: &Vec<OperatorId>,
    initial: &Assignment,
    slots: &Vec<Slot>,
    data: &GameData,
    Ghost(fixed): Ghost<spec_fn(Seq<char>) -> bool>,
) -> (r: Result<Vec<OperatorId>, OperatorId>)
    requires
        forall|x: Seq<char>| #[trigger] fixed(x) == op_ids(fixed_ops@).contains(x),
    ensures
        ({
            let c = op_ids(cands@);
            let p0 = first_pool(c, fixed);
            let occ = all_occupied(initial@);
            let vars = slot_cells(slots@);
            match r {
                Ok(pool) => first_index(c, unknown_in(*data)) == -1 && first_added_unknown(p0, occ, vars, *data)
                    == -1 && op_ids(pool@) == extended_pool(p0, occ, vars),
                Err(op) => if first_index(c, unknown_in(*data)) >= 0 {
                    op@ == c[first_index(c, unknown_in(*data))]
                } else {
                    first_added_unknown(p0, occ, vars, *data) >= 0 && op@ == occ[first_added_unknown(
                        p0,
                        occ,
                        vars,
                        *data,
                    )].2
                },
            }
        }),
{
    let ghost c = op_ids(cands@);
    let ghost u = unknown_in(*data);
    let mut pool: Vec<OperatorId> = Vec::new();
    let mut j: usize = 0;
    proof {
        assert(c.take(0) =~= Seq::<Seq<char>>::empty());
        assert(op_ids(pool@) =~= Seq::<Seq<char>>::empty());
    }
    while j < cands.len()
        invariant
            c == op_ids(cands@),
            u == unknown_in(*data),
            forall|x: Seq<char>| #[trigger] fixed(x) == op_ids(fixed_ops@).contains(x),
            j <= cands@.len(),
            forall|k: int| 0 <= k < j ==> !u(#[trigger] c[k]),
            op_ids(pool@) == first_pool(c.take(j as int), fixed),
        decreases cands@.len() - j,
    {
        let op = &cands[j];
        proof {
            assert(c.take(j + 1).drop_last() =~= c.take(j as int));
            assert(c[j as int] == op@);
        }
        if data.operator(op.as_str()).is_none() {
            proof {
                lemma_first_index_is(c, u, j as int);
            }
            return Err(op.duplicate());
        }
        if ids_contain(fixed_ops, op.as_str()) || ids_contain(&pool, op.as_str()) {
        } else {
            let ghost before = pool@;
            pool.push(op.duplicate());
            proof {
                assert(op_ids(pool@) =~= op_ids(before).push(op@));
            }
        }
        j = j + 1;
    }
    proof {
        assert(c.take(c.len() as int) =~= c);
        lemma_first_index_none(c, u);
    }
    let ghost p0 = op_ids(pool@);
    let ghost vars = slot_cells(slots@);
    let occ = initial.iter();
    let ghost ov = all_occupied(initial@);
    let mut m: usize = 0;
    proof {
        assert(ov.take(0) =~= Seq::<(Seq<char>, u8, Seq<char>)>::empty());
    }
    while m < occ.len()
        invariant
            c == op_ids(cands@),
            first_index(c, unknown_in(*data)) == -1,
            p0 == first_pool(c, fixed),
            vars == slot_cells(slots@),
            ov == all_occupied(initial@),
            occ@.map_values(|t: (Slot, &OperatorId)| occupied_view(t)) == ov,
            m <= occ@.len(),
            op_ids(pool@) == extended_pool(p0, ov.take(m as int), vars),
            first_added_unknown(p0, ov.take(m as int), vars, *data) == -1,
        decreases occ@.len() - m,
    {
        let slot = &occ[m].0;
        let op = occ[m].1;
        proof {
            assert(ov.take(m + 1).drop_last() =~= ov.take(m as int));
            assert(ov[m as int] == occupied_view(occ@[m as int]));
        }
        if slots_contain(slots.as_slice(), slot) && !ids_contain(&pool, op.as_str()) {
            if data.operator(op.as_str()).is_none() {
                proof {
                    assert(first_added_unknown(p0, ov.take(m + 1), vars, *data) == m);
                    lemma_first_added_prefix(p0, ov, vars, *data, m + 1);
                }
                return Err(op.duplicate());
            }
            let ghost before = pool@;
            pool.push(op.duplicate());
            proof {
                assert(op_ids(pool@) =~= op_ids(before).push(op@));
            }
        }
        m = m + 1;
    }
    proof {
        assert(ov.take(ov.len() as int) =~= ov);
    }
    Ok(pool)
}

/// Once a prefix names an unknown operator, the whole listing names the
/// same one.
proof fn lemma_first_added_prefix(
    p0: Seq<Seq<char>>,
    occ: Seq<(Seq<char>, u8, Seq<char>)>,
    vars: Seq<(Seq<char>, u8)>,
    data: GameData,
    n: int,
)
    requires
        0 <= n <= occ.len(),
        first_added_unknown(p0, occ.take(n), vars, data) >= 0,
    ensures
        first_added_unknown(p0, occ, vars, data) == first_added_unknown(p0, occ.take(n), vars, data),
    decreases occ.len() - n,
{
    if n == occ.len() {
        assert(occ.take(n) =~= occ);
    } else {
        assert(occ.take(n + 1).drop_last() =~= occ.take(n));
        lemma_first_added_prefix(p0, occ, vars, data, n + 1);
    }
}


/// A locked slot that names no room of the base, or an index beyond the
/// room's capacity.
pub open spec fn locked_bad(rooms: Seq<Room>, data: GameData) -> spec_fn(Slot) -> bool {
    |l: Slot|
        {
            let k = first_index(rooms, labelled(l.room@));
            !(k >= 0 && (l.index as int) < capacity_of(data, rooms[k].kind, rooms[k].level) as int)
        }
}

/// Operators the starting assignment holds in fixed slots.
pub open spec fn fixed_in(rooms: Seq<Room>, data: GameData, locked: Seq<Slot>, v: AssignmentView) -> spec_fn(Seq<char>) -> bool {
    |op: Seq<char>| held_fixed(rooms, data, locked, v, op)
}

/// The candidates: the requested pool, or else the roster.
pub open spec fn candidates(roster: Seq<OperatorId>, pool: Option<&[OperatorId]>) -> Seq<Seq<char>> {
    match pool {
        Some(list) => op_ids(list@),
        None => op_ids(roster),
    }
}

/// What `Space::new` builds from its inputs, or why it refuses.
pub open spec fn space_outcome(
    data: GameData,
    rooms: Seq<Room>,
    roster: Seq<OperatorId>,
    pool: Option<&[OperatorId]>,
    v: AssignmentView,
    locked: Seq<Slot>,
    r: Result<Space, SolveError>,
) -> bool {
    let c = candidates(roster, pool);
    let vars = base_variables(rooms, data, locked);
    let p0 = first_pool(c, fixed_in(rooms, data, locked, v));
    let occ = all_occupied(v);
    if base_error(rooms, data) is Some {
        r == Err::<Space, SolveError>(SolveError::Sim(SimError::Base(base_error(rooms, data)->0)))
    } else if !check_outcome(v, rooms, data, Ok(())) {
        r matches Err(SolveError::Sim(SimError::Assignment(e))) && check_outcome(v, rooms, data, Err(e))
    } else if first_index(locked, locked_bad(rooms, data)) >= 0 {
        let l = locked[first_index(locked, locked_bad(rooms, data))];
        r matches Err(SolveError::BadLockedSlot(s)) && s.room@ == l.room@ && s.index == l.index
    } else if vars.len() == 0 {
        r matches Err(SolveError::EmptySpace)
    } else if first_index(c, unknown_in(data)) >= 0 {
        r matches Err(SolveError::UnknownOperator(op)) && op@ == c[first_index(c, unknown_in(data))]
    } else if first_added_unknown(p0, occ, vars, data) >= 0 {
        r matches Err(SolveError::UnknownOperator(op)) && op@ == occ[first_added_unknown(p0, occ, vars, data)].2
    } else {
        r matches Ok(sp) && {
            &&& sp.wf()
            &&& slot_cells(sp.slots@) == vars
            &&& sp.locked == base_fixed(rooms, data, locked)
            &&& op_ids(sp.pool@) == extended_pool(p0, occ, vars)
            &&& sp.rooms@.len() == rooms.len()
            &&& rooms_listed(sp.rooms@, rooms, rooms.len() as int)
            &&& sp.groups@.len() == rooms.len()
            &&& forall|g: int| 0 <= g < sp.groups@.len() ==> #[trigger] sp.groups@[g].ordered == sp.rooms@[g].1
            &&& groups_match(sp.groups@, sp.slot_group@)
            &&& groups_in_range(sp)
            &&& sp.slot_group@.len() == sp.slots@.len()
            &&& slot_cells(sp.slots@).no_duplicates()
            &&& op_ids(sp.pool@).no_duplicates()
            &&& forall|i: int| 0 <= i < sp.slot_group@.len() ==> #[trigger] sp.rooms@[sp.slot_group@[i] as int].0@
                == sp.slots@[i].room@
        }
    }
}

/// A listed group: its slot indexes and whether their order matters.
pub open spec fn group_listed(e: (&[usize], bool), grp: RoomSlots) -> bool {
    e.0@ == grp.slots@ && e.1 == grp.ordered
}

impl Space {
    /// Builds the space. `initial` must fit the base; its operators in
    /// variable slots join the pool, and its operators in fixed slots leave
    /// it. The candidates are `pool` when given, else the roster's operators.
    pub fn new(
        data: &GameData,
        base: &BaseConfig,
        roster: &[OperatorId],
        pool: Option<&[OperatorId]>,
        initial: &Assignment,
        locked: &[Slot],
    ) -> (r: Result<Self, SolveError>)
        requires
            power_fits(base.rooms@, *data),
            base_slots(base.rooms@, *data) <= usize::MAX,
        ensures
            space_outcome(*data, base.rooms@, roster@, pool, initial@, locked@, r),
    {
        match base.validate(data) {
            Err(e) => {
                return Err(SolveError::Sim(SimError::Base(e)));
            },
            Ok(_) => {},
        }
        match initial.check(base, data) {
            Err(e) => {
                return Err(SolveError::Sim(SimError::Assignment(e)));
            },
            Ok(_) => {},
        }
        let ghost lb = locked_bad(base.rooms@, *data);
        let mut li: usize = 0;
        while li < locked.len()
            invariant
                lb == locked_bad(base.rooms@, *data),
                base_error(base.rooms@, *data) is None,
                check_outcome(initial@, base.rooms@, *data, Ok(())),
                li <= locked@.len(),
                forall|k: int| 0 <= k < li ==> !lb(#[trigger] locked@[k]),
            decreases locked@.len() - li,
        {
            let l = &locked[li];
            let ok = match base.room(l.room.as_str()) {
                Some(room) => l.index < room.capacity(data),
                None => false,
            };
            if !ok {
                proof {
                    lemma_first_index_is(locked@, lb, li as int);
                }
                return Err(SolveError::BadLockedSlot(l.duplicate()));
            }
            li = li + 1;
        }
        proof {
            lemma_first_index_none(locked@, lb);
        }
        let lay = layout(base, data, locked, initial);
        if lay.slots.len() == 0 {
            return Err(SolveError::EmptySpace);
        }
        let cands: &[OperatorId] = match pool {
            Some(list) => list,
            None => roster,
        };
        let ghost fixed = fixed_in(base.rooms@, *data, locked@, initial@);
        let pool_ops = match build_pool(cands, &lay.fixed_ops, initial, &lay.slots, data, Ghost(fixed)) {
            Err(op) => {
                return Err(SolveError::UnknownOperator(op));
            },
            Ok(p) => p,
        };
        proof {
            assert forall|g: int, k: int|
                0 <= g < lay.groups@.len() && 0 <= k < lay.groups@[g].slots@.len() implies #[trigger] lay.groups@[g].slots@[k]
                < lay.slots@.len() by {
                assert(members_of(lay.groups@[g], lay.slot_group@, g));
            }
            let rooms = base.rooms@;
            lemma_rooms_checked_distinct(rooms, *data, rooms.len() as int);
            lemma_base_variables_distinct(rooms, *data, locked@);
            lemma_first_pool_distinct(candidates(roster@, pool), fixed);
            lemma_extended_pool_distinct(
                first_pool(candidates(roster@, pool), fixed),
                all_occupied(initial@),
                base_variables(rooms, *data, locked@),
            );
        }
        Ok(
            Space {
                slots: lay.slots,
                pool: pool_ops,
                locked: lay.locked,
                groups: lay.groups,
                slot_group: lay.slot_group,
                rooms: lay.rooms,
            },
        )
    }

    /// Variable slots grouped by room, as (slot indexes, ordered).
    pub fn groups(&self) -> (r: Vec<(&[usize], bool)>)
        ensures
            r@.len() == self.groups@.len(),
            forall|g: int| 0 <= g < r@.len() ==> #[trigger] group_listed(r@[g], self.groups@[g]),
    {
        let mut out: Vec<(&[usize], bool)> = Vec::new();
        let mut g: usize = 0;
        while g < self.groups.len()
            invariant
                g <= self.groups@.len(),
                out@.len() == g,
                forall|k: int| 0 <= k < g ==> #[trigger] group_listed(out@[k], self.groups@[k]),
            decreases self.groups@.len() - g,
        {
            let ghost before = out@;
            out.push((self.groups[g].slots.as_slice(), self.groups[g].ordered));
            proof {
                assert forall|k: int| 0 <= k < g + 1 implies #[trigger] group_listed(out@[k], self.groups@[k]) by {
                    if k < g {
                        assert(out@[k] == before[k]);
                        assert(group_listed(before[k], self.groups@[k]));
                    }
                }
            }
            g = g + 1;
        }
        out
    }
}


/// A locked slot is never among a room's variable slots.
proof fn lemma_locked_not_variable_room(room: Room, n: nat, locked: Seq<Slot>, l: Slot)
    requires
        slot_cells(locked).contains((l.room@, l.index)),
    ensures
        !room_variables(room, n, locked).contains((l.room@, l.index)),
    decreases n,
{
    if n > 0 {
        lemma_locked_not_variable_room(room, (n - 1) as nat, locked, l);
        let prev = room_variables(room, (n - 1) as nat, locked);
        if !fixed_slot(room, n - 1, locked) {
            assert(room_variables(room, n, locked) == prev.push((room.id@, (n - 1) as u8)));
            if room_variables(room, n, locked).contains((l.room@, l.index)) {
                let p = choose|p: int| 0 <= p < prev.len() + 1 && room_variables(room, n, locked)[p] == (l.room@, l.index);
                if p < prev.len() {
                    assert(prev[p] == (l.room@, l.index));
                } else {
                    assert((room.id@, (n - 1) as u8) == (l.room@, l.index));
                }
            }
        }
    }
}

/// A locked slot is never among a base's variable slots.
proof fn lemma_locked_not_variable(rooms: Seq<Room>, data: GameData, locked: Seq<Slot>, l: Slot)
    requires
        slot_cells(locked).contains((l.room@, l.index)),
    ensures
        !base_variables(rooms, data, locked).contains((l.room@, l.index)),
    decreases rooms.len(),
{
    if rooms.len() > 0 {
        let a = base_variables(rooms.drop_last(), data, locked);
        let b = room_variables(rooms.last(), room_cap(data, rooms.last()), locked);
        lemma_locked_not_variable(rooms.drop_last(), data, locked, l);
        lemma_locked_not_variable_room(rooms.last(), room_cap(data, rooms.last()), locked, l);
        if (a + b).contains((l.room@, l.index)) {
            let p = choose|p: int| 0 <= p < (a + b).len() && (a + b)[p] == (l.room@, l.index);
            if p < a.len() {
                assert(a[p] == (l.room@, l.index));
            } else {
                assert(b[p - a.len()] == (l.room@, l.index));
            }
        }
    }
}

/// Moves of a space never change a locked slot: whatever a neighbour or a
/// proposal changes is a variable slot, and locked slots are not variable.
pub proof fn law_moves_keep_locked(
    rooms: Seq<Room>,
    data: GameData,
    locked: Seq<Slot>,
    v: AssignmentView,
    w: AssignmentView,
    l: Slot,
)
    requires
        touches_only(v, w, base_variables(rooms, data, locked)),
        locked.contains(l),
    ensures
        occupant(w, l.room@, l.index as int) == occupant(v, l.room@, l.index as int),
{
    let vars = base_variables(rooms, data, locked);
    let t = choose|t: int| 0 <= t < locked.len() && locked[t] == l;
    assert(slot_cells(locked)[t] == (l.room@, l.index));
    lemma_locked_not_variable(rooms, data, locked, l);
    assert forall|q: int| 0 <= q < v.len() implies v[q].0 == w[q].0 by {
        assert(w[q].0 == v[q].0);
    }
    lemma_same_labels(v, w, l.room@);
    lemma_key_index(v, l.room@);
    let k = key_index(v, l.room@);
    if k >= 0 && 0 <= l.index < v[k].1.len() {
        assert(w[k].1.len() == v[k].1.len());
        if w[k].1[l.index as int] != v[k].1[l.index as int] {
            let u = choose|u: int| 0 <= u < vars.len() && #[trigger] vars[u] == (v[k].0, (l.index as int) as u8) && l.index < 256;
            assert(vars[u] == (l.room@, l.index));
        }
    } else if k >= 0 {
        assert(w[k].1.len() == v[k].1.len());
    }
}


/// `names` sorted as `str` sorts.
fn sort_texts<'a>(names: Vec<&'a str>) -> (r: Vec<&'a str>)
    ensures
        texts(r@) == texts(names@).sort_by(chars_le()),
{
    broadcast use vstd::seq_lib::group_to_multiset_ensures;
    let ghost le = chars_le();
    proof {
        lemma_chars_le_total_ordering();
    }
    let ghost all = texts(names@);
    let mut out: Vec<&'a str> = Vec::new();
    let mut i: usize = 0;
    proof {
        assert(texts(out@) =~= all.take(0));
    }
    while i < names.len()
        invariant
            le == chars_le(),
            vstd::relations::total_ordering(le),
            all == texts(names@),
            i <= names@.len(),
            sorted_by(texts(out@), le),
            texts(out@).to_multiset() == all.take(i as int).to_multiset(),
        decreases names@.len() - i,
    {
        let x = names[i];
        let mut p: usize = 0;
        let mut done = false;
        while !done && p < out.len()
            invariant
                le == chars_le(),
                vstd::relations::total_ordering(le),
                sorted_by(texts(out@), le),
                p <= out@.len(),
                forall|j: int| 0 <= j < p ==> le(#[trigger] texts(out@)[j], x@),
                done ==> p < out@.len() && chars_lt(x@, texts(out@)[p as int]),
            decreases out@.len() - p + (if done { 0int } else { 1int }),
        {
            if str_lt(x, out[p as usize]) {
                done = true;
            } else {
                proof {
                    if x@ != out@[p as int]@ {
                        lemma_chars_lt_total(x@, out@[p as int]@);
                    }
                    assert(texts(out@)[p as int] == out@[p as int]@);
                }
                p = p + 1;
            }
        }
        let ghost before = out@;
        out.insert(p, x);
        proof {
            let t = texts(out@);
            let tb = texts(before);
            assert(t =~= tb.insert(p as int, x@));
            assert forall|a: int, b: int| 0 <= a < b < t.len() implies #[trigger] le(t[a], t[b]) by {
                if b < p {
                    assert(le(tb[a], tb[b]));
                } else if b == p {
                    assert(le(tb[a], x@));
                } else if a == p {
                    assert(le(x@, tb[p as int]));
                    if b - 1 > p {
                        assert(le(tb[p as int], tb[b - 1]));
                    }
                } else if a < p {
                    assert(le(tb[a], tb[b - 1]));
                } else {
                    assert(le(tb[a - 1], tb[b - 1]));
                }
            }
            assert(all.take(i + 1) =~= all.take(i as int).push(x@));
            vstd::seq_lib::to_multiset_insert(tb, p as int, x@);
            vstd::seq_lib::to_multiset_build(all.take(i as int), x@);
        }
        i = i + 1;
    }
    proof {
        assert(all.take(all.len() as int) =~= all);
        all.lemma_sort_by_ensures(le);
        vstd::seq_lib::lemma_sorted_unique(texts(out@), all.sort_by(le), le);
    }
    out
}


/// The name a cell contributes to a key: its operator, or nothing.
pub open spec fn name_of(c: Option<Seq<char>>) -> Seq<char> {
    match c {
        Some(o) => o,
        None => Seq::empty(),
    }
}

/// The names of a room's cells in slot order; none for an unknown room.
pub open spec fn room_names(v: AssignmentView, room: Seq<char>) -> Seq<Seq<char>> {
    if key_index(v, room) >= 0 {
        v[key_index(v, room)].1.map_values(|c: Option<Seq<char>>| name_of(c))
    } else {
        Seq::empty()
    }
}

/// Names joined with commas.
pub open spec fn comma_joined(s: Seq<Seq<char>>) -> Seq<char>
    decreases s.len(),
{
    if s.len() == 0 {
        Seq::empty()
    } else if s.len() == 1 {
        s[0]
    } else {
        comma_joined(s.drop_last()) + seq![','] + s.last()
    }
}

/// A room's names as the key lists them: in slot order where order
/// matters, else sorted.
pub open spec fn arranged(names: Seq<Seq<char>>, ordered: bool) -> Seq<Seq<char>> {
    if ordered {
        names
    } else {
        names.sort_by(chars_le())
    }
}

/// The key of a view over a space's rooms: `room:name,name,...|` for each
/// room in turn.
pub open spec fn canonical_key(rooms: Seq<(RoomId, bool)>, v: AssignmentView) -> Seq<char>
    decreases rooms.len(),
{
    if rooms.len() == 0 {
        Seq::empty()
    } else {
        canonical_key(rooms.drop_last(), v) + rooms.last().0@ + seq![':'] + comma_joined(
            arranged(room_names(v, rooms.last().0@), rooms.last().1),
        ) + seq!['|']
    }
}

impl Space {
    /// A key that is equal for assignments that differ only by the order
    /// of operators within a room (other than the Training Room).
    pub fn canonical(&self, a: &Assignment) -> (r: String)
        ensures
            r@ == canonical_key(self.rooms@, a@),
    {
        let ghost v = a@;
        let mut key = String::new();
        let mut q: usize = 0;
        proof {
            reveal_strlit(":");
            reveal_strlit("|");
            reveal_strlit(",");
            reveal_strlit("");
            assert(key@ =~= canonical_key(self.rooms@.take(0), v));
        }
        while q < self.rooms.len()
            invariant
                v == a@,
                q <= self.rooms@.len(),
                key@ == canonical_key(self.rooms@.take(q as int), v),
                ":"@ == seq![':'],
                "|"@ == seq!['|'],
                ","@ == seq![','],
                ""@ == Seq::<char>::empty(),
            decreases self.rooms@.len() - q,
        {
            let room = &self.rooms[q].0;
            let ordered = self.rooms[q].1;
            let mut names: Vec<&str> = Vec::new();
            let ghost all = room_names(v, room@);
            match a.slots(room.as_str()) {
                Some(cells) => {
                    let mut i: usize = 0;
                    while i < cells.len()
                        invariant
                            key_index(v, room@) >= 0,
                            crate::assignment::cells_view(cells@) == v[key_index(v, room@)].1,
                            all == room_names(v, room@),
                            ""@ == Seq::<char>::empty(),
                            i <= cells@.len(),
                            names@.len() == i,
                            texts(names@) == all.take(i as int),
                        decreases cells@.len() - i,
                    {
                        let ghost before = names@;
                        let name: &str = match &cells[i] {
                            Some(op) => op.as_str(),
                            None => "",
                        };
                        names.push(name);
                        proof {
                            assert(crate::assignment::cells_view(cells@)[i as int] == crate::assignment::cell_view(cells@[i as int]));
                            assert(all[i as int] == name_of(v[key_index(v, room@)].1[i as int]));
                            assert forall|j: int| 0 <= j < i + 1 implies texts(names@)[j] == all[j] by {
                                if j < i {
                                    assert(names@[j] == before[j]);
                                    assert(texts(before)[j] == all.take(i as int)[j]);
                                }
                            }
                            assert(texts(names@) =~= all.take(i + 1));
                        }
                        i = i + 1;
                    }
                    proof {
                        assert(all.take(i as int) =~= all);
                    }
                },
                None => {
                    proof {
                        assert(texts(names@) =~= all);
                    }
                },
            }
            let list = if ordered {
                names
            } else {
                sort_texts(names)
            };
            let ghost joined = arranged(all, ordered);
            let ghost start = key@;
            key.append(room.as_str());
            key.append(":");
            let mut k: usize = 0;
            proof {
                assert(joined.take(0) =~= Seq::<Seq<char>>::empty());
            }
            while k < list.len()
                invariant
                    texts(list@) == joined,
                    k <= list@.len(),
                    key@ == start + room@ + seq![':'] + comma_joined(joined.take(k as int)),
                    ","@ == seq![','],
                decreases list@.len() - k,
            {
                if k > 0 {
                    key.append(",");
                }
                key.append(list[k]);
                proof {
                    let t = joined.take(k + 1);
                    assert(t.drop_last() =~= joined.take(k as int));
                    assert(t.last() == list@[k as int]@);
                    if k == 0 {
                        assert(comma_joined(joined.take(0)) =~= Seq::<char>::empty());
                    }
                    assert(key@ =~= start + room@ + seq![':'] + comma_joined(t));
                }
                k = k + 1;
            }
            key.append("|");
            proof {
                assert(joined.take(k as int) =~= joined);
                assert(self.rooms@.take(q + 1).drop_last() =~= self.rooms@.take(q as int));
                assert(key@ =~= canonical_key(self.rooms@.take(q + 1), v));
            }
            q = q + 1;
        }
        proof {
            assert(self.rooms@.take(self.rooms@.len() as int) =~= self.rooms@);
        }
        key
    }
}

/// Sorting depends only on what is sorted: lists with the same names, in
/// any order, sort alike.
proof fn lemma_sort_permutation(a: Seq<Seq<char>>, b: Seq<Seq<char>>)
    requires
        a.to_multiset() == b.to_multiset(),
    ensures
        a.sort_by(chars_le()) == b.sort_by(chars_le()),
{
    lemma_chars_le_total_ordering();
    a.lemma_sort_by_ensures(chars_le());
    b.lemma_sort_by_ensures(chars_le());
    vstd::seq_lib::lemma_sorted_unique(a.sort_by(chars_le()), b.sort_by(chars_le()), chars_le());
}

/// Assignments that differ only by the order of operators within rooms
/// whose slot order does not matter have the same key.
pub proof fn law_canonical_ignores_order(rooms: Seq<(RoomId, bool)>, v: AssignmentView, w: AssignmentView)
    requires
        forall|q: int| 0 <= q < rooms.len() ==> if rooms[q].1 {
            room_names(v, rooms[q].0@) == room_names(w, rooms[q].0@)
        } else {
            room_names(v, rooms[q].0@).to_multiset() == room_names(w, rooms[q].0@).to_multiset()
        },
    ensures
        canonical_key(rooms, v) == canonical_key(rooms, w),
    decreases rooms.len(),
{
    if rooms.len() > 0 {
        let t = rooms.drop_last();
        assert forall|q: int| 0 <= q < t.len() implies if t[q].1 {
            room_names(v, t[q].0@) == room_names(w, t[q].0@)
        } else {
            room_names(v, t[q].0@).to_multiset() == room_names(w, t[q].0@).to_multiset()
        } by {
            assert(t[q] == rooms[q]);
        }
        law_canonical_ignores_order(t, v, w);
        let last = rooms.last();
        if !last.1 {
            lemma_sort_permutation(room_names(v, last.0@), room_names(w, last.0@));
        }
    }
}

/// Whether `c` does not occur in `s`.
pub open spec fn free_of(s: Seq<char>, c: char) -> bool {
    forall|i: int| 0 <= i < s.len() ==> s[i] != c
}

/// Whether a name can stand in a key unambiguously: no `,` and no `|`.
pub open spec fn clean_name(s: Seq<char>) -> bool {
    free_of(s, ',') && free_of(s, '|')
}

/// Whether every name of every listed room of `v` is clean.
pub open spec fn clean_rooms(rooms: Seq<(RoomId, bool)>, v: AssignmentView) -> bool {
    forall|q: int, k: int|
        0 <= q < rooms.len() && 0 <= k < room_names(v, rooms[q].0@).len() ==> clean_name(
            #[trigger] room_names(v, rooms[q].0@)[k],
        )
}

/// `a + [c] + b` with `b` free of `c` splits only one way.
proof fn lemma_split_last(a1: Seq<char>, b1: Seq<char>, a2: Seq<char>, b2: Seq<char>, c: char)
    requires
        a1 + seq![c] + b1 == a2 + seq![c] + b2,
        free_of(b1, c),
        free_of(b2, c),
    ensures
        a1 == a2,
        b1 == b2,
{
    let x = a1 + seq![c] + b1;
    let y = a2 + seq![c] + b2;
    if b1.len() < b2.len() {
        let p = x.len() - 1 - b1.len();
        assert(x[p] == c);
        assert(y[p] == b2[p - a2.len() - 1]);
    } else if b2.len() < b1.len() {
        let p = y.len() - 1 - b2.len();
        assert(y[p] == c);
        assert(x[p] == b1[p - a1.len() - 1]);
    }
    assert(a1 =~= x.subrange(0, a1.len() as int));
    assert(a2 =~= y.subrange(0, a2.len() as int));
    assert(b1 =~= x.subrange(x.len() - b1.len(), x.len() as int));
    assert(b2 =~= y.subrange(y.len() - b2.len(), y.len() as int));
}

/// Names joined with commas are free of `|` when the names are.
proof fn lemma_joined_free(s: Seq<Seq<char>>)
    requires
        forall|k: int| 0 <= k < s.len() ==> free_of(#[trigger] s[k], '|'),
    ensures
        free_of(comma_joined(s), '|'),
    decreases s.len(),
{
    if s.len() > 1 {
        let t = s.drop_last();
        assert forall|k: int| 0 <= k < t.len() implies free_of(#[trigger] t[k], '|') by {
            assert(t[k] == s[k]);
        }
        lemma_joined_free(t);
        assert(free_of(s.last(), '|'));
    } else if s.len() == 1 {
        assert(free_of(s[0], '|'));
    }
}

/// Equally many comma-free names joined alike are the same names.
proof fn lemma_joined_injective(s1: Seq<Seq<char>>, s2: Seq<Seq<char>>)
    requires
        s1.len() == s2.len(),
        comma_joined(s1) == comma_joined(s2),
        forall|k: int| 0 <= k < s1.len() ==> free_of(#[trigger] s1[k], ','),
        forall|k: int| 0 <= k < s2.len() ==> free_of(#[trigger] s2[k], ','),
    ensures
        s1 == s2,
    decreases s1.len(),
{
    if s1.len() == 1 {
        assert(s1 =~= s2);
    } else if s1.len() > 1 {
        let t1 = s1.drop_last();
        let t2 = s2.drop_last();
        assert(free_of(s1.last(), ','));
        assert(free_of(s2.last(), ','));
        lemma_split_last(comma_joined(t1), s1.last(), comma_joined(t2), s2.last(), ',');
        assert forall|k: int| 0 <= k < t1.len() implies free_of(#[trigger] t1[k], ',') by {
            assert(t1[k] == s1[k]);
        }
        assert forall|k: int| 0 <= k < t2.len() implies free_of(#[trigger] t2[k], ',') by {
            assert(t2[k] == s2[k]);
        }
        lemma_joined_injective(t1, t2);
        assert forall|k: int| 0 <= k < s1.len() implies s1[k] == s2[k] by {
            if k < s1.len() - 1 {
                assert(s1[k] == t1[k]);
                assert(s2[k] == t2[k]);
            }
        }
        assert(s1 =~= s2);
    } else {
        assert(s1 =~= s2);
    }
}

/// A key is empty or ends with `|`.
proof fn lemma_key_ends(rooms: Seq<(RoomId, bool)>, v: AssignmentView)
    ensures
        canonical_key(rooms, v).len() == 0 || canonical_key(rooms, v).last() == '|',
{
}

/// A key with one room more splits into the key before it and the new
/// room's part only one way.
proof fn lemma_split_key(p1: Seq<char>, m1: Seq<char>, p2: Seq<char>, m2: Seq<char>)
    requires
        p1 + m1 == p2 + m2,
        p1.len() == 0 || p1.last() == '|',
        p2.len() == 0 || p2.last() == '|',
        free_of(m1, '|'),
        free_of(m2, '|'),
    ensures
        p1 == p2,
        m1 == m2,
{
    let x = p1 + m1;
    let y = p2 + m2;
    assert(x.len() == p1.len() + m1.len());
    assert(y.len() == p2.len() + m2.len());
    if p1.len() < p2.len() {
        let k = p2.len() - 1;
        assert(y[k] == p2[k]);
        assert(p1.len() <= k < x.len());
        assert(x[k] == m1[k - p1.len()]);
        assert(m1[k - p1.len()] != '|');
    } else if p2.len() < p1.len() {
        let k = p1.len() - 1;
        assert(x[k] == p1[k]);
        assert(p2.len() <= k < y.len());
        assert(y[k] == m2[k - p2.len()]);
        assert(m2[k - p2.len()] != '|');
    }
    assert(p1 =~= x.subrange(0, p1.len() as int));
    assert(p2 =~= x.subrange(0, p2.len() as int));
    assert(m1 =~= x.subrange(p1.len() as int, x.len() as int));
    assert(m2 =~= x.subrange(p2.len() as int, x.len() as int));
}

/// Names that are all clean stay clean when sorted.
proof fn lemma_arranged_clean(names: Seq<Seq<char>>, ordered: bool)
    requires
        forall|k: int| 0 <= k < names.len() ==> clean_name(#[trigger] names[k]),
    ensures
        arranged(names, ordered).len() == names.len(),
        forall|k: int| 0 <= k < arranged(names, ordered).len() ==> clean_name(
            #[trigger] arranged(names, ordered)[k],
        ),
{
    if !ordered {
        lemma_chars_le_total_ordering();
        names.lemma_sort_by_ensures(chars_le());
        let t = names.sort_by(chars_le());
        assert forall|k: int| 0 <= k < t.len() implies clean_name(#[trigger] t[k]) by {
            vstd::seq_lib::to_multiset_contains(t, t[k]);
            vstd::seq_lib::to_multiset_contains(names, t[k]);
            assert(t.contains(t[k]));
            let j = choose|j: int| 0 <= j < names.len() && names[j] == t[k];
            assert(clean_name(names[j]));
        }
        vstd::seq_lib::to_multiset_len(t);
        vstd::seq_lib::to_multiset_len(names);
    }
}

/// Keys tell rooms apart: two assignments with equal keys over the same
/// rooms have, room by room, the same names in order where slot order
/// matters and the same names in some order elsewhere, provided each room
/// has as many slots in both, no room label holds `|`, and no name holds
/// `,` or `|` (an empty slot's name is empty, and no operator id is).
pub proof fn law_canonical_tells_rooms_apart(rooms: Seq<(RoomId, bool)>, v: AssignmentView, w: AssignmentView)
    requires
        canonical_key(rooms, v) == canonical_key(rooms, w),
        forall|q: int| 0 <= q < rooms.len() ==> free_of(#[trigger] rooms[q].0@, '|'),
        forall|q: int|
            0 <= q < rooms.len() ==> (#[trigger] room_names(v, rooms[q].0@)).len() == room_names(
                w,
                rooms[q].0@,
            ).len(),
        clean_rooms(rooms, v),
        clean_rooms(rooms, w),
    ensures
        forall|q: int| 0 <= q < rooms.len() ==> if (#[trigger] rooms[q]).1 {
            room_names(v, rooms[q].0@) == room_names(w, rooms[q].0@)
        } else {
            room_names(v, rooms[q].0@).to_multiset() == room_names(w, rooms[q].0@).to_multiset()
        },
    decreases rooms.len(),
{
    if rooms.len() > 0 {
        let t = rooms.drop_last();
        let last = rooms.last();
        let nv = room_names(v, last.0@);
        let nw = room_names(w, last.0@);
        let av = arranged(nv, last.1);
        let aw = arranged(nw, last.1);
        let q0 = rooms.len() - 1;
        assert(rooms[q0] == last);
        assert forall|k: int| 0 <= k < nv.len() implies clean_name(#[trigger] nv[k]) by {
            assert(clean_name(room_names(v, rooms[q0].0@)[k]));
        }
        assert forall|k: int| 0 <= k < nw.len() implies clean_name(#[trigger] nw[k]) by {
            assert(clean_name(room_names(w, rooms[q0].0@)[k]));
        }
        lemma_arranged_clean(nv, last.1);
        lemma_arranged_clean(nw, last.1);
        assert forall|k: int| 0 <= k < av.len() implies free_of(#[trigger] av[k], '|') by {
            assert(clean_name(av[k]));
        }
        assert forall|k: int| 0 <= k < aw.len() implies free_of(#[trigger] aw[k], '|') by {
            assert(clean_name(aw[k]));
        }
        lemma_joined_free(av);
        lemma_joined_free(aw);
        let jv = comma_joined(av);
        let jw = comma_joined(aw);
        let mv = last.0@ + seq![':'] + jv;
        let mw = last.0@ + seq![':'] + jw;
        assert(free_of(last.0@, '|'));
        assert(free_of(mv, '|')) by {
            assert forall|i: int| 0 <= i < mv.len() implies mv[i] != '|' by {
                if i < last.0@.len() {
                    assert(mv[i] == last.0@[i]);
                } else if i > last.0@.len() {
                    assert(mv[i] == jv[i - last.0@.len() - 1]);
                }
            }
        }
        assert(free_of(mw, '|')) by {
            assert forall|i: int| 0 <= i < mw.len() implies mw[i] != '|' by {
                if i < last.0@.len() {
                    assert(mw[i] == last.0@[i]);
                } else if i > last.0@.len() {
                    assert(mw[i] == jw[i - last.0@.len() - 1]);
                }
            }
        }
        let kv = canonical_key(rooms, v);
        let kw = canonical_key(rooms, w);
        let pv = canonical_key(t, v);
        let pw = canonical_key(t, w);
        assert(kv == pv + mv + seq!['|']);
        assert(kw == pw + mw + seq!['|']);
        assert(pv + mv =~= kv.drop_last());
        assert(pw + mw =~= kw.drop_last());
        lemma_key_ends(t, v);
        lemma_key_ends(t, w);
        lemma_split_key(pv, mv, pw, mw);
        assert(jv =~= mv.subrange(last.0@.len() as int + 1, mv.len() as int));
        assert(jw =~= mw.subrange(last.0@.len() as int + 1, mw.len() as int));
        assert(nv.len() == nw.len()) by {
            assert(room_names(v, rooms[q0].0@).len() == room_names(w, rooms[q0].0@).len());
        }
        assert forall|k: int| 0 <= k < av.len() implies free_of(#[trigger] av[k], ',') by {
            assert(clean_name(av[k]));
        }
        assert forall|k: int| 0 <= k < aw.len() implies free_of(#[trigger] aw[k], ',') by {
            assert(clean_name(aw[k]));
        }
        lemma_joined_injective(av, aw);
        if !last.1 {
            lemma_chars_le_total_ordering();
            nv.lemma_sort_by_ensures(chars_le());
            nw.lemma_sort_by_ensures(chars_le());
        }
        assert forall|q: int| 0 <= q < t.len() implies free_of(#[trigger] t[q].0@, '|') by {
            assert(t[q] == rooms[q]);
        }
        assert forall|q: int| 0 <= q < t.len() implies (#[trigger] room_names(v, t[q].0@)).len()
            == room_names(w, t[q].0@).len() by {
            assert(t[q] == rooms[q]);
        }
        assert forall|q: int, k: int|
            0 <= q < t.len() && 0 <= k < room_names(v, t[q].0@).len() implies clean_name(
            #[trigger] room_names(v, t[q].0@)[k],
        ) by {
            assert(t[q] == rooms[q]);
        }
        assert forall|q: int, k: int|
            0 <= q < t.len() && 0 <= k < room_names(w, t[q].0@).len() implies clean_name(
            #[trigger] room_names(w, t[q].0@)[k],
        ) by {
            assert(t[q] == rooms[q]);
        }
        law_canonical_tells_rooms_apart(t, v, w);
        assert forall|q: int| 0 <= q < rooms.len() implies if (#[trigger] rooms[q]).1 {
            room_names(v, rooms[q].0@) == room_names(w, rooms[q].0@)
        } else {
            room_names(v, rooms[q].0@).to_multiset() == room_names(w, rooms[q].0@).to_multiset()
        } by {
            if q < t.len() {
                assert(t[q] == rooms[q]);
            }
        }
    }
}

/// Emptying the variable slots a second time changes nothing: what
/// `clear_variable` promises of a view whose variable slots are already
/// empty leaves only that view.
pub proof fn law_clear_variable_twice(sp: Space, v1: AssignmentView, v2: AssignmentView)
    requires
        wf_view(v1),
        wf_view(v2),
        forall|t: int| 0 <= t < sp.slots@.len() ==> !#[trigger] is_filled(v1, sp.slots@[t]),
        touches_only(v1, v2, slot_cells(sp.slots@)),
        forall|t: int| 0 <= t < sp.slots@.len() ==> !#[trigger] is_filled(v2, sp.slots@[t]),
    ensures
        v2 == v1,
{
    let cells = slot_cells(sp.slots@);
    assert(cells.len() == sp.slots@.len());
    assert forall|q: int, j: int| 0 <= q < v2.len() && 0 <= j < v2[q].1.len() implies v2[q].1[j] == v1[q].1[j] by {
        if v2[q].1[j] != v1[q].1[j] {
            assert(v2[q].0 == v1[q].0);
            assert(v1[q].1.len() == v2[q].1.len());
            assert(exists|t: int| 0 <= t < cells.len() && #[trigger] cells[t] == (v1[q].0, j as u8) && j < 256);
            let t = choose|t: int| 0 <= t < cells.len() && #[trigger] cells[t] == (v1[q].0, j as u8) && j < 256;
            let slot = sp.slots@[t];
            assert(cells[t] == (slot.room@, slot.index));
            crate::assignment::lemma_key_index_of(v1, q);
            crate::assignment::lemma_key_index_of(v2, q);
            assert(slot.index as int == j);
            assert(!is_filled(v1, slot));
            assert(!is_filled(v2, slot));
        }
    }
    assert forall|q: int| 0 <= q < v2.len() implies v2[q].0 == v1[q].0 && v2[q].1.len() == v1[q].1.len() by {
        assert(v2[q].0 == v1[q].0);
    }
    crate::assignment::lemma_view_ext(v2, v1);
}

} // verus!
