//! Exhaustive enumeration for small spaces: every distinct way to fill the
//! variable slots from the pool, in a fixed order. Scoring the candidates is
//! left to the caller.
//!
//! Rooms are filled one after another, each from its first variable slot
//! on. A room may be left partly empty. In a room whose slot order does not
//! matter, operators are taken in increasing pool order, so such a room is
//! filled in one order only.

use vstd::prelude::*;
use crate::assignment::{
    Assignment, AssignmentView, is_placed, slot_exists, key_index, set_cell, lemma_key_index, placed_view,
    cleared_view, Slot, occupant, small_rooms, loc_room, loc_index, idx8, lemma_set_cell_keys, lemma_placed,
    wf_view, lemma_key_index_of, lemma_fill_unique, lemma_clear_unique, holds_at, lemma_set_cell_holds,
};
use crate::space::{
    Space, slot_cells, touches_only, lemma_touch_step, views, all_wf, lemma_views_push, groups_in_range, groups_match,
    members_of, op_ids,
};

verus! {

/// The number of variable slots of group `gi`.
pub open spec fn group_len(sp: Space, gi: int) -> int {
    sp.groups@[gi].slots@.len() as int
}

/// The variable slot at position `si` of group `gi`.
pub open spec fn group_slot(sp: Space, gi: int, si: int) -> Slot {
    sp.slots@[sp.groups@[gi].slots@[si] as int]
}

/// The candidates the walk visits from slot `si` of group `gi`, choosing
/// operators at pool index `min_op` or later there, with the pool entries
/// marked in `used` taken; and the view the walk leaves behind.
pub open spec fn walk(sp: Space, gi: int, si: int, min_op: int, a: AssignmentView, used: Seq<bool>) -> (
    Seq<AssignmentView>,
    AssignmentView,
)
    decreases sp.groups@.len() - gi, group_len(sp, gi) - si, 1int, 0int,
{
    if gi < 0 || gi >= sp.groups@.len() {
        (seq![a], a)
    } else if si < 0 || si >= group_len(sp, gi) {
        walk(sp, gi + 1, 0, 0, a, used)
    } else {
        let (left, a1) = walk(sp, gi + 1, 0, 0, a, used);
        let first = if sp.groups@[gi].ordered { 0 } else { min_op };
        let (right, a2) = choices(sp, gi, si, first, a1, used);
        (left + right, a2)
    }
}

/// The candidates the walk visits while trying pool entries `p` onward in
/// slot `si` of group `gi`, and the view it leaves behind.
pub open spec fn choices(sp: Space, gi: int, si: int, p: int, a: AssignmentView, used: Seq<bool>) -> (
    Seq<AssignmentView>,
    AssignmentView,
)
    decreases sp.groups@.len() - gi, group_len(sp, gi) - si, 0int, sp.pool@.len() - p,
{
    if gi < 0 || gi >= sp.groups@.len() || si < 0 || si >= group_len(sp, gi) || p < 0 || p >= sp.pool@.len() {
        (Seq::empty(), a)
    } else if used[p] {
        choices(sp, gi, si, p + 1, a, used)
    } else {
        let slot = group_slot(sp, gi, si);
        match placed_view(a, slot, sp.pool@[p]@) {
            Some(b) => {
                let next_min = if sp.groups@[gi].ordered { 0 } else { p + 1 };
                let (mid, b2) = walk(sp, gi, si + 1, next_min, b, used.update(p, true));
                let (rest, a2) = choices(sp, gi, si, p + 1, cleared_view(b2, slot), used);
                (mid + rest, a2)
            },
            None => choices(sp, gi, si, p + 1, a, used),
        }
    }
}


impl Space {
    /// Visits from slot `si` of group `gi`, appending each candidate to
    /// `out`. `a` and `used` are the walk's state; `used` comes back as it
    /// was.
    fn walk_from(
        &self,
        gi: usize,
        si: usize,
        min_op: usize,
        a: &mut Assignment,
        used: &mut Vec<bool>,
        out: &mut Vec<Assignment>,
    )
        requires
            groups_in_range(*self),
            old(a).wf(),
            old(used)@.len() == self.pool@.len(),
            all_wf(old(out)@),
            gi <= self.groups@.len(),
            gi < self.groups@.len() ==> si <= group_len(*self, gi as int),
        ensures
            final(a).wf(),
            final(used)@ == old(used)@,
            all_wf(final(out)@),
            ({
                let (c, last) = walk(*self, gi as int, si as int, min_op as int, old(a)@, old(used)@);
                &&& views(final(out)@) == views(old(out)@) + c
                &&& final(a)@ == last
            }),
        decreases self.groups@.len() - gi, group_len(*self, gi as int) - si, 1int, 0int,
    {
        if gi == self.groups.len() {
            let copy = a.duplicate();
            proof {
                lemma_views_push(out@, copy);
            }
            out.push(copy);
            proof {
                assert(views(out@) =~= views(old(out)@) + seq![old(a)@]);
            }
            return;
        }
        let ordered = self.groups[gi].ordered;
        let len = self.groups[gi].slots.len();
        if si == len {
            self.walk_from(gi + 1, 0, 0, a, used, out);
            return;
        }
        let ghost a0 = a@;
        let ghost out0 = out@;
        // Leave this slot, and the rest of the room, empty.
        self.walk_from(gi + 1, 0, 0, a, used, out);
        let ghost a1 = a@;
        let ghost out1 = out@;
        let first = if ordered { 0 } else { min_op };
        let ghost u = used@;
        let slot = &self.slots[self.groups[gi].slots[si]];
        let mut p: usize = first;
        while p < self.pool.len()
            invariant
                groups_in_range(*self),
                gi < self.groups@.len(),
                si < group_len(*self, gi as int),
                si < len,
                len == self.groups@[gi as int].slots@.len(),
                ordered == self.groups@[gi as int].ordered,
                *slot == group_slot(*self, gi as int, si as int),
                a.wf(),
                used@ == u,
                u.len() == self.pool@.len(),
                all_wf(out@),
                first <= p || p >= self.pool@.len(),
                views(out1) + choices(*self, gi as int, si as int, first as int, a1, u).0 == views(out@) + choices(
                    *self,
                    gi as int,
                    si as int,
                    p as int,
                    a@,
                    u,
                ).0,
                choices(*self, gi as int, si as int, first as int, a1, u).1 == choices(
                    *self,
                    gi as int,
                    si as int,
                    p as int,
                    a@,
                    u,
                ).1,
            decreases self.pool@.len() - p,
        {
            let ghost ap = a@;
            let ghost outp = out@;
            if !used[p] {
                used.set(p, true);
                let op = self.pool[p].duplicate();
                let placed = a.place(slot, op);
                proof {
                    assert(placed_view(ap, *slot, self.pool@[p as int]@) == if placed is Ok {
                        Some(a@)
                    } else {
                        None::<AssignmentView>
                    });
                }
                if placed.is_ok() {
                    let next_min = if ordered { 0 } else { p + 1 };
                    let ghost b = a@;
                    self.walk_from(gi, si + 1, next_min, a, used, out);
                    a.remove(slot);
                    proof {
                        let (mid, b2) = walk(*self, gi as int, si + 1, next_min as int, b, u.update(p as int, true));
                        assert(views(out@) == views(outp) + mid);
                        assert(a@ == cleared_view(b2, *slot));
                        assert(views(outp) + choices(*self, gi as int, si as int, p as int, ap, u).0 =~= views(out@)
                            + choices(*self, gi as int, si as int, p + 1, a@, u).0);
                    }
                }
                used.set(p, false);
                proof {
                    assert(used@ =~= u);
                }
            }
            p = p + 1;
        }
        proof {
            assert(views(out@) =~= views(out@) + choices(*self, gi as int, si as int, p as int, a@, u).0);
            assert(views(out@) =~= views(out0) + walk(*self, gi as int, si as int, min_op as int, a0, u).0);
        }
    }

    /// Every candidate the exhaustive search scores, in the order it scores
    /// them, starting from `start`. When `start`'s variable slots are empty,
    /// these are the distinct ways to fill them from the pool.
    pub fn candidates(&self, start: &Assignment) -> (r: Vec<Assignment>)
        requires
            groups_in_range(*self),
            start.wf(),
        ensures
            all_wf(r@),
            views(r@) == walk(*self, 0, 0, 0, start@, Seq::new(self.pool@.len(), |i: int| false)).0,
    {
        let mut a = start.duplicate();
        let mut used: Vec<bool> = Vec::new();
        let mut i: usize = 0;
        while i < self.pool.len()
            invariant
                i <= self.pool@.len(),
                used@ == Seq::new(i as nat, |k: int| false),
            decreases self.pool@.len() - i,
        {
            used.push(false);
            i = i + 1;
            proof {
                assert(used@ =~= Seq::new(i as nat, |k: int| false));
            }
        }
        let mut out: Vec<Assignment> = Vec::new();
        proof {
            assert(views(out@) =~= Seq::<AssignmentView>::empty());
        }
        self.walk_from(0, 0, 0, &mut a, &mut used, &mut out);
        proof {
            assert(views(out@) =~= walk(*self, 0, 0, 0, start@, Seq::new(self.pool@.len(), |i: int| false)).0);
        }
        out
    }
}

/// Setting the cell of a variable slot keeps a view's changes to variable
/// cells.
proof fn lemma_touch_slot(sp: Space, start: AssignmentView, a: AssignmentView, gi: int, si: int, x: Option<Seq<char>>)
    requires
        groups_in_range(sp),
        0 <= gi < sp.groups@.len(),
        0 <= si < group_len(sp, gi),
        touches_only(start, a, slot_cells(sp.slots@)),
        slot_exists(a, group_slot(sp, gi, si).room@, group_slot(sp, gi, si).index as int),
    ensures
        touches_only(
            start,
            set_cell(a, key_index(a, group_slot(sp, gi, si).room@), group_slot(sp, gi, si).index as int, x),
            slot_cells(sp.slots@),
        ),
{
    let slot = group_slot(sp, gi, si);
    let t = sp.groups@[gi].slots@[si] as int;
    assert(t < sp.slots@.len());
    lemma_key_index(a, slot.room@);
    let k = key_index(a, slot.room@);
    assert(slot_cells(sp.slots@)[t] == (slot.room@, slot.index));
    assert((slot.index as int) as u8 == slot.index);
    lemma_touch_step(start, a, k, slot.index as int, x, slot_cells(sp.slots@), t);
}

proof fn lemma_walk_touches(sp: Space, gi: int, si: int, min_op: int, start: AssignmentView, a: AssignmentView, used: Seq<bool>)
    requires
        groups_in_range(sp),
        touches_only(start, a, slot_cells(sp.slots@)),
    ensures
        forall|i: int| 0 <= i < walk(sp, gi, si, min_op, a, used).0.len() ==> touches_only(
            start,
            #[trigger] walk(sp, gi, si, min_op, a, used).0[i],
            slot_cells(sp.slots@),
        ),
        touches_only(start, walk(sp, gi, si, min_op, a, used).1, slot_cells(sp.slots@)),
    decreases sp.groups@.len() - gi, group_len(sp, gi) - si, 1int, 0int,
{
    if gi < 0 || gi >= sp.groups@.len() {
    } else if si < 0 || si >= group_len(sp, gi) {
        lemma_walk_touches(sp, gi + 1, 0, 0, start, a, used);
    } else {
        let (left, a1) = walk(sp, gi + 1, 0, 0, a, used);
        lemma_walk_touches(sp, gi + 1, 0, 0, start, a, used);
        let first = if sp.groups@[gi].ordered { 0 } else { min_op };
        lemma_choices_touch(sp, gi, si, first, start, a1, used);
        let (right, a2) = choices(sp, gi, si, first, a1, used);
        assert forall|i: int| 0 <= i < (left + right).len() implies touches_only(
            start,
            #[trigger] (left + right)[i],
            slot_cells(sp.slots@),
        ) by {
            if i < left.len() {
                assert((left + right)[i] == left[i]);
            } else {
                assert((left + right)[i] == right[i - left.len()]);
            }
        }
    }
}

proof fn lemma_choices_touch(sp: Space, gi: int, si: int, p: int, start: AssignmentView, a: AssignmentView, used: Seq<bool>)
    requires
        groups_in_range(sp),
        touches_only(start, a, slot_cells(sp.slots@)),
    ensures
        forall|i: int| 0 <= i < choices(sp, gi, si, p, a, used).0.len() ==> touches_only(
            start,
            #[trigger] choices(sp, gi, si, p, a, used).0[i],
            slot_cells(sp.slots@),
        ),
        touches_only(start, choices(sp, gi, si, p, a, used).1, slot_cells(sp.slots@)),
    decreases sp.groups@.len() - gi, group_len(sp, gi) - si, 0int, sp.pool@.len() - p,
{
    if gi < 0 || gi >= sp.groups@.len() || si < 0 || si >= group_len(sp, gi) || p < 0 || p >= sp.pool@.len() {
    } else if used[p] {
        lemma_choices_touch(sp, gi, si, p + 1, start, a, used);
    } else {
        let slot = group_slot(sp, gi, si);
        match placed_view(a, slot, sp.pool@[p]@) {
            Some(b) => {
                if !is_placed(a, sp.pool@[p]@) {
                    lemma_touch_slot(sp, start, a, gi, si, Some(sp.pool@[p]@));
                }
                let next_min = if sp.groups@[gi].ordered { 0 } else { p + 1 };
                lemma_walk_touches(sp, gi, si + 1, next_min, start, b, used.update(p, true));
                let (mid, b2) = walk(sp, gi, si + 1, next_min, b, used.update(p, true));
                if slot_exists(b2, slot.room@, slot.index as int) {
                    lemma_touch_slot(sp, start, b2, gi, si, None);
                }
                lemma_choices_touch(sp, gi, si, p + 1, start, cleared_view(b2, slot), used);
                let (rest, a2) = choices(sp, gi, si, p + 1, cleared_view(b2, slot), used);
                assert forall|i: int| 0 <= i < (mid + rest).len() implies touches_only(
                    start,
                    #[trigger] (mid + rest)[i],
                    slot_cells(sp.slots@),
                ) by {
                    if i < mid.len() {
                        assert((mid + rest)[i] == mid[i]);
                    } else {
                        assert((mid + rest)[i] == rest[i - mid.len()]);
                    }
                }
            },
            None => {
                lemma_choices_touch(sp, gi, si, p + 1, start, a, used);
            },
        }
    }
}

/// Exhaustive enumeration changes nothing but variable slots: every
/// candidate has the starting assignment's rooms and sizes, and differs from
/// it only in cells of the space's variable slots.
pub proof fn law_candidates_touch_only_variables(sp: Space, start: AssignmentView, used: Seq<bool>)
    requires
        groups_in_range(sp),
    ensures
        forall|i: int| 0 <= i < walk(sp, 0, 0, 0, start, used).0.len() ==> touches_only(
            start,
            #[trigger] walk(sp, 0, 0, 0, start, used).0[i],
            slot_cells(sp.slots@),
        ),
{
    assert(touches_only(start, start, slot_cells(sp.slots@)));
    lemma_walk_touches(sp, 0, 0, 0, start, start, used);
}

/// Two slots name the same cell.
pub open spec fn same_cell(s: Slot, t: Slot) -> bool {
    s.room@ == t.room@ && s.index == t.index
}

/// A position of the walk: slot `k` of group `g`.
pub open spec fn is_pos(sp: Space, g: int, k: int) -> bool {
    0 <= g < sp.groups@.len() && 0 <= k < group_len(sp, g)
}

/// Position `(g, k)` comes at or after `(gi, si)` in the walk.
pub open spec fn at_or_after(g: int, k: int, gi: int, si: int) -> bool {
    g > gi || (g == gi && k >= si)
}

/// Distinct positions of the walk name distinct cells.
pub open spec fn cells_distinct(sp: Space) -> bool {
    forall|g1: int, k1: int, g2: int, k2: int|
        is_pos(sp, g1, k1) && is_pos(sp, g2, k2) && same_cell(
            #[trigger] group_slot(sp, g1, k1),
            #[trigger] group_slot(sp, g2, k2),
        ) ==> g1 == g2 && k1 == k2
}

/// No operator is listed twice in the pool.
pub open spec fn pool_distinct(sp: Space) -> bool {
    forall|i: int, j: int|
        0 <= i < sp.pool@.len() && 0 <= j < sp.pool@.len() && #[trigger] sp.pool@[i]@ == #[trigger] sp.pool@[j]@
            ==> i == j
}

/// Who holds the cell of a walk position in a view.
pub open spec fn cell_at(sp: Space, v: AssignmentView, g: int, k: int) -> Option<Seq<char>> {
    occupant(v, group_slot(sp, g, k).room@, group_slot(sp, g, k).index as int)
}

/// Every position from `(gi, si)` on is empty in a view.
pub open spec fn vacant_ahead(sp: Space, v: AssignmentView, gi: int, si: int) -> bool {
    forall|g: int, k: int| is_pos(sp, g, k) && at_or_after(g, k, gi, si) ==> #[trigger] cell_at(sp, v, g, k) is None
}

/// Two views agree on every position before `(gi, si)`.
pub open spec fn same_behind(sp: Space, v: AssignmentView, w: AssignmentView, gi: int, si: int) -> bool {
    forall|g: int, k: int| is_pos(sp, g, k) && !at_or_after(g, k, gi, si) ==> #[trigger] cell_at(sp, w, g, k) == cell_at(
        sp,
        v,
        g,
        k,
    )
}

/// Who holds a cell after one cell is set.
proof fn lemma_cell_after_set(v: AssignmentView, s: Slot, x: Option<Seq<char>>, t: Slot)
    requires
        slot_exists(v, s.room@, s.index as int),
    ensures
        occupant(set_cell(v, key_index(v, s.room@), s.index as int, x), t.room@, t.index as int) == if same_cell(s, t) {
            x
        } else {
            occupant(v, t.room@, t.index as int)
        },
{
    let k = key_index(v, s.room@);
    lemma_key_index(v, s.room@);
    lemma_key_index(v, t.room@);
    lemma_set_cell_keys(v, k, s.index as int, x, t.room@);
}

/// Placing an operator in an empty walk position, with rooms of at most 256
/// slots, puts them in that cell and nowhere else.
proof fn lemma_place_empty(sp: Space, a: AssignmentView, gi: int, si: int, op: Seq<char>)
    requires
        is_pos(sp, gi, si),
        small_rooms(a),
        wf_view(a),
        cell_at(sp, a, gi, si) is None,
    ensures
        placed_view(a, group_slot(sp, gi, si), op) matches Some(b) ==> {
            let slot = group_slot(sp, gi, si);
            &&& slot_exists(a, slot.room@, slot.index as int)
            &&& !is_placed(a, op)
            &&& b == set_cell(a, key_index(a, slot.room@), slot.index as int, Some(op))
        },
{
    let slot = group_slot(sp, gi, si);
    if is_placed(a, op) {
        lemma_placed(a, op);
        let lr = loc_room(a, op);
        let li = loc_index(a, op);
        if a[lr].0 == slot.room@ && idx8(li) == slot.index {
            lemma_key_index_of(a, lr);
            assert(li <= 255);
            assert(occupant(a, slot.room@, slot.index as int) == Some(op));
        }
    }
}

/// What the walk from `(gi, si)` does, when the positions ahead are empty:
/// it hands back the view it started from, changes nothing behind its
/// position, and lists no candidate twice.
proof fn lemma_walk_facts(sp: Space, gi: int, si: int, min_op: int, a: AssignmentView, used: Seq<bool>)
    requires
        groups_in_range(sp),
        cells_distinct(sp),
        pool_distinct(sp),
        wf_view(a),
        small_rooms(a),
        vacant_ahead(sp, a, gi, si),
        0 <= gi,
        0 <= si,
        0 <= min_op,
    ensures
        walk(sp, gi, si, min_op, a, used).1 == a,
        forall|i: int| 0 <= i < walk(sp, gi, si, min_op, a, used).0.len() ==> same_behind(
            sp,
            a,
            #[trigger] walk(sp, gi, si, min_op, a, used).0[i],
            gi,
            si,
        ),
        walk(sp, gi, si, min_op, a, used).0.no_duplicates(),
    decreases sp.groups@.len() - gi, group_len(sp, gi) - si, 1int, 0int,
{
    if gi >= sp.groups@.len() {
    } else if si >= group_len(sp, gi) {
        lemma_walk_facts(sp, gi + 1, 0, 0, a, used);
        let c = walk(sp, gi + 1, 0, 0, a, used).0;
        assert forall|i: int| 0 <= i < c.len() implies same_behind(sp, a, #[trigger] c[i], gi, si) by {
            assert(same_behind(sp, a, c[i], gi + 1, 0));
        }
    } else {
        lemma_walk_facts(sp, gi + 1, 0, 0, a, used);
        let (left, a1) = walk(sp, gi + 1, 0, 0, a, used);
        let first = if sp.groups@[gi].ordered { 0 } else { min_op };
        lemma_choices_facts(sp, gi, si, first, a, used);
        let (right, a2) = choices(sp, gi, si, first, a1, used);
        assert(cell_at(sp, a, gi, si) is None);
        assert forall|i: int, j: int| 0 <= i < left.len() && 0 <= j < right.len() implies left[i] != right[j] by {
            assert(same_behind(sp, a, left[i], gi + 1, 0));
            assert(cell_at(sp, left[i], gi, si) == cell_at(sp, a, gi, si));
            let q = choose|q: int| 0 <= q < sp.pool@.len() && cell_at(sp, right[j], gi, si) == Some(sp.pool@[q]@);
        }
        vstd::seq_lib::lemma_no_dup_in_concat(left, right);
        assert forall|i: int| 0 <= i < (left + right).len() implies same_behind(sp, a, #[trigger] (left + right)[i], gi, si) by {
            if i < left.len() {
                assert((left + right)[i] == left[i]);
                assert(same_behind(sp, a, left[i], gi + 1, 0));
            } else {
                assert((left + right)[i] == right[i - left.len()]);
            }
        }
    }
}

proof fn lemma_choices_facts(sp: Space, gi: int, si: int, p: int, a: AssignmentView, used: Seq<bool>)
    requires
        groups_in_range(sp),
        cells_distinct(sp),
        pool_distinct(sp),
        wf_view(a),
        small_rooms(a),
        vacant_ahead(sp, a, gi, si),
        0 <= gi,
        0 <= si,
        0 <= p,
    ensures
        choices(sp, gi, si, p, a, used).1 == a,
        forall|i: int| 0 <= i < choices(sp, gi, si, p, a, used).0.len() ==> same_behind(
            sp,
            a,
            #[trigger] choices(sp, gi, si, p, a, used).0[i],
            gi,
            si,
        ),
        forall|i: int| 0 <= i < choices(sp, gi, si, p, a, used).0.len() ==> exists|q: int|
            p <= q < sp.pool@.len() && cell_at(sp, #[trigger] choices(sp, gi, si, p, a, used).0[i], gi, si) == Some(
                sp.pool@[q]@,
            ),
        choices(sp, gi, si, p, a, used).0.no_duplicates(),
    decreases sp.groups@.len() - gi, group_len(sp, gi) - si, 0int, sp.pool@.len() - p,
{
    if gi >= sp.groups@.len() || si >= group_len(sp, gi) || p >= sp.pool@.len() {
    } else if used[p] {
        lemma_choices_facts(sp, gi, si, p + 1, a, used);
    } else {
        let slot = group_slot(sp, gi, si);
        let op = sp.pool@[p]@;
        assert(cell_at(sp, a, gi, si) is None);
        lemma_place_empty(sp, a, gi, si, op);
        match placed_view(a, slot, op) {
            Some(b) => {
                let k = key_index(a, slot.room@);
                lemma_key_index(a, slot.room@);
                lemma_set_cell_keys(a, k, slot.index as int, Some(op), slot.room@);
                lemma_fill_unique(a, k, slot.index as int, op);
                assert(small_rooms(b));
                assert(wf_view(b));
                assert forall|g: int, kk: int| is_pos(sp, g, kk) && at_or_after(g, kk, gi, si + 1) implies #[trigger] cell_at(
                    sp,
                    b,
                    g,
                    kk,
                ) is None by {
                    lemma_cell_after_set(a, slot, Some(op), group_slot(sp, g, kk));
                    assert(is_pos(sp, gi, si));
                    assert(!same_cell(slot, group_slot(sp, g, kk)));
                    assert(cell_at(sp, a, g, kk) is None);
                }
                let next_min = if sp.groups@[gi].ordered { 0 } else { p + 1 };
                lemma_walk_facts(sp, gi, si + 1, next_min, b, used.update(p, true));
                let (mid, b2) = walk(sp, gi, si + 1, next_min, b, used.update(p, true));
                // Emptying the slot again gives back the starting view.
                assert(a[k].1[slot.index as int] is None);
                assert(cleared_view(b2, slot) =~= a) by {
                    assert(b[k].1.update(slot.index as int, None) =~= a[k].1);
                }
                lemma_choices_facts(sp, gi, si, p + 1, a, used);
                let (rest, a3) = choices(sp, gi, si, p + 1, a, used);
                lemma_cell_after_set(a, slot, Some(op), slot);
                assert(cell_at(sp, b, gi, si) == Some(op));
                assert forall|i: int| 0 <= i < mid.len() implies same_behind(sp, a, #[trigger] mid[i], gi, si)
                    && cell_at(sp, mid[i], gi, si) == Some(op) by {
                    assert(same_behind(sp, b, mid[i], gi, si + 1));
                    assert forall|g: int, kk: int| is_pos(sp, g, kk) && !at_or_after(g, kk, gi, si) implies #[trigger] cell_at(
                        sp,
                        mid[i],
                        g,
                        kk,
                    ) == cell_at(sp, a, g, kk) by {
                        lemma_cell_after_set(a, slot, Some(op), group_slot(sp, g, kk));
                        assert(!same_cell(slot, group_slot(sp, g, kk)));
                    }
                }
                assert forall|i: int, j: int| 0 <= i < mid.len() && 0 <= j < rest.len() implies mid[i] != rest[j] by {
                    let q = choose|q: int| p + 1 <= q < sp.pool@.len() && cell_at(sp, rest[j], gi, si) == Some(sp.pool@[q]@);
                    assert(sp.pool@[q]@ != sp.pool@[p]@);
                }
                vstd::seq_lib::lemma_no_dup_in_concat(mid, rest);
                assert forall|i: int| 0 <= i < (mid + rest).len() implies same_behind(sp, a, #[trigger] (mid + rest)[i], gi, si)
                    && exists|q: int| p <= q < sp.pool@.len() && cell_at(sp, (mid + rest)[i], gi, si) == Some(sp.pool@[q]@) by {
                    if i < mid.len() {
                        assert((mid + rest)[i] == mid[i]);
                        assert(cell_at(sp, mid[i], gi, si) == Some(sp.pool@[p]@));
                    } else {
                        assert((mid + rest)[i] == rest[i - mid.len()]);
                    }
                }
            },
            None => {
                lemma_choices_facts(sp, gi, si, p + 1, a, used);
            },
        }
    }
}

/// One step of the choices at a walk position with empty positions ahead:
/// the candidates of pool entry `p` (when it can be placed), then those of
/// the entries after it, from the same view.
proof fn lemma_choices_step(sp: Space, gi: int, si: int, p: int, a: AssignmentView, used: Seq<bool>)
    requires
        groups_in_range(sp),
        cells_distinct(sp),
        pool_distinct(sp),
        wf_view(a),
        small_rooms(a),
        vacant_ahead(sp, a, gi, si),
        0 <= gi < sp.groups@.len(),
        0 <= si < group_len(sp, gi),
        0 <= p < sp.pool@.len(),
    ensures
        ({
            let slot = group_slot(sp, gi, si);
            let next_min = if sp.groups@[gi].ordered { 0 } else { p + 1 };
            let here = if used[p] {
                Seq::empty()
            } else {
                match placed_view(a, slot, sp.pool@[p]@) {
                    Some(b) => walk(sp, gi, si + 1, next_min, b, used.update(p, true)).0,
                    None => Seq::empty(),
                }
            };
            choices(sp, gi, si, p, a, used).0 == here + choices(sp, gi, si, p + 1, a, used).0
        }),
{
    let slot = group_slot(sp, gi, si);
    let op = sp.pool@[p]@;
    if !used[p] {
        assert(cell_at(sp, a, gi, si) is None);
        lemma_place_empty(sp, a, gi, si, op);
        match placed_view(a, slot, op) {
            Some(b) => {
                let k = key_index(a, slot.room@);
                lemma_key_index(a, slot.room@);
                lemma_set_cell_keys(a, k, slot.index as int, Some(op), slot.room@);
                lemma_fill_unique(a, k, slot.index as int, op);
                assert(small_rooms(b));
                assert(wf_view(b));
                assert forall|g: int, kk: int| is_pos(sp, g, kk) && at_or_after(g, kk, gi, si + 1) implies #[trigger] cell_at(
                    sp,
                    b,
                    g,
                    kk,
                ) is None by {
                    lemma_cell_after_set(a, slot, Some(op), group_slot(sp, g, kk));
                    assert(is_pos(sp, gi, si));
                    assert(!same_cell(slot, group_slot(sp, g, kk)));
                    assert(cell_at(sp, a, g, kk) is None);
                }
                let next_min = if sp.groups@[gi].ordered { 0 } else { p + 1 };
                lemma_walk_facts(sp, gi, si + 1, next_min, b, used.update(p, true));
                assert(a[k].1[slot.index as int] is None);
                assert(cleared_view(b, slot) =~= a) by {
                    assert(b[k].1.update(slot.index as int, None) =~= a[k].1);
                }
            },
            None => {},
        }
    }
}

/// Positions `(g, k)` a filling fills: the first `f[g].len()` slots of
/// each group.
pub open spec fn picked(f: Seq<Seq<int>>, g: int, k: int) -> bool {
    0 <= g < f.len() && 0 <= k < f[g].len()
}

/// A filling the walk can make from `(gi, si)` on, choosing at pool index
/// `min_op` or later at `(gi, si)`, with the entries in `used` taken: per
/// group, pool indexes for its first slots; every index picked from `(gi,
/// si)` on a pool entry not taken, no entry twice; in a group whose slot
/// order does not matter, indexes increasing.
pub open spec fn filling_fits(sp: Space, f: Seq<Seq<int>>, gi: int, si: int, min_op: int, used: Seq<bool>) -> bool {
    &&& f.len() == sp.groups@.len()
    &&& forall|g: int| 0 <= g < f.len() ==> #[trigger] f[g].len() <= group_len(sp, g)
    &&& forall|g: int, k: int| picked(f, g, k) && at_or_after(g, k, gi, si) ==> 0 <= #[trigger] f[g][k] < sp.pool@.len()
        && !used[f[g][k]]
    &&& forall|g1: int, k1: int, g2: int, k2: int|
        picked(f, g1, k1) && picked(f, g2, k2) && at_or_after(g1, k1, gi, si) && at_or_after(g2, k2, gi, si)
            && #[trigger] f[g1][k1] == #[trigger] f[g2][k2] ==> g1 == g2 && k1 == k2
    &&& forall|g: int, k1: int, k2: int|
        0 <= g < f.len() && !sp.groups@[g].ordered && 0 <= k1 < k2 < f[g].len() ==> #[trigger] f[g][k1]
            < #[trigger] f[g][k2]
    &&& (0 <= gi < f.len() && 0 <= si < f[gi].len() && !sp.groups@[gi].ordered) ==> f[gi][si] >= min_op
}

/// The view a filling gives from `(gi, si)` on, slots filled in walk order.
pub open spec fn fill_from(sp: Space, f: Seq<Seq<int>>, a: AssignmentView, gi: int, si: int) -> AssignmentView
    decreases sp.groups@.len() - gi, f[gi].len() - si,
{
    if gi < 0 || gi >= sp.groups@.len() {
        a
    } else if si < 0 || si >= f[gi].len() {
        fill_from(sp, f, a, gi + 1, 0)
    } else {
        let slot = group_slot(sp, gi, si);
        fill_from(
            sp,
            f,
            set_cell(a, key_index(a, slot.room@), slot.index as int, Some(sp.pool@[f[gi][si]]@)),
            gi,
            si + 1,
        )
    }
}

/// Every walk position names a slot the view has.
pub open spec fn slots_exist(sp: Space, a: AssignmentView) -> bool {
    forall|g: int, k: int| is_pos(sp, g, k) ==> slot_exists(a, #[trigger] group_slot(sp, g, k).room@, group_slot(sp, g, k).index as int)
}

/// The pool entries not taken are stationed nowhere.
pub open spec fn benched_unused(sp: Space, a: AssignmentView, used: Seq<bool>) -> bool {
    forall|q: int| 0 <= q < sp.pool@.len() && !used[q] ==> !is_placed(a, #[trigger] sp.pool@[q]@)
}

/// Putting one operator in a cell stations nobody else.
proof fn lemma_placed_after_fill(a: AssignmentView, k: int, i: int, op: Seq<char>, x: Seq<char>)
    requires
        0 <= k < a.len(),
        0 <= i < a[k].1.len(),
        x != op,
        !is_placed(a, x),
    ensures
        !is_placed(set_cell(a, k, i, Some(op)), x),
{
    lemma_set_cell_holds(a, k, i, Some(op));
}

proof fn lemma_walk_complete(
    sp: Space,
    f: Seq<Seq<int>>,
    gi: int,
    si: int,
    min_op: int,
    a: AssignmentView,
    used: Seq<bool>,
)
    requires
        groups_in_range(sp),
        cells_distinct(sp),
        pool_distinct(sp),
        wf_view(a),
        small_rooms(a),
        vacant_ahead(sp, a, gi, si),
        slots_exist(sp, a),
        benched_unused(sp, a, used),
        used.len() == sp.pool@.len(),
        filling_fits(sp, f, gi, si, min_op, used),
        0 <= gi,
        0 <= si,
        0 <= min_op,
    ensures
        walk(sp, gi, si, min_op, a, used).0.contains(fill_from(sp, f, a, gi, si)),
    decreases sp.groups@.len() - gi, group_len(sp, gi) - si, 1int, 0int,
{
    if gi >= sp.groups@.len() {
        assert(walk(sp, gi, si, min_op, a, used).0[0] == a);
    } else if si >= group_len(sp, gi) {
        assert(f[gi].len() <= group_len(sp, gi));
        lemma_walk_complete(sp, f, gi + 1, 0, 0, a, used);
    } else {
        lemma_walk_facts(sp, gi + 1, 0, 0, a, used);
        let (left, a1) = walk(sp, gi + 1, 0, 0, a, used);
        let first = if sp.groups@[gi].ordered { 0 } else { min_op };
        let right = choices(sp, gi, si, first, a1, used).0;
        assert(walk(sp, gi, si, min_op, a, used).0 == left + right);
        if si >= f[gi].len() {
            lemma_walk_complete(sp, f, gi + 1, 0, 0, a, used);
            let k = choose|k: int| 0 <= k < left.len() && left[k] == fill_from(sp, f, a, gi + 1, 0);
            assert((left + right)[k] == left[k]);
        } else {
            lemma_choices_complete(sp, f, gi, si, first, a, used);
            let k = choose|k: int| 0 <= k < right.len() && right[k] == fill_from(sp, f, a, gi, si);
            assert((left + right)[left.len() + k] == right[k]);
        }
    }
}

proof fn lemma_choices_complete(sp: Space, f: Seq<Seq<int>>, gi: int, si: int, p0: int, a: AssignmentView, used: Seq<bool>)
    requires
        groups_in_range(sp),
        cells_distinct(sp),
        pool_distinct(sp),
        wf_view(a),
        small_rooms(a),
        vacant_ahead(sp, a, gi, si),
        slots_exist(sp, a),
        benched_unused(sp, a, used),
        used.len() == sp.pool@.len(),
        filling_fits(sp, f, gi, si, 0, used),
        0 <= gi < sp.groups@.len(),
        0 <= si < f[gi].len(),
        0 <= p0 <= f[gi][si],
    ensures
        choices(sp, gi, si, p0, a, used).0.contains(fill_from(sp, f, a, gi, si)),
    decreases sp.groups@.len() - gi, group_len(sp, gi) - si, 0int, sp.pool@.len() - p0,
{
    let p = f[gi][si];
    assert(picked(f, gi, si) && at_or_after(gi, si, gi, si));
    assert(0 <= p < sp.pool@.len() && !used[p]);
    assert(si < group_len(sp, gi));
    lemma_choices_step(sp, gi, si, p0, a, used);
    let slot = group_slot(sp, gi, si);
    let rest = choices(sp, gi, si, p0 + 1, a, used).0;
    if p0 < p {
        lemma_choices_complete(sp, f, gi, si, p0 + 1, a, used);
        let k = choose|k: int| 0 <= k < rest.len() && rest[k] == fill_from(sp, f, a, gi, si);
        let whole = choices(sp, gi, si, p0, a, used).0;
        assert(whole[whole.len() - rest.len() + k] == rest[k]);
    } else {
        let op = sp.pool@[p]@;
        assert(is_pos(sp, gi, si));
        assert(slot_exists(a, slot.room@, slot.index as int));
        assert(!is_placed(a, op));
        let k = key_index(a, slot.room@);
        let b = set_cell(a, k, slot.index as int, Some(op));
        assert(placed_view(a, slot, op) == Some(b));
        lemma_key_index(a, slot.room@);
        lemma_set_cell_keys(a, k, slot.index as int, Some(op), slot.room@);
        lemma_fill_unique(a, k, slot.index as int, op);
        assert(small_rooms(b));
        assert(wf_view(b));
        assert forall|g: int, kk: int| is_pos(sp, g, kk) && at_or_after(g, kk, gi, si + 1) implies #[trigger] cell_at(
            sp,
            b,
            g,
            kk,
        ) is None by {
            lemma_cell_after_set(a, slot, Some(op), group_slot(sp, g, kk));
            assert(!same_cell(slot, group_slot(sp, g, kk)));
            assert(cell_at(sp, a, g, kk) is None);
        }
        assert forall|g: int, kk: int| is_pos(sp, g, kk) implies slot_exists(b, #[trigger] group_slot(sp, g, kk).room@, group_slot(
            sp,
            g,
            kk,
        ).index as int) by {
            let t = group_slot(sp, g, kk);
            lemma_set_cell_keys(a, k, slot.index as int, Some(op), t.room@);
            assert(slot_exists(a, t.room@, t.index as int));
            lemma_key_index(a, t.room@);
            let r = key_index(a, t.room@);
            assert(b[r].1.len() == a[r].1.len());
        }
        let used2 = used.update(p, true);
        assert forall|q: int| 0 <= q < sp.pool@.len() && !used2[q] implies !is_placed(b, #[trigger] sp.pool@[q]@) by {
            assert(q != p);
            assert(sp.pool@[q]@ != op);
            lemma_placed_after_fill(a, k, slot.index as int, op, sp.pool@[q]@);
        }
        let next_min = if sp.groups@[gi].ordered { 0 } else { p + 1 };
        assert(filling_fits(sp, f, gi, si + 1, next_min, used2)) by {
            assert forall|g: int, kk: int| picked(f, g, kk) && at_or_after(g, kk, gi, si + 1) implies 0 <= #[trigger] f[g][kk]
                < sp.pool@.len() && !used2[f[g][kk]] by {
                assert(at_or_after(g, kk, gi, si));
                assert(f[g][kk] != p || (g == gi && kk == si));
            }
            if si + 1 < f[gi].len() && !sp.groups@[gi].ordered {
                assert(f[gi][si] < f[gi][si + 1]);
            }
        }
        lemma_walk_complete(sp, f, gi, si + 1, next_min, b, used2);
        assert(fill_from(sp, f, a, gi, si) == fill_from(sp, f, b, gi, si + 1));
        let mid = walk(sp, gi, si + 1, next_min, b, used2).0;
        let kk = choose|kk: int| 0 <= kk < mid.len() && mid[kk] == fill_from(sp, f, b, gi, si + 1);
        assert((mid + rest)[kk] == mid[kk]);
    }
}

/// A space built as `Space::new` builds one has its groups in range, its
/// walk positions on distinct cells and nobody twice in its pool.
proof fn lemma_space_facts(sp: Space)
    requires
        groups_match(sp.groups@, sp.slot_group@),
        sp.slot_group@.len() == sp.slots@.len(),
        slot_cells(sp.slots@).no_duplicates(),
        op_ids(sp.pool@).no_duplicates(),
    ensures
        groups_in_range(sp),
        cells_distinct(sp),
        pool_distinct(sp),
{
    assert forall|g: int, k: int| 0 <= g < sp.groups@.len() && 0 <= k < sp.groups@[g].slots@.len() implies #[trigger] sp.groups@[g].slots@[k]
        < sp.slots@.len() by {
        assert(members_of(sp.groups@[g], sp.slot_group@, g));
    }
    assert forall|g1: int, k1: int, g2: int, k2: int|
        is_pos(sp, g1, k1) && is_pos(sp, g2, k2) && same_cell(
            #[trigger] group_slot(sp, g1, k1),
            #[trigger] group_slot(sp, g2, k2),
        ) implies g1 == g2 && k1 == k2 by {
        let p1 = sp.groups@[g1].slots@[k1] as int;
        let p2 = sp.groups@[g2].slots@[k2] as int;
        assert(members_of(sp.groups@[g1], sp.slot_group@, g1));
        assert(members_of(sp.groups@[g2], sp.slot_group@, g2));
        assert(slot_cells(sp.slots@)[p1] == slot_cells(sp.slots@)[p2]);
        assert(p1 == p2);
        if k1 < k2 {
            assert(sp.groups@[g1].slots@[k1] < sp.groups@[g1].slots@[k2]);
        } else if k2 < k1 {
            assert(sp.groups@[g1].slots@[k2] < sp.groups@[g1].slots@[k1]);
        }
    }
    assert forall|i: int, j: int|
        0 <= i < sp.pool@.len() && 0 <= j < sp.pool@.len() && #[trigger] sp.pool@[i]@ == #[trigger] sp.pool@[j]@
        implies i == j by {
        assert(op_ids(sp.pool@)[i] == op_ids(sp.pool@)[j]);
    }
}

/// Exhaustive enumeration lists each filling once: for a space built as
/// `Space::new` builds one (groups listing their own slots, distinct slot
/// cells, nobody twice in the pool), and a start whose variable slots are
/// empty and whose rooms have at most 256 slots, no two candidates are the
/// same assignment.
pub proof fn law_candidates_distinct(sp: Space, start: AssignmentView, used: Seq<bool>)
    requires
        groups_match(sp.groups@, sp.slot_group@),
        sp.slot_group@.len() == sp.slots@.len(),
        slot_cells(sp.slots@).no_duplicates(),
        op_ids(sp.pool@).no_duplicates(),
        wf_view(start),
        small_rooms(start),
        vacant_ahead(sp, start, 0, 0),
    ensures
        walk(sp, 0, 0, 0, start, used).0.no_duplicates(),
{
    lemma_space_facts(sp);
    lemma_walk_facts(sp, 0, 0, 0, start, used);
}

/// Exhaustive enumeration misses no filling: for a space built as
/// `Space::new` builds one, and a start whose variable slots exist and are
/// empty, whose rooms have at most 256 slots and which stations no pool
/// operator, every filling the walk can make (each group's first slots
/// filled with distinct pool operators, in increasing pool order where the
/// room's slot order does not matter) is among the candidates.
pub proof fn law_candidates_complete(sp: Space, start: AssignmentView, f: Seq<Seq<int>>)
    requires
        groups_match(sp.groups@, sp.slot_group@),
        sp.slot_group@.len() == sp.slots@.len(),
        slot_cells(sp.slots@).no_duplicates(),
        op_ids(sp.pool@).no_duplicates(),
        wf_view(start),
        small_rooms(start),
        vacant_ahead(sp, start, 0, 0),
        slots_exist(sp, start),
        forall|q: int| 0 <= q < sp.pool@.len() ==> !is_placed(start, #[trigger] sp.pool@[q]@),
        filling_fits(sp, f, 0, 0, 0, Seq::new(sp.pool@.len(), |i: int| false)),
    ensures
        walk(sp, 0, 0, 0, start, Seq::new(sp.pool@.len(), |i: int| false)).0.contains(fill_from(sp, f, start, 0, 0)),
{
    lemma_space_facts(sp);
    lemma_walk_complete(sp, f, 0, 0, 0, start, Seq::new(sp.pool@.len(), |i: int| false));
}

} // verus!
