//! Who is stationed where.
//!
//! `Assignment` is a first-class type rather than a bare map so that its
//! invariants hold by construction: its rooms are kept in label order, each
//! with the slots it was given, and no operator appears twice. Assignments
//! change only through `place`, `remove`, `move_to` and `swap`, which keep
//! those invariants, so a search over assignments cannot produce an
//! impossible state.

use vstd::prelude::*;
use crate::base::{BaseConfig, Room, capacity_of, labelled};
use crate::game_data::GameData;
use crate::ids::{OperatorId, RoomId};
use crate::seqs::{first_index, lemma_first_index, lemma_first_index_is, lemma_first_index_none};
use crate::text::{append_decimal, decimal, chars_lt, str_eq, str_lt, lemma_chars_lt_irreflexive, lemma_chars_lt_transitive, lemma_chars_lt_total};

verus! {

/// One stationing position: a room and a 0-based index within it.
#[derive(Debug, Clone, PartialEq, Eq, Hash, PartialOrd, Ord)]
pub struct Slot {
    /// The room.
    pub room: RoomId,
    /// Position within the room, `0..capacity`.
    pub index: u8,
}

impl Slot {
    /// Constructs a slot.
    pub fn new(room: &str, index: u8) -> (r: Self)
        ensures
            r.room@ == room@,
            r.index == index,
    {
        Slot { room: RoomId::new(room), index }
    }

    /// A copy of this slot.
    pub fn duplicate(&self) -> (r: Self)
        ensures
            r == *self,
    {
        Slot { room: self.room.duplicate(), index: self.index }
    }

    /// Whether two slots name the same room and index.
    pub fn same(&self, other: &Slot) -> (r: bool)
        ensures
            r == (self.room@ == other.room@ && self.index == other.index),
    {
        self.index == other.index && self.room.same(&other.room)
    }
}

/// Why a placement was refused.
#[derive(Debug, Clone, PartialEq, Eq)]
pub enum PlaceError {
    /// The assignment has no such room.
    NoSuchRoom(RoomId),
    /// Index beyond the room's capacity.
    IndexOutOfRange { slot: Slot, capacity: usize },
    /// The operator is already stationed elsewhere.
    AlreadyAssigned { operator: OperatorId, at: Slot },
}

/// Why an assignment does not fit a base.
#[derive(Debug, Clone, PartialEq, Eq)]
pub enum AssignmentError {
    /// An operator appears in two slots.
    Duplicate(OperatorId),
    /// The base has a room the assignment lacks.
    MissingRoom(RoomId),
    /// The assignment has a room the base lacks.
    UnknownRoom(RoomId),
    /// A room's slot count does not match its capacity at its level.
    WrongCapacity { room: RoomId, expected: usize, found: usize },
}

/// Rooms in label order, each with the operator ids in its slots.
pub type AssignmentView = Seq<(Seq<char>, Seq<Option<Seq<char>>>)>;

/// The characters of an occupant, if any.
pub open spec fn cell_view(o: Option<OperatorId>) -> Option<Seq<char>> {
    match o {
        Some(x) => Some(x@),
        None => None,
    }
}

/// The characters of the occupants of a room's slots.
pub open spec fn cells_view(c: Seq<Option<OperatorId>>) -> Seq<Option<Seq<char>>> {
    c.map_values(|o: Option<OperatorId>| cell_view(o))
}

/// The view of one room entry.
pub open spec fn entry_view(e: (RoomId, Vec<Option<OperatorId>>)) -> (Seq<char>, Seq<Option<Seq<char>>>) {
    (e.0@, cells_view(e.1@))
}

/// The view of a list of room entries.
pub open spec fn entries_view(s: Seq<(RoomId, Vec<Option<OperatorId>>)>) -> AssignmentView {
    s.map_values(|e: (RoomId, Vec<Option<OperatorId>>)| entry_view(e))
}

/// Whether a room entry carries a label.
pub open spec fn label_is(room: Seq<char>) -> spec_fn((Seq<char>, Seq<Option<Seq<char>>>)) -> bool {
    |e: (Seq<char>, Seq<Option<Seq<char>>>)| e.0 == room
}

/// Position of a room label, or -1.
pub open spec fn key_index(v: AssignmentView, room: Seq<char>) -> int {
    first_index(v, label_is(room))
}

/// Whether a room has a slot at an index.
pub open spec fn slot_exists(v: AssignmentView, room: Seq<char>, index: int) -> bool {
    key_index(v, room) >= 0 && 0 <= index < v[key_index(v, room)].1.len()
}

/// Who occupies a slot; `None` for an empty or missing slot.
pub open spec fn occupant(v: AssignmentView, room: Seq<char>, index: int) -> Option<Seq<char>> {
    if slot_exists(v, room, index) {
        v[key_index(v, room)].1[index]
    } else {
        None
    }
}

/// Whether an operator sits in the cell at room position `r`, slot `i`.
pub open spec fn holds_at(v: AssignmentView, r: int, i: int, op: Seq<char>) -> bool {
    0 <= r < v.len() && 0 <= i < v[r].1.len() && v[r].1[i] == Some(op)
}

/// Whether an operator is stationed anywhere.
pub open spec fn is_placed(v: AssignmentView, op: Seq<char>) -> bool {
    exists|r: int, i: int| #[trigger] holds_at(v, r, i, op)
}

/// Room labels strictly increase.
pub open spec fn sorted_keys(v: AssignmentView) -> bool {
    forall|a: int, b: int| 0 <= a < b < v.len() ==> chars_lt(v[a].0, v[b].0)
}

/// No operator occupies two cells.
pub open spec fn unique_operators(v: AssignmentView) -> bool {
    forall|r1: int, i1: int, r2: int, i2: int, op: Seq<char>|
        holds_at(v, r1, i1, op) && holds_at(v, r2, i2, op) ==> r1 == r2 && i1 == i2
}

/// Every slot of every room has a `u8` index.
pub open spec fn small_rooms(v: AssignmentView) -> bool {
    forall|r: int| 0 <= r < v.len() ==> v[r].1.len() <= 256
}

/// The invariants every assignment keeps.
pub open spec fn wf_view(v: AssignmentView) -> bool {
    sorted_keys(v) && unique_operators(v)
}

/// The room at position `r` with slot `i` set to `x`.
pub open spec fn set_cell(v: AssignmentView, r: int, i: int, x: Option<Seq<char>>) -> AssignmentView {
    v.update(r, (v[r].0, v[r].1.update(i, x)))
}

/// Whether an operator sits in the room at position `r`.
pub open spec fn placed_in_room(v: AssignmentView, r: int, op: Seq<char>) -> bool {
    exists|i: int| #[trigger] holds_at(v, r, i, op)
}

/// The room position of a stationed operator.
pub open spec fn loc_room(v: AssignmentView, op: Seq<char>) -> int {
    choose|r: int| #[trigger] placed_in_room(v, r, op)
}

/// The slot index of a stationed operator.
pub open spec fn loc_index(v: AssignmentView, op: Seq<char>) -> int {
    choose|i: int| holds_at(v, loc_room(v, op), i, op)
}

/// A slot index as `u8`, saturating.
pub open spec fn idx8(i: int) -> u8 {
    if i <= 255 {
        i as u8
    } else {
        255
    }
}

/// Who is stationed where. See the module docs for the invariants.
#[derive(Debug, Clone, PartialEq, Eq)]
pub struct Assignment {
    rooms: Vec<(RoomId, Vec<Option<OperatorId>>)>,
}

impl View for Assignment {
    type V = AssignmentView;

    closed spec fn view(&self) -> AssignmentView {
        entries_view(self.rooms@)
    }
}

/// In a well-formed view, a stationed operator's location is where it sits.
pub proof fn lemma_loc(v: AssignmentView, op: Seq<char>, r: int, i: int)
    requires
        unique_operators(v),
        holds_at(v, r, i, op),
    ensures
        loc_room(v, op) == r,
        loc_index(v, op) == i,
{
    assert(placed_in_room(v, r, op));
    let rr = loc_room(v, op);
    assert(placed_in_room(v, rr, op));
    let ii = loc_index(v, op);
    assert(holds_at(v, rr, ii, op));
}

/// A label sits at the position `key_index` names, and nowhere else.
pub proof fn lemma_key_index(v: AssignmentView, room: Seq<char>)
    ensures
        -1 <= key_index(v, room) < v.len(),
        key_index(v, room) >= 0 ==> v[key_index(v, room)].0 == room,
        key_index(v, room) < 0 ==> forall|r: int| 0 <= r < v.len() ==> v[r].0 != room,
{
    lemma_first_index(v, label_is(room));
}

/// With sorted labels, a room's position is the position of its label.
pub proof fn lemma_key_index_of(v: AssignmentView, r: int)
    requires
        sorted_keys(v),
        0 <= r < v.len(),
    ensures
        key_index(v, v[r].0) == r,
{
    let p = label_is(v[r].0);
    assert forall|j: int| 0 <= j < r implies !p(v[j]) by {
        lemma_chars_lt_irreflexive(v[r].0);
    }
    lemma_first_index_is(v, p, r);
}


/// Setting a cell leaves the labels, and so every label's position, alone.
pub proof fn lemma_set_cell_keys(v: AssignmentView, r: int, i: int, x: Option<Seq<char>>, room: Seq<char>)
    requires
        0 <= r < v.len(),
    ensures
        set_cell(v, r, i, x).len() == v.len(),
        forall|q: int| 0 <= q < v.len() ==> #[trigger] set_cell(v, r, i, x)[q].0 == v[q].0,
        key_index(set_cell(v, r, i, x), room) == key_index(v, room),
        sorted_keys(v) ==> sorted_keys(set_cell(v, r, i, x)),
{
    let w = set_cell(v, r, i, x);
    assert forall|q: int| 0 <= q < v.len() implies #[trigger] w[q].0 == v[q].0 by {}
    lemma_key_index(v, room);
    let k = key_index(v, room);
    let p = label_is(room);
    lemma_first_index(v, p);
    assert forall|j: int| 0 <= j < v.len() implies p(w[j]) == p(v[j]) by {
        assert(w[j].0 == v[j].0);
    }
    if k >= 0 {
        lemma_first_index_is(w, p, k);
    } else {
        lemma_first_index_none(w, p);
    }
}

/// Who holds a cell after one cell is set.
pub proof fn lemma_set_cell_holds(v: AssignmentView, r: int, i: int, x: Option<Seq<char>>)
    requires
        0 <= r < v.len(),
        0 <= i < v[r].1.len(),
    ensures
        forall|q: int, j: int, op: Seq<char>| #[trigger] holds_at(set_cell(v, r, i, x), q, j, op) <==> (
            if q == r && j == i {
                x == Some(op)
            } else {
                holds_at(v, q, j, op)
            }),
{
}

/// Clearing a cell keeps operators unique.
pub proof fn lemma_clear_unique(v: AssignmentView, r: int, i: int)
    requires
        unique_operators(v),
        0 <= r < v.len(),
        0 <= i < v[r].1.len(),
    ensures
        unique_operators(set_cell(v, r, i, None)),
{
    lemma_set_cell_holds(v, r, i, None);
}

/// Putting an operator who is not stationed into a cell keeps operators
/// unique.
pub proof fn lemma_fill_unique(v: AssignmentView, r: int, i: int, op: Seq<char>)
    requires
        unique_operators(v),
        !is_placed(v, op),
        0 <= r < v.len(),
        0 <= i < v[r].1.len(),
    ensures
        unique_operators(set_cell(v, r, i, Some(op))),
        is_placed(set_cell(v, r, i, Some(op)), op),
{
    let w = set_cell(v, r, i, Some(op));
    lemma_set_cell_holds(v, r, i, Some(op));
    assert(holds_at(w, r, i, op));
    assert forall|r1: int, i1: int, r2: int, i2: int, o: Seq<char>|
        holds_at(w, r1, i1, o) && holds_at(w, r2, i2, o) implies r1 == r2 && i1 == i2 by {
        if !(r1 == r && i1 == i) && !(r2 == r && i2 == i) {
        } else if r1 == r && i1 == i && !(r2 == r && i2 == i) {
            assert(holds_at(v, r2, i2, o));
        } else if r2 == r && i2 == i && !(r1 == r && i1 == i) {
            assert(holds_at(v, r1, i1, o));
        }
    }
}

/// A slot index as `u8`, saturating.
pub(crate) fn index_u8(i: usize) -> (r: u8)
    ensures
        r == idx8(i as int),
{
    if i <= 255 {
        i as u8
    } else {
        255
    }
}

impl Assignment {
    /// The invariants: labels in order, nobody stationed twice.
    pub open spec fn wf(&self) -> bool {
        wf_view(self@)
    }

    /// Position of a room's entry.
    fn find_room(&self, room: &str) -> (r: Option<usize>)
        ensures
            match r {
                Some(k) => k == key_index(self@, room@) && k < self@.len(),
                None => key_index(self@, room@) == -1,
            },
    {
        let ghost p = label_is(room@);
        let mut i: usize = 0;
        while i < self.rooms.len()
            invariant
                p == label_is(room@),
                i <= self.rooms@.len(),
                self@ == entries_view(self.rooms@),
                forall|j: int| 0 <= j < i ==> !p(self@[j]),
            decreases self.rooms@.len() - i,
        {
            if str_eq(self.rooms[i].0.as_str(), room) {
                proof {
                    lemma_first_index_is(self@, p, i as int);
                }
                return Some(i);
            }
            i = i + 1;
        }
        proof {
            lemma_first_index_none(self@, p);
        }
        None
    }

    /// Where an operator is stationed.
    pub fn locate(&self, op: &str) -> (r: Option<Slot>)
        requires
            self.wf(),
        ensures
            match r {
                Some(s) => is_placed(self@, op@) && s.room@ == self@[loc_room(self@, op@)].0
                    && s.index == idx8(loc_index(self@, op@)),
                None => !is_placed(self@, op@),
            },
    {
        let ghost v = self@;
        let mut r: usize = 0;
        while r < self.rooms.len()
            invariant
                v == self@,
                v == entries_view(self.rooms@),
                wf_view(v),
                r <= v.len(),
                forall|q: int, j: int| 0 <= q < r ==> !#[trigger] holds_at(v, q, j, op@),
            decreases self.rooms@.len() - r,
        {
            let cells = &self.rooms[r].1;
            let mut i: usize = 0;
            while i < cells.len()
                invariant
                    v == entries_view(self.rooms@),
                    wf_view(v),
                    r < v.len(),
                    *cells == self.rooms@[r as int].1,
                    i <= cells@.len(),
                    forall|j: int| 0 <= j < i ==> !#[trigger] holds_at(v, r as int, j, op@),
                decreases cells@.len() - i,
            {
                let hit = match &cells[i] {
                    Some(o) => str_eq(o.as_str(), op),
                    None => false,
                };
                if hit {
                    proof {
                        assert(holds_at(v, r as int, i as int, op@));
                        lemma_loc(v, op@, r as int, i as int);
                    }
                    return Some(Slot { room: self.rooms[r].0.duplicate(), index: index_u8(i) });
                }
                i = i + 1;
            }
            r = r + 1;
        }
        None
    }
}


/// What `place` does: stations `op` at `slot` and hands back whoever sat
/// there, or refuses, leaving the assignment as it was.
pub open spec fn place_outcome(
    v: AssignmentView,
    slot: Slot,
    op: OperatorId,
    r: Result<Option<OperatorId>, PlaceError>,
    after: AssignmentView,
) -> bool {
    if is_placed(v, op@) {
        let lr = loc_room(v, op@);
        let li = loc_index(v, op@);
        after == v && if v[lr].0 == slot.room@ && idx8(li) == slot.index {
            r == Ok::<Option<OperatorId>, PlaceError>(None)
        } else {
            r matches Err(PlaceError::AlreadyAssigned { operator, at }) && operator == op && at.room@
                == v[lr].0 && at.index == idx8(li)
        }
    } else if key_index(v, slot.room@) < 0 {
        after == v && (r matches Err(PlaceError::NoSuchRoom(room)) && room@ == slot.room@)
    } else if slot.index >= v[key_index(v, slot.room@)].1.len() {
        after == v && (r matches Err(PlaceError::IndexOutOfRange { slot: s, capacity }) && s.room@
            == slot.room@ && s.index == slot.index && capacity == v[key_index(
            v,
            slot.room@,
        )].1.len())
    } else {
        let k = key_index(v, slot.room@);
        after == set_cell(v, k, slot.index as int, Some(op@)) && (r matches Ok(prev) && cell_view(
            prev,
        ) == v[k].1[slot.index as int])
    }
}

/// The view after `place` puts `op` in `slot`, or `None` when `place`
/// refuses.
pub open spec fn placed_view(v: AssignmentView, slot: Slot, op: Seq<char>) -> Option<AssignmentView> {
    if is_placed(v, op) {
        if v[loc_room(v, op)].0 == slot.room@ && idx8(loc_index(v, op)) == slot.index {
            Some(v)
        } else {
            None
        }
    } else if slot_exists(v, slot.room@, slot.index as int) {
        Some(set_cell(v, key_index(v, slot.room@), slot.index as int, Some(op)))
    } else {
        None
    }
}

/// What `remove` does: empties `slot` and hands back whoever sat there, or,
/// for a slot the assignment lacks, changes nothing and hands back nobody.
pub open spec fn remove_outcome(v: AssignmentView, slot: Slot, r: Option<OperatorId>, after: AssignmentView) -> bool {
    if slot_exists(v, slot.room@, slot.index as int) {
        let k = key_index(v, slot.room@);
        &&& after == set_cell(v, k, slot.index as int, None)
        &&& cell_view(r) == v[k].1[slot.index as int]
    } else {
        after == v && r is None
    }
}

/// The view after `remove` empties `slot`.
pub open spec fn cleared_view(v: AssignmentView, slot: Slot) -> AssignmentView {
    if slot_exists(v, slot.room@, slot.index as int) {
        set_cell(v, key_index(v, slot.room@), slot.index as int, None)
    } else {
        v
    }
}

impl Assignment {
    /// Replaces one cell, returning its previous occupant.
    fn put(&mut self, k: usize, i: usize, x: Option<OperatorId>) -> (prev: Option<OperatorId>)
        requires
            k < old(self)@.len(),
            i < old(self)@[k as int].1.len(),
        ensures
            final(self)@ == set_cell(old(self)@, k as int, i as int, cell_view(x)),
            cell_view(prev) == old(self)@[k as int].1[i as int],
    {
        let ghost v = self@;
        let ghost x_view = cell_view(x);
        let prev = match &self.rooms[k].1[i] {
            Some(o) => Some(o.duplicate()),
            None => None,
        };
        self.rooms[k].1.set(i, x);
        proof {
            assert(self@[k as int].1 =~= v[k as int].1.update(i as int, x_view));
            assert(self@ =~= set_cell(v, k as int, i as int, x_view));
        }
        prev
    }

    /// Stations `op` at `slot`, returning whoever was displaced. Fails if
    /// `op` is already stationed at a different slot.
    pub fn place(&mut self, slot: &Slot, op: OperatorId) -> (r: Result<Option<OperatorId>, PlaceError>)
        requires
            old(self).wf(),
        ensures
            final(self).wf(),
            place_outcome(old(self)@, *slot, op, r, final(self)@),
    {
        match self.locate(op.as_str()) {
            Some(at) => {
                if at.same(slot) {
                    Ok(None)
                } else {
                    Err(PlaceError::AlreadyAssigned { operator: op, at })
                }
            },
            None => match self.find_room(slot.room.as_str()) {
                None => Err(PlaceError::NoSuchRoom(slot.room.duplicate())),
                Some(k) => {
                    let capacity = self.rooms[k].1.len();
                    let i = slot.index as usize;
                    if i >= capacity {
                        Err(PlaceError::IndexOutOfRange { slot: slot.duplicate(), capacity })
                    } else {
                        let ghost v = self@;
                        let ghost o = op@;
                        proof {
                            lemma_fill_unique(v, k as int, i as int, o);
                            lemma_set_cell_keys(v, k as int, i as int, Some(o), slot.room@);
                        }
                        let prev = self.put(k, i, Some(op));
                        Ok(prev)
                    }
                }
            },
        }
    }

    /// Clears a slot, returning its occupant. `None` if the slot does not
    /// exist or was empty.
    pub fn remove(&mut self, slot: &Slot) -> (r: Option<OperatorId>)
        requires
            old(self).wf(),
        ensures
            final(self).wf(),
            remove_outcome(old(self)@, *slot, r, final(self)@),
    {
        match self.find_room(slot.room.as_str()) {
            None => None,
            Some(k) => {
                let i = slot.index as usize;
                if i >= self.rooms[k].1.len() {
                    None
                } else {
                    let ghost v = self@;
                    proof {
                        lemma_clear_unique(v, k as int, i as int);
                        lemma_set_cell_keys(v, k as int, i as int, None, slot.room@);
                    }
                    self.put(k, i, None)
                }
            },
        }
    }
}


/// Two views are equal when their labels and cells agree.
pub proof fn lemma_view_ext(a: AssignmentView, b: AssignmentView)
    requires
        a.len() == b.len(),
        forall|q: int| 0 <= q < a.len() ==> a[q].0 == b[q].0 && a[q].1.len() == b[q].1.len(),
        forall|q: int, j: int| 0 <= q < a.len() && 0 <= j < a[q].1.len() ==> a[q].1[j] == b[q].1[j],
    ensures
        a == b,
{
    assert forall|q: int| 0 <= q < a.len() implies a[q] == b[q] by {
        assert(a[q].1 =~= b[q].1);
    }
    assert(a =~= b);
}

/// A stationed operator sits where `loc_room` and `loc_index` say.
pub proof fn lemma_placed(v: AssignmentView, op: Seq<char>)
    requires
        unique_operators(v),
        is_placed(v, op),
    ensures
        holds_at(v, loc_room(v, op), loc_index(v, op), op),
{
    let (r, i) = choose|r: int, i: int| #[trigger] holds_at(v, r, i, op);
    lemma_loc(v, op, r, i);
}

/// The view with the occupants of two cells exchanged.
pub open spec fn swapped(v: AssignmentView, ka: int, ia: int, kb: int, ib: int) -> AssignmentView {
    set_cell(set_cell(v, ka, ia, v[kb].1[ib]), kb, ib, v[ka].1[ia])
}

/// The view with an operator taken off the cell `locate` finds.
pub open spec fn unstationed(v: AssignmentView, op: Seq<char>) -> AssignmentView {
    if is_placed(v, op) {
        set_cell(v, loc_room(v, op), idx8(loc_index(v, op)) as int, None)
    } else {
        v
    }
}

/// What `move_to` does: takes `op` off wherever it sits and places it at
/// `slot`, or, for a slot the assignment lacks, changes nothing and refuses.
pub open spec fn move_outcome(
    v: AssignmentView,
    op: OperatorId,
    slot: Slot,
    r: Result<Option<OperatorId>, PlaceError>,
    after: AssignmentView,
) -> bool {
    if slot_exists(v, slot.room@, slot.index as int) {
        place_outcome(unstationed(v, op@), slot, op, r, after)
    } else {
        &&& after == v
        &&& r is Err
        &&& slot_refusal(v, slot, Err(r->Err_0))
    }
}

/// What `swap` does: exchanges the occupants of two slots, or, when either
/// slot is missing, changes nothing and refuses for the first missing one.
pub open spec fn swap_outcome(v: AssignmentView, a: Slot, b: Slot, r: Result<(), PlaceError>, after: AssignmentView) -> bool {
    if !slot_exists(v, a.room@, a.index as int) {
        after == v && slot_refusal(v, a, r)
    } else if !slot_exists(v, b.room@, b.index as int) {
        after == v && slot_refusal(v, b, r)
    } else {
        &&& r is Ok
        &&& after == swapped(v, key_index(v, a.room@), a.index as int, key_index(v, b.room@), b.index as int)
    }
}

/// Whether a slot names a room of the view and an index within it, and
/// otherwise which refusal `cell_mut` gives.
pub open spec fn slot_refusal(v: AssignmentView, slot: Slot, r: Result<(), PlaceError>) -> bool {
    if key_index(v, slot.room@) < 0 {
        r matches Err(PlaceError::NoSuchRoom(room)) && room@ == slot.room@
    } else {
        r matches Err(PlaceError::IndexOutOfRange { slot: s, capacity }) && s.room@ == slot.room@
            && s.index == slot.index && capacity == v[key_index(v, slot.room@)].1.len()
    }
}

impl Assignment {
    /// Checks that a slot exists, as `cell_mut` does before any change.
    fn check_slot(&self, slot: &Slot) -> (r: Result<usize, PlaceError>)
        ensures
            match r {
                Ok(k) => k == key_index(self@, slot.room@) && k < self@.len() && slot_exists(
                    self@,
                    slot.room@,
                    slot.index as int,
                ),
                Err(e) => !slot_exists(self@, slot.room@, slot.index as int) && slot_refusal(
                    self@,
                    *slot,
                    Err(e),
                ),
            },
    {
        match self.find_room(slot.room.as_str()) {
            None => Err(PlaceError::NoSuchRoom(slot.room.duplicate())),
            Some(k) => {
                let capacity = self.rooms[k].1.len();
                if slot.index as usize >= capacity {
                    Err(PlaceError::IndexOutOfRange { slot: slot.duplicate(), capacity })
                } else {
                    Ok(k)
                }
            },
        }
    }

    /// Moves `op` to `slot` from wherever they are (or from the bench),
    /// returning whoever was displaced.
    pub fn move_to(&mut self, op: &OperatorId, slot: &Slot) -> (r: Result<Option<OperatorId>, PlaceError>)
        requires
            old(self).wf(),
        ensures
            final(self).wf(),
            move_outcome(old(self)@, *op, *slot, r, final(self)@),
    {
        match self.check_slot(slot) {
            Err(e) => {
                return Err(e);
            },
            Ok(_) => {},
        }
        let ghost v = self@;
        match self.locate(op.as_str()) {
            Some(from) => {
                proof {
                    lemma_placed(v, op@);
                    lemma_key_index_of(v, loc_room(v, op@));
                }
                self.remove(&from);
            },
            None => {},
        }
        proof {
            if is_placed(v, op@) {
                lemma_set_cell_keys(v, loc_room(v, op@), idx8(loc_index(v, op@)) as int, None, slot.room@);
            }
        }
        self.place(slot, op.duplicate())
    }
}


/// Exchanging the same two cells twice gives back the view.
pub proof fn lemma_swapped_twice(v: AssignmentView, ka: int, ia: int, kb: int, ib: int)
    requires
        0 <= ka < v.len(),
        0 <= ia < v[ka].1.len(),
        0 <= kb < v.len(),
        0 <= ib < v[kb].1.len(),
    ensures
        swapped(swapped(v, ka, ia, kb, ib), ka, ia, kb, ib) == v,
{
    let w = swapped(swapped(v, ka, ia, kb, ib), ka, ia, kb, ib);
    lemma_view_ext(w, v);
}

impl Assignment {
    /// Exchanges the occupants of two slots (either may be empty).
    pub fn swap(&mut self, a: &Slot, b: &Slot) -> (r: Result<(), PlaceError>)
        requires
            old(self).wf(),
        ensures
            final(self).wf(),
            swap_outcome(old(self)@, *a, *b, r, final(self)@),
    {
        let ghost v = self@;
        let ka = match self.check_slot(a) {
            Err(e) => {
                return Err(e);
            },
            Ok(k) => k,
        };
        let kb = match self.check_slot(b) {
            Err(e) => {
                return Err(e);
            },
            Ok(k) => k,
        };
        let ghost ia = a.index as int;
        let ghost ib = b.index as int;
        let ghost ca = v[ka as int].1[ia];
        let ghost cb = v[kb as int].1[ib];
        if a.same(b) {
            proof {
                lemma_view_ext(swapped(v, ka as int, ia, kb as int, ib), v);
            }
            return Ok(());
        }
        proof {
            lemma_key_index(v, a.room@);
            lemma_key_index(v, b.room@);
            assert(ka != kb || ia != ib);
        }
        let x = self.remove(a);
        let ghost v1 = self@;
        proof {
            lemma_set_cell_keys(v, ka as int, ia, None, b.room@);
            lemma_set_cell_keys(v, ka as int, ia, None, a.room@);
        }
        let y = self.remove(b);
        let ghost v2 = self@;
        proof {
            lemma_set_cell_keys(v1, kb as int, ib, None, a.room@);
            lemma_set_cell_keys(v1, kb as int, ib, None, b.room@);
            lemma_set_cell_holds(v, ka as int, ia, None);
            lemma_set_cell_holds(v1, kb as int, ib, None);
        }
        match y {
            Some(y) => {
                proof {
                    assert(holds_at(v, kb as int, ib, y@));
                    assert(!is_placed(v2, y@)) by {
                        if is_placed(v2, y@) {
                            let (q, j) = choose|q: int, j: int| #[trigger] holds_at(v2, q, j, y@);
                            assert(holds_at(v, q, j, y@));
                        }
                    }
                }
                match self.place(a, y) {
                    Err(e) => {
                        return Err(e);
                    },
                    Ok(_) => {},
                }
            },
            None => {
                proof {
                    lemma_view_ext(v2, set_cell(v2, ka as int, ia, cb));
                }
            },
        }
        let ghost v3 = self@;
        proof {
            assert(v3 == set_cell(v2, ka as int, ia, cb));
            lemma_set_cell_keys(v2, ka as int, ia, cb, b.room@);
            lemma_set_cell_holds(v2, ka as int, ia, cb);
        }
        match x {
            Some(x) => {
                proof {
                    assert(holds_at(v, ka as int, ia, x@));
                    assert(!is_placed(v3, x@)) by {
                        if is_placed(v3, x@) {
                            let (q, j) = choose|q: int, j: int| #[trigger] holds_at(v3, q, j, x@);
                            if q == ka && j == ia {
                                assert(holds_at(v, kb as int, ib, x@));
                            } else {
                                assert(holds_at(v, q, j, x@));
                            }
                        }
                    }
                }
                match self.place(b, x) {
                    Err(e) => {
                        return Err(e);
                    },
                    Ok(_) => {},
                }
            },
            None => {
                proof {
                    lemma_view_ext(v3, set_cell(v3, kb as int, ib, ca));
                }
            },
        }
        proof {
            lemma_view_ext(self@, swapped(v, ka as int, ia, kb as int, ib));
        }
        Ok(())
    }
}


/// The operators in a room's cells, in slot order.
pub open spec fn present(c: Seq<Option<Seq<char>>>) -> Seq<Seq<char>>
    decreases c.len(),
{
    if c.len() == 0 {
        Seq::empty()
    } else {
        let prev = present(c.drop_last());
        match c.last() {
            Some(o) => prev.push(o),
            None => prev,
        }
    }
}

/// The occupied cells of one room as (room, index, operator), in slot order.
pub open spec fn room_occupied(key: Seq<char>, c: Seq<Option<Seq<char>>>) -> Seq<(Seq<char>, u8, Seq<char>)>
    decreases c.len(),
{
    if c.len() == 0 {
        Seq::empty()
    } else {
        let prev = room_occupied(key, c.drop_last());
        match c.last() {
            Some(o) => prev.push((key, idx8(c.len() - 1), o)),
            None => prev,
        }
    }
}

/// The empty cells of one room as (room, index), in slot order.
pub open spec fn room_vacant(key: Seq<char>, c: Seq<Option<Seq<char>>>) -> Seq<(Seq<char>, u8)>
    decreases c.len(),
{
    if c.len() == 0 {
        Seq::empty()
    } else {
        let prev = room_vacant(key, c.drop_last());
        match c.last() {
            Some(o) => prev,
            None => prev.push((key, idx8(c.len() - 1))),
        }
    }
}

/// Every stationed operator, rooms in label order.
pub open spec fn all_operators(v: AssignmentView) -> Seq<Seq<char>>
    decreases v.len(),
{
    if v.len() == 0 {
        Seq::empty()
    } else {
        all_operators(v.drop_last()) + present(v.last().1)
    }
}

/// Every occupied cell, rooms in label order.
pub open spec fn all_occupied(v: AssignmentView) -> Seq<(Seq<char>, u8, Seq<char>)>
    decreases v.len(),
{
    if v.len() == 0 {
        Seq::empty()
    } else {
        all_occupied(v.drop_last()) + room_occupied(v.last().0, v.last().1)
    }
}

/// Every empty cell, rooms in label order.
pub open spec fn all_vacant(v: AssignmentView) -> Seq<(Seq<char>, u8)>
    decreases v.len(),
{
    if v.len() == 0 {
        Seq::empty()
    } else {
        all_vacant(v.drop_last()) + room_vacant(v.last().0, v.last().1)
    }
}

/// The number of cells over all rooms.
pub open spec fn total_cells(v: AssignmentView) -> int
    decreases v.len(),
{
    if v.len() == 0 {
        0
    } else {
        total_cells(v.drop_last()) + v.last().1.len()
    }
}

/// One more cell of a room, one more step of each per-room listing.
proof fn lemma_room_step(key: Seq<char>, c: Seq<Option<Seq<char>>>, i: int)
    requires
        0 <= i < c.len(),
    ensures
        present(c.take(i + 1)) == (match c[i] {
            Some(o) => present(c.take(i)).push(o),
            None => present(c.take(i)),
        }),
        room_occupied(key, c.take(i + 1)) == (match c[i] {
            Some(o) => room_occupied(key, c.take(i)).push((key, idx8(i), o)),
            None => room_occupied(key, c.take(i)),
        }),
        room_vacant(key, c.take(i + 1)) == (match c[i] {
            Some(o) => room_vacant(key, c.take(i)),
            None => room_vacant(key, c.take(i)).push((key, idx8(i))),
        }),
{
    assert(c.take(i + 1).drop_last() =~= c.take(i));
}

/// One more room, one more step of each listing.
proof fn lemma_rooms_step(v: AssignmentView, r: int)
    requires
        0 <= r < v.len(),
    ensures
        all_operators(v.take(r + 1)) == all_operators(v.take(r)) + present(v[r].1),
        all_occupied(v.take(r + 1)) == all_occupied(v.take(r)) + room_occupied(v[r].0, v[r].1),
        all_vacant(v.take(r + 1)) == all_vacant(v.take(r)) + room_vacant(v[r].0, v[r].1),
        total_cells(v.take(r + 1)) == total_cells(v.take(r)) + v[r].1.len(),
{
    assert(v.take(r + 1).drop_last() =~= v.take(r));
}

/// Each cell of a room is either occupied or vacant.
proof fn lemma_room_counts(key: Seq<char>, c: Seq<Option<Seq<char>>>)
    ensures
        present(c).len() + room_vacant(key, c).len() == c.len(),
        room_occupied(key, c).len() == present(c).len(),
    decreases c.len(),
{
    if c.len() > 0 {
        lemma_room_counts(key, c.drop_last());
    }
}

/// Every cell of an assignment is either occupied or vacant: the number of
/// stationed operators and the number of vacancies add up to the number of
/// slots.
pub proof fn lemma_cells_partition(v: AssignmentView)
    ensures
        all_operators(v).len() + all_vacant(v).len() == total_cells(v),
        all_occupied(v).len() == all_operators(v).len(),
    decreases v.len(),
{
    if v.len() > 0 {
        lemma_cells_partition(v.drop_last());
        lemma_room_counts(v.last().0, v.last().1);
    }
}

/// The view of a listed occupied slot.
pub open spec fn occupied_view(t: (Slot, &OperatorId)) -> (Seq<char>, u8, Seq<char>) {
    (t.0.room@, t.0.index, t.1@)
}

/// The view of a listed slot.
pub open spec fn slot_view(t: Slot) -> (Seq<char>, u8) {
    (t.room@, t.index)
}

/// The view of a listed operator.
pub open spec fn op_view(o: &OperatorId) -> Seq<char> {
    o@
}

impl Assignment {
    /// The slots of a room, `None` if the room is unknown.
    pub fn slots(&self, room: &str) -> (r: Option<&[Option<OperatorId>]>)
        ensures
            match r {
                Some(s) => key_index(self@, room@) >= 0 && cells_view(s@) == self@[key_index(
                    self@,
                    room@,
                )].1,
                None => key_index(self@, room@) < 0,
            },
    {
        match self.find_room(room) {
            Some(k) => Some(self.rooms[k].1.as_slice()),
            None => None,
        }
    }

    /// Operators stationed in a room, in slot order.
    pub fn occupants(&self, room: &str) -> (r: Vec<&OperatorId>)
        ensures
            r@.map_values(|o: &OperatorId| op_view(o)) == (if key_index(self@, room@) >= 0 {
                present(self@[key_index(self@, room@)].1)
            } else {
                Seq::empty()
            }),
    {
        let mut out: Vec<&OperatorId> = Vec::new();
        match self.find_room(room) {
            None => {
                proof {
                    assert(out@.map_values(|o: &OperatorId| op_view(o)) =~= Seq::empty());
                }
            },
            Some(k) => {
                let cells = &self.rooms[k].1;
                let ghost c = self@[k as int].1;
                let mut i: usize = 0;
                while i < cells.len()
                    invariant
                        c == cells_view(cells@),
                        i <= cells@.len(),
                        out@.map_values(|o: &OperatorId| op_view(o)) == present(c.take(i as int)),
                    decreases cells@.len() - i,
                {
                    proof {
                        lemma_room_step(room@, c, i as int);
                    }
                    let ghost before = out@;
                    match &cells[i] {
                        Some(o) => {
                            out.push(o);
                            proof {
                                assert(out@.map_values(|o: &OperatorId| op_view(o)) =~= before.map_values(
                                    |o: &OperatorId| op_view(o),
                                ).push(o@));
                            }
                        },
                        None => {},
                    }
                    i = i + 1;
                }
                proof {
                    assert(c.take(c.len() as int) =~= c);
                }
            },
        }
        out
    }

    /// Room labels, sorted.
    pub fn rooms(&self) -> (r: Vec<&RoomId>)
        ensures
            r@.len() == self@.len(),
            forall|q: int| 0 <= q < r@.len() ==> r@[q]@ == #[trigger] self@[q].0,
    {
        let mut out: Vec<&RoomId> = Vec::new();
        let mut q: usize = 0;
        while q < self.rooms.len()
            invariant
                self@ == entries_view(self.rooms@),
                q <= self.rooms@.len(),
                out@.len() == q,
                forall|j: int| 0 <= j < q ==> out@[j]@ == #[trigger] self@[j].0,
            decreases self.rooms@.len() - q,
        {
            out.push(&self.rooms[q].0);
            q = q + 1;
        }
        out
    }
}


impl Assignment {
    /// Every occupied slot, rooms in label order, slots in index order.
    pub fn iter(&self) -> (r: Vec<(Slot, &OperatorId)>)
        ensures
            r@.map_values(|t: (Slot, &OperatorId)| occupied_view(t)) == all_occupied(self@),
    {
        let ghost v = self@;
        let mut out: Vec<(Slot, &OperatorId)> = Vec::new();
        let mut q: usize = 0;
        while q < self.rooms.len()
            invariant
                v == entries_view(self.rooms@),
                q <= v.len(),
                out@.map_values(|t: (Slot, &OperatorId)| occupied_view(t)) == all_occupied(v.take(q as int)),
            decreases self.rooms@.len() - q,
        {
            let cells = &self.rooms[q].1;
            let ghost key = v[q as int].0;
            let ghost c = v[q as int].1;
            let ghost start = out@.map_values(|t: (Slot, &OperatorId)| occupied_view(t));
            let mut i: usize = 0;
            while i < cells.len()
                invariant
                    v == entries_view(self.rooms@),
                    q < v.len(),
                    key == v[q as int].0,
                    c == v[q as int].1,
                    c == cells_view(cells@),
                    i <= cells@.len(),
                    out@.map_values(|t: (Slot, &OperatorId)| occupied_view(t)) == start + room_occupied(key, c.take(i as int)),
                decreases cells@.len() - i,
            {
                proof {
                    lemma_room_step(key, c, i as int);
                }
                let ghost before = out@;
                match &cells[i] {
                    Some(o) => {
                        let slot = Slot { room: self.rooms[q].0.duplicate(), index: index_u8(i) };
                        out.push((slot, o));
                        proof {
                            assert(out@.map_values(|t: (Slot, &OperatorId)| occupied_view(t)) =~= before.map_values(
                                |t: (Slot, &OperatorId)| occupied_view(t),
                            ).push((key, idx8(i as int), o@)));
                        }
                    },
                    None => {},
                }
                i = i + 1;
            }
            proof {
                assert(c.take(c.len() as int) =~= c);
                lemma_rooms_step(v, q as int);
            }
            q = q + 1;
        }
        proof {
            assert(v.take(v.len() as int) =~= v);
        }
        out
    }

    /// Every stationed operator, rooms in label order.
    pub fn operators(&self) -> (r: Vec<&OperatorId>)
        ensures
            r@.map_values(|o: &OperatorId| op_view(o)) == all_operators(self@),
    {
        let ghost v = self@;
        let mut out: Vec<&OperatorId> = Vec::new();
        let mut q: usize = 0;
        while q < self.rooms.len()
            invariant
                v == entries_view(self.rooms@),
                q <= v.len(),
                out@.map_values(|o: &OperatorId| op_view(o)) == all_operators(v.take(q as int)),
            decreases self.rooms@.len() - q,
        {
            let cells = &self.rooms[q].1;
            let ghost key = v[q as int].0;
            let ghost c = v[q as int].1;
            let ghost start = out@.map_values(|o: &OperatorId| op_view(o));
            let mut i: usize = 0;
            while i < cells.len()
                invariant
                    v == entries_view(self.rooms@),
                    q < v.len(),
                    c == v[q as int].1,
                    c == cells_view(cells@),
                    i <= cells@.len(),
                    out@.map_values(|o: &OperatorId| op_view(o)) == start + present(c.take(i as int)),
                decreases cells@.len() - i,
            {
                proof {
                    lemma_room_step(key, c, i as int);
                }
                let ghost before = out@;
                match &cells[i] {
                    Some(o) => {
                        out.push(o);
                        proof {
                            assert(out@.map_values(|o: &OperatorId| op_view(o)) =~= before.map_values(
                                |o: &OperatorId| op_view(o),
                            ).push(o@));
                        }
                    },
                    None => {},
                }
                i = i + 1;
            }
            proof {
                assert(c.take(c.len() as int) =~= c);
                lemma_rooms_step(v, q as int);
            }
            q = q + 1;
        }
        proof {
            assert(v.take(v.len() as int) =~= v);
        }
        out
    }

    /// Number of stationed operators.
    pub fn len(&self) -> (r: usize)
        ensures
            r == all_operators(self@).len(),
    {
        let ops = self.operators();
        ops.len()
    }

    /// True when nobody is stationed.
    pub fn is_empty(&self) -> (r: bool)
        ensures
            r == (all_operators(self@).len() == 0),
    {
        self.len() == 0
    }

    /// Empty slots, rooms in label order, slots in index order.
    pub fn vacancies(&self) -> (r: Vec<Slot>)
        ensures
            r@.map_values(|t: Slot| slot_view(t)) == all_vacant(self@),
    {
        let ghost v = self@;
        let mut out: Vec<Slot> = Vec::new();
        let mut q: usize = 0;
        while q < self.rooms.len()
            invariant
                v == entries_view(self.rooms@),
                q <= v.len(),
                out@.map_values(|t: Slot| slot_view(t)) == all_vacant(v.take(q as int)),
            decreases self.rooms@.len() - q,
        {
            let cells = &self.rooms[q].1;
            let ghost key = v[q as int].0;
            let ghost c = v[q as int].1;
            let ghost start = out@.map_values(|t: Slot| slot_view(t));
            let mut i: usize = 0;
            while i < cells.len()
                invariant
                    v == entries_view(self.rooms@),
                    q < v.len(),
                    key == v[q as int].0,
                    c == v[q as int].1,
                    c == cells_view(cells@),
                    i <= cells@.len(),
                    out@.map_values(|t: Slot| slot_view(t)) == start + room_vacant(key, c.take(i as int)),
                decreases cells@.len() - i,
            {
                proof {
                    lemma_room_step(key, c, i as int);
                }
                let ghost before = out@;
                if cells[i].is_none() {
                    let slot = Slot { room: self.rooms[q].0.duplicate(), index: index_u8(i) };
                    out.push(slot);
                    proof {
                        assert(out@.map_values(|t: Slot| slot_view(t)) =~= before.map_values(
                            |t: Slot| slot_view(t),
                        ).push((key, idx8(i as int))));
                    }
                }
                i = i + 1;
            }
            proof {
                assert(c.take(c.len() as int) =~= c);
                lemma_rooms_step(v, q as int);
            }
            q = q + 1;
        }
        proof {
            assert(v.take(v.len() as int) =~= v);
        }
        out
    }
}


/// The rooms of a view as a map from label to cells.
pub open spec fn room_map(v: AssignmentView) -> Map<Seq<char>, Seq<Option<Seq<char>>>> {
    Map::new(|k: Seq<char>| key_index(v, k) >= 0, |k: Seq<char>| v[key_index(v, k)].1)
}

/// The map that inserting each entry in turn builds: a later entry for a
/// label replaces an earlier one.
pub open spec fn inserted(s: AssignmentView) -> Map<Seq<char>, Seq<Option<Seq<char>>>>
    decreases s.len(),
{
    if s.len() == 0 {
        Map::empty()
    } else {
        inserted(s.drop_last()).insert(s.last().0, s.last().1)
    }
}

/// No cell of the view is occupied.
pub open spec fn nobody_placed(v: AssignmentView) -> bool {
    forall|q: int, j: int| 0 <= q < v.len() && 0 <= j < v[q].1.len() ==> v[q].1[j] is None
}

/// Views with the same labels at the same positions find labels alike.
pub proof fn lemma_same_labels(a: AssignmentView, b: AssignmentView, k: Seq<char>)
    requires
        a.len() == b.len(),
        forall|q: int| 0 <= q < a.len() ==> a[q].0 == b[q].0,
    ensures
        key_index(a, k) == key_index(b, k),
{
    let p = label_is(k);
    lemma_first_index(a, p);
    assert forall|j: int| 0 <= j < a.len() implies p(a[j]) == p(b[j]) by {}
    let i = key_index(a, k);
    if i >= 0 {
        lemma_first_index_is(b, p, i);
    } else {
        lemma_first_index_none(b, p);
    }
}

/// In a sorted view, a label is a key of the room map exactly when some
/// room carries it, and maps to that room's cells.
pub proof fn lemma_room_map(v: AssignmentView, k: Seq<char>)
    requires
        sorted_keys(v),
    ensures
        room_map(v).dom().contains(k) <==> exists|q: int| 0 <= q < v.len() && #[trigger] v[q].0 == k,
        forall|q: int| 0 <= q < v.len() && #[trigger] v[q].0 == k ==> key_index(v, k) == q
            && room_map(v)[k] == v[q].1,
{
    lemma_key_index(v, k);
    assert forall|q: int| 0 <= q < v.len() && #[trigger] v[q].0 == k implies key_index(v, k) == q by {
        lemma_key_index_of(v, q);
    }
}

impl Assignment {
    /// Adds a room, or replaces the cells of a room with the same label,
    /// keeping labels in order.
    fn insert_room(&mut self, key: RoomId, cells: Vec<Option<OperatorId>>)
        requires
            sorted_keys(old(self)@),
        ensures
            sorted_keys(final(self)@),
            room_map(final(self)@) == room_map(old(self)@).insert(key@, cells_view(cells@)),
            nobody_placed(old(self)@) && (forall|j: int| 0 <= j < cells@.len() ==> cells@[j] is None)
                ==> nobody_placed(final(self)@),
    {
        let ghost v = self@;
        let ghost kv = key@;
        let ghost cv = cells_view(cells@);
        let mut i: usize = 0;
        let mut done = false;
        while !done && i < self.rooms.len()
            invariant
                v == self@,
                v == entries_view(self.rooms@),
                kv == key@,
                i <= v.len(),
                forall|j: int| 0 <= j < i ==> chars_lt(#[trigger] v[j].0, kv),
                done ==> i < v.len() && !chars_lt(v[i as int].0, kv),
            decreases v.len() - i + (if done { 0int } else { 1int }),
        {
            proof {
                assert(v[i as int] == entry_view(self.rooms@[i as int]));
            }
            if str_lt(self.rooms[i].0.as_str(), key.as_str()) {
                i = i + 1;
            } else {
                done = true;
            }
        }
        if i < self.rooms.len() && str_eq(self.rooms[i].0.as_str(), key.as_str()) {
            self.rooms.set(i, (key, cells));
            proof {
                let w = self@;
                assert(w =~= v.update(i as int, (kv, cv)));
                assert forall|k: Seq<char>| #[trigger] room_map(w).dom().contains(k) == room_map(v).insert(kv, cv).dom().contains(k)
                    && (room_map(w).dom().contains(k) ==> room_map(w)[k] == room_map(v).insert(kv, cv)[k]) by {
                    lemma_same_labels(w, v, k);
                    lemma_room_map(v, k);
                    lemma_key_index(v, k);
                    lemma_key_index_of(v, i as int);
                }
                assert(room_map(w) =~= room_map(v).insert(kv, cv));
            }
        } else {
            proof {
                if i < v.len() {
                    lemma_chars_lt_total(v[i as int].0, kv);
                }
            }
            self.rooms.insert(i, (key, cells));
            proof {
                let w = self@;
                let ii = i as int;
                assert(w =~= v.insert(ii, (kv, cv)));
                assert forall|a: int, b: int| 0 <= a < b < w.len() implies chars_lt(w[a].0, w[b].0) by {
                    if b < ii {
                    } else if b == ii {
                        assert(chars_lt(v[a].0, kv));
                    } else if a == ii {
                        if b - 1 > ii {
                            lemma_chars_lt_transitive(kv, v[ii].0, v[b - 1].0);
                        }
                    } else if a < ii {
                        assert(chars_lt(v[a].0, v[b - 1].0));
                    } else {
                        assert(chars_lt(v[a - 1].0, v[b - 1].0));
                    }
                }
                assert(sorted_keys(w));
                assert forall|k: Seq<char>| #[trigger] room_map(w).dom().contains(k) == room_map(v).insert(kv, cv).dom().contains(k)
                    && (room_map(w).dom().contains(k) ==> room_map(w)[k] == room_map(v).insert(kv, cv)[k]) by {
                    lemma_room_map(v, k);
                    lemma_room_map(w, k);
                    lemma_key_index(v, k);
                    if k == kv {
                        assert(w[ii].0 == k);
                    } else if key_index(v, k) >= 0 {
                        let q = key_index(v, k);
                        if q < ii {
                            assert(w[q].0 == k);
                        } else {
                            assert(w[q + 1].0 == k);
                        }
                    } else {
                        if room_map(w).dom().contains(k) {
                            let p = choose|p: int| 0 <= p < w.len() && #[trigger] w[p].0 == k;
                            if p < ii {
                                assert(v[p].0 == k);
                            } else if p > ii {
                                assert(v[p - 1].0 == k);
                            }
                        }
                    }
                }
                assert(room_map(w) =~= room_map(v).insert(kv, cv));
            }
        }
    }
}


/// `n` empty cells.
pub open spec fn vacant_cells(n: nat) -> Seq<Option<Seq<char>>> {
    Seq::new(n, |i: int| None::<Seq<char>>)
}

/// The view of a list of per-room capacities.
pub open spec fn capacities_view(s: Seq<(RoomId, u8)>) -> AssignmentView {
    s.map_values(|e: (RoomId, u8)| (e.0@, vacant_cells(e.1 as nat)))
}

/// The per-room capacities of a base's rooms at their levels.
pub open spec fn base_capacities(rooms: Seq<Room>, data: GameData) -> AssignmentView {
    rooms.map_values(|q: Room| (q.id@, vacant_cells(capacity_of(data, q.kind, q.level) as nat)))
}

/// With nobody placed, nobody is placed twice.
pub proof fn lemma_nobody_unique(v: AssignmentView)
    requires
        nobody_placed(v),
    ensures
        unique_operators(v),
        forall|op: Seq<char>| !is_placed(v, op),
{
    assert forall|r: int, i: int, op: Seq<char>| !holds_at(v, r, i, op) by {
        if holds_at(v, r, i, op) {
            assert(v[r].1[i] is None);
        }
    }
}

/// One more entry, one more insertion.
proof fn lemma_inserted_step(s: AssignmentView, i: int)
    requires
        0 <= i < s.len(),
    ensures
        inserted(s.take(i + 1)) == inserted(s.take(i)).insert(s[i].0, s[i].1),
{
    assert(s.take(i + 1).drop_last() =~= s.take(i));
}

/// `n` empty cells.
fn vacant_vec(n: u8) -> (r: Vec<Option<OperatorId>>)
    ensures
        cells_view(r@) == vacant_cells(n as nat),
        forall|j: int| 0 <= j < r@.len() ==> r@[j] is None,
{
    let mut out: Vec<Option<OperatorId>> = Vec::new();
    let mut i: u8 = 0;
    while i < n
        invariant
            i <= n,
            out@.len() == i,
            forall|j: int| 0 <= j < i ==> out@[j] is None,
        decreases n - i,
    {
        out.push(None);
        i = i + 1;
    }
    proof {
        assert(cells_view(out@) =~= vacant_cells(n as nat));
    }
    out
}

impl Assignment {
    /// An assignment with the given per-room capacities and nobody placed;
    /// a later entry for a label replaces an earlier one.
    pub fn with_capacities(capacities: Vec<(RoomId, u8)>) -> (r: Self)
        ensures
            r.wf(),
            nobody_placed(r@),
            room_map(r@) == inserted(capacities_view(capacities@)),
    {
        let ghost s = capacities_view(capacities@);
        let mut a = Assignment { rooms: Vec::new() };
        proof {
            assert(room_map(a@) =~= Map::empty());
            assert(s.take(0) =~= Seq::empty());
        }
        let mut i: usize = 0;
        while i < capacities.len()
            invariant
                s == capacities_view(capacities@),
                i <= capacities@.len(),
                sorted_keys(a@),
                nobody_placed(a@),
                room_map(a@) == inserted(s.take(i as int)),
            decreases capacities@.len() - i,
        {
            let cells = vacant_vec(capacities[i].1);
            proof {
                lemma_inserted_step(s, i as int);
            }
            a.insert_room(capacities[i].0.duplicate(), cells);
            i = i + 1;
        }
        proof {
            assert(s.take(s.len() as int) =~= s);
            lemma_nobody_unique(a@);
        }
        a
    }

    /// An empty assignment shaped by a base's rooms and levels.
    pub fn empty(base: &BaseConfig, data: &GameData) -> (r: Self)
        ensures
            r.wf(),
            nobody_placed(r@),
            room_map(r@) == inserted(base_capacities(base.rooms@, *data)),
    {
        let mut caps: Vec<(RoomId, u8)> = Vec::new();
        let mut i: usize = 0;
        while i < base.rooms.len()
            invariant
                i <= base.rooms@.len(),
                caps@.len() == i,
                capacities_view(caps@) == base_capacities(base.rooms@, *data).take(i as int),
            decreases base.rooms@.len() - i,
        {
            let room = &base.rooms[i];
            let ghost before = caps@;
            caps.push((room.id.duplicate(), room.capacity(data)));
            proof {
                let t = base_capacities(base.rooms@, *data);
                assert forall|j: int| 0 <= j < i + 1 implies capacities_view(caps@)[j] == t[j] by {
                    if j < i {
                        assert(caps@[j] == before[j]);
                        assert(capacities_view(before)[j] == t.take(i as int)[j]);
                    }
                }
                assert(capacities_view(caps@) =~= t.take(i + 1));
            }
            i = i + 1;
        }
        proof {
            let t = base_capacities(base.rooms@, *data);
            assert(t.take(t.len() as int) =~= t);
        }
        Self::with_capacities(caps)
    }

    /// The rooms and their cells, labels in order.
    pub fn into_rooms(self) -> (r: Vec<(RoomId, Vec<Option<OperatorId>>)>)
        ensures
            entries_view(r@) == self@,
    {
        self.rooms
    }

    /// A copy of this assignment.
    pub fn duplicate(&self) -> (r: Self)
        ensures
            r@ == self@,
    {
        let mut out: Vec<(RoomId, Vec<Option<OperatorId>>)> = Vec::new();
        let mut q: usize = 0;
        while q < self.rooms.len()
            invariant
                q <= self.rooms@.len(),
                out@.len() == q,
                entries_view(out@) == entries_view(self.rooms@).take(q as int),
            decreases self.rooms@.len() - q,
        {
            let cells = &self.rooms[q].1;
            let mut copy: Vec<Option<OperatorId>> = Vec::new();
            let mut i: usize = 0;
            while i < cells.len()
                invariant
                    i <= cells@.len(),
                    copy@.len() == i,
                    cells_view(copy@) == cells_view(cells@).take(i as int),
                decreases cells@.len() - i,
            {
                let c = match &cells[i] {
                    Some(o) => Some(o.duplicate()),
                    None => None,
                };
                let ghost before = copy@;
                copy.push(c);
                proof {
                    assert forall|j: int| 0 <= j < i + 1 implies cells_view(copy@)[j] == cells_view(cells@)[j] by {
                        if j < i {
                            assert(copy@[j] == before[j]);
                            assert(cells_view(before)[j] == cells_view(cells@).take(i as int)[j]);
                        }
                    }
                    assert(cells_view(copy@) =~= cells_view(cells@).take(i + 1));
                }
                i = i + 1;
            }
            proof {
                assert(cells_view(copy@) =~= cells_view(cells@));
            }
            let ghost before = out@;
            let ghost copy_view = cells_view(copy@);
            out.push((self.rooms[q].0.duplicate(), copy));
            proof {
                assert forall|j: int| 0 <= j < q + 1 implies entries_view(out@)[j] == entries_view(self.rooms@)[j] by {
                    if j < q {
                        assert(out@[j] == before[j]);
                        assert(entries_view(before)[j] == entries_view(self.rooms@).take(q as int)[j]);
                    }
                }
                assert(entries_view(out@) =~= entries_view(self.rooms@).take(q + 1));
            }
            q = q + 1;
        }
        proof {
            assert(entries_view(out@) =~= entries_view(self.rooms@));
        }
        Assignment { rooms: out }
    }
}


/// Whether cell (r1, i1) comes before cell (r2, i2) in listing order.
pub open spec fn cell_before(r1: int, i1: int, r2: int, i2: int) -> bool {
    r1 < r2 || (r1 == r2 && i1 < i2)
}

/// Whether the operator in cell (r, i) also sits in an earlier cell.
pub open spec fn repeats_earlier(v: AssignmentView, r: int, i: int) -> bool {
    &&& 0 <= r < v.len()
    &&& 0 <= i < v[r].1.len()
    &&& v[r].1[i] is Some
    &&& exists|r2: int, i2: int| cell_before(r2, i2, r, i) && #[trigger] holds_at(v, r2, i2, v[r].1[i]->0)
}

/// Cell (r, i) is the first, in listing order, to repeat an operator.
pub open spec fn first_repeat(v: AssignmentView, r: int, i: int) -> bool {
    &&& repeats_earlier(v, r, i)
    &&& forall|r2: int, i2: int| cell_before(r2, i2, r, i) ==> !#[trigger] repeats_earlier(v, r2, i2)
}

/// The error names the operator of the first cell that repeats one.
pub open spec fn duplicate_reported(v: AssignmentView, e: AssignmentError) -> bool {
    exists|r: int, i: int| #[trigger] first_repeat(v, r, i) && (e matches AssignmentError::Duplicate(op) && op@
        == v[r].1[i]->0)
}

/// Operators are unique exactly when no cell repeats an earlier one.
pub proof fn lemma_unique_iff_no_repeat(v: AssignmentView)
    ensures
        unique_operators(v) <==> forall|r: int, i: int| !#[trigger] repeats_earlier(v, r, i),
{
    if unique_operators(v) {
        assert forall|r: int, i: int| !#[trigger] repeats_earlier(v, r, i) by {
            if repeats_earlier(v, r, i) {
                let op = v[r].1[i]->0;
                let (r2, i2) = choose|r2: int, i2: int| cell_before(r2, i2, r, i) && #[trigger] holds_at(v, r2, i2, op);
                assert(holds_at(v, r, i, op));
            }
        }
    }
    if forall|r: int, i: int| !#[trigger] repeats_earlier(v, r, i) {
        assert forall|r1: int, i1: int, r2: int, i2: int, op: Seq<char>|
            holds_at(v, r1, i1, op) && holds_at(v, r2, i2, op) implies r1 == r2 && i1 == i2 by {
            if cell_before(r1, i1, r2, i2) {
                assert(v[r2].1[i2]->0 == op);
                assert(holds_at(v, r1, i1, v[r2].1[i2]->0));
                assert(repeats_earlier(v, r2, i2));
            } else if cell_before(r2, i2, r1, i1) {
                assert(v[r1].1[i1]->0 == op);
                assert(holds_at(v, r2, i2, v[r1].1[i1]->0));
                assert(repeats_earlier(v, r1, i1));
            }
        }
    }
}

/// A sorted view built by inserting the entries of `s` in turn.
pub open spec fn built_from(v: AssignmentView, s: AssignmentView) -> bool {
    sorted_keys(v) && room_map(v) == inserted(s)
}

impl Assignment {
    /// Whether `op` sits in a cell before (r, i).
    fn held_before(&self, r: usize, i: usize, op: &str) -> (b: bool)
        requires
            r < self@.len(),
            i <= self@[r as int].1.len(),
        ensures
            b == exists|r2: int, i2: int| cell_before(r2, i2, r as int, i as int) && #[trigger] holds_at(
                self@,
                r2,
                i2,
                op@,
            ),
    {
        let ghost v = self@;
        let mut q: usize = 0;
        while q < r
            invariant
                v == entries_view(self.rooms@),
                r < v.len(),
                i <= v[r as int].1.len(),
                q <= r,
                forall|r2: int, i2: int| 0 <= r2 < q ==> !#[trigger] holds_at(v, r2, i2, op@),
            decreases r - q,
        {
            let cells = &self.rooms[q].1;
            let mut j: usize = 0;
            while j < cells.len()
                invariant
                    v == entries_view(self.rooms@),
                    r < v.len(),
                    q < r,
                    i <= v[r as int].1.len(),
                    cells_view(cells@) == v[q as int].1,
                    j <= cells@.len(),
                    forall|r2: int, i2: int| 0 <= r2 < q ==> !#[trigger] holds_at(v, r2, i2, op@),
                    forall|i2: int| 0 <= i2 < j ==> !#[trigger] holds_at(v, q as int, i2, op@),
                decreases cells@.len() - j,
            {
                let hit = match &cells[j] {
                    Some(o) => str_eq(o.as_str(), op),
                    None => false,
                };
                if hit {
                    proof {
                        assert(holds_at(v, q as int, j as int, op@));
                        assert(cell_before(q as int, j as int, r as int, i as int));
                        assert(v == self@);
                        assert(holds_at(self@, q as int, j as int, op@));
                    }
                    return true;
                }
                j = j + 1;
            }
            q = q + 1;
        }
        let cells = &self.rooms[r].1;
        let mut j: usize = 0;
        while j < i
            invariant
                v == entries_view(self.rooms@),
                r < v.len(),
                cells_view(cells@) == v[r as int].1,
                i <= cells@.len(),
                j <= i,
                forall|r2: int, i2: int| 0 <= r2 < r ==> !#[trigger] holds_at(v, r2, i2, op@),
                forall|i2: int| 0 <= i2 < j ==> !#[trigger] holds_at(v, r as int, i2, op@),
            decreases i - j,
        {
            let hit = match &cells[j] {
                Some(o) => str_eq(o.as_str(), op),
                None => false,
            };
            if hit {
                proof {
                    assert(holds_at(v, r as int, j as int, op@));
                    assert(cell_before(r as int, j as int, r as int, i as int));
                    assert(v == self@);
                    assert(holds_at(self@, r as int, j as int, op@));
                }
                return true;
            }
            j = j + 1;
        }
        proof {
            assert forall|r2: int, i2: int| cell_before(r2, i2, r as int, i as int) implies !#[trigger] holds_at(
                v,
                r2,
                i2,
                op@,
            ) by {
                if r2 < r {
                } else {
                }
            }
        }
        false
    }

    /// Fails with the first operator, in listing order, who sits in two
    /// cells.
    fn check_duplicates(&self) -> (r: Result<(), AssignmentError>)
        ensures
            match r {
                Ok(_) => unique_operators(self@),
                Err(e) => !unique_operators(self@) && duplicate_reported(self@, e),
            },
    {
        let ghost v = self@;
        let mut q: usize = 0;
        while q < self.rooms.len()
            invariant
                v == self@,
                v == entries_view(self.rooms@),
                q <= v.len(),
                forall|r2: int, i2: int| 0 <= r2 < q ==> !#[trigger] repeats_earlier(v, r2, i2),
            decreases self.rooms@.len() - q,
        {
            let cells = &self.rooms[q].1;
            let mut j: usize = 0;
            while j < cells.len()
                invariant
                    v == self@,
                    v == entries_view(self.rooms@),
                    q < v.len(),
                    cells_view(cells@) == v[q as int].1,
                    j <= cells@.len(),
                    forall|r2: int, i2: int| 0 <= r2 < q ==> !#[trigger] repeats_earlier(v, r2, i2),
                    forall|i2: int| 0 <= i2 < j ==> !#[trigger] repeats_earlier(v, q as int, i2),
                decreases cells@.len() - j,
            {
                match &cells[j] {
                    Some(o) => {
                        if self.held_before(q, j, o.as_str()) {
                            proof {
                                assert(cells_view(cells@)[j as int] == cell_view(cells@[j as int]));
                                assert(v[q as int].1[j as int] == Some(o@));
                                let (r2, i2) = choose|r2: int, i2: int| cell_before(r2, i2, q as int, j as int) && #[trigger] holds_at(
                                    v, r2, i2, o@);
                                assert(holds_at(v, r2, i2, v[q as int].1[j as int]->0));
                                assert(repeats_earlier(v, q as int, j as int));
                                assert(first_repeat(v, q as int, j as int));
                                lemma_unique_iff_no_repeat(v);
                            }
                            return Err(AssignmentError::Duplicate(o.duplicate()));
                        }
                    },
                    None => {},
                }
                j = j + 1;
            }
            q = q + 1;
        }
        proof {
            lemma_unique_iff_no_repeat(v);
        }
        Ok(())
    }

    /// An assignment built from room entries, a later entry for a label
    /// replacing an earlier one; refused when an operator sits in two cells.
    pub fn try_from_rooms(entries: Vec<(RoomId, Vec<Option<OperatorId>>)>) -> (r: Result<Self, AssignmentError>)
        ensures
            match r {
                Ok(a) => a.wf() && built_from(a@, entries_view(entries@)),
                Err(e) => exists|v: AssignmentView| #[trigger] built_from(v, entries_view(entries@))
                    && !unique_operators(v) && duplicate_reported(v, e),
            },
    {
        let ghost s = entries_view(entries@);
        let mut a = Assignment { rooms: Vec::new() };
        proof {
            assert(room_map(a@) =~= Map::empty());
            assert(s.take(0) =~= Seq::empty());
        }
        let mut rest = entries;
        let ghost mut i: int = 0;
        while rest.len() > 0
            invariant
                0 <= i <= s.len(),
                entries_view(rest@) == s.skip(i),
                sorted_keys(a@),
                room_map(a@) == inserted(s.take(i)),
            decreases rest@.len(),
        {
            let ghost before = rest@;
            proof {
                assert(entries_view(before).len() == before.len());
                assert(entries_view(before)[0] == s.skip(i)[0]);
            }
            let (key, cells) = rest.remove(0);
            proof {
                assert(entry_view(before[0]) == s[i]);
                lemma_inserted_step(s, i);
                assert forall|j: int| 0 <= j < rest@.len() implies entries_view(rest@)[j] == s.skip(i + 1)[j] by {
                    assert(rest@[j] == before[j + 1]);
                    assert(entries_view(before)[j + 1] == s.skip(i)[j + 1]);
                }
                assert(entries_view(rest@) =~= s.skip(i + 1));
                i = i + 1;
            }
            a.insert_room(key, cells);
        }
        proof {
            assert(s.take(s.len() as int) =~= s);
            assert(built_from(a@, s));
        }
        match a.check_duplicates() {
            Ok(_) => Ok(a),
            Err(e) => Err(e),
        }
    }
}


/// A base room whose entry is missing or has the wrong number of slots.
pub open spec fn room_fault(v: AssignmentView, data: GameData) -> spec_fn(Room) -> bool {
    |q: Room|
        key_index(v, q.id@) < 0 || v[key_index(v, q.id@)].1.len() != capacity_of(data, q.kind, q.level) as int
}

/// A room entry whose label no base room carries.
pub open spec fn unknown_label(rooms: Seq<Room>) -> spec_fn((Seq<char>, Seq<Option<Seq<char>>>)) -> bool {
    |e: (Seq<char>, Seq<Option<Seq<char>>>)| first_index(rooms, labelled(e.0)) == -1
}

/// What `check` answers for a view against a base's rooms.
pub open spec fn check_outcome(v: AssignmentView, rooms: Seq<Room>, data: GameData, r: Result<(), AssignmentError>) -> bool {
    if !unique_operators(v) {
        r is Err && duplicate_reported(v, r->Err_0)
    } else if first_index(rooms, room_fault(v, data)) >= 0 {
        let q = rooms[first_index(rooms, room_fault(v, data))];
        if key_index(v, q.id@) < 0 {
            r matches Err(AssignmentError::MissingRoom(id)) && id@ == q.id@
        } else {
            r matches Err(AssignmentError::WrongCapacity { room, expected, found }) && room@ == q.id@
                && expected == capacity_of(data, q.kind, q.level) && found == v[key_index(v, q.id@)].1.len()
        }
    } else if first_index(v, unknown_label(rooms)) >= 0 {
        r matches Err(AssignmentError::UnknownRoom(id)) && id@ == v[first_index(v, unknown_label(rooms))].0
    } else {
        r is Ok
    }
}

impl Assignment {
    /// Verifies that this assignment fits the base exactly.
    pub fn check(&self, base: &BaseConfig, data: &GameData) -> (r: Result<(), AssignmentError>)
        ensures
            check_outcome(self@, base.rooms@, *data, r),
            r is Ok ==> fits_exactly(self@, base.rooms@, *data),
    {
        proof {
            law_check_fits_exactly(self@, base.rooms@, *data);
        }
        let ghost v = self@;
        match self.check_duplicates() {
            Err(e) => {
                return Err(e);
            },
            Ok(_) => {},
        }
        let ghost p = room_fault(v, *data);
        let mut j: usize = 0;
        while j < base.rooms.len()
            invariant
                v == self@,
                unique_operators(v),
                p == room_fault(v, *data),
                j <= base.rooms@.len(),
                forall|q: int| 0 <= q < j ==> !p(#[trigger] base.rooms@[q]),
            decreases base.rooms@.len() - j,
        {
            let room = &base.rooms[j];
            let expected = room.capacity(data);
            match self.slots(room.id.as_str()) {
                None => {
                    proof {
                        lemma_first_index_is(base.rooms@, p, j as int);
                    }
                    return Err(AssignmentError::MissingRoom(room.id.duplicate()));
                },
                Some(cells) => {
                    if cells.len() != expected as usize {
                        proof {
                            lemma_first_index_is(base.rooms@, p, j as int);
                        }
                        return Err(
                            AssignmentError::WrongCapacity {
                                room: room.id.duplicate(),
                                expected: expected as usize,
                                found: cells.len(),
                            },
                        );
                    }
                },
            }
            j = j + 1;
        }
        proof {
            lemma_first_index_none(base.rooms@, p);
        }
        let ghost u = unknown_label(base.rooms@);
        let mut q: usize = 0;
        while q < self.rooms.len()
            invariant
                v == self@,
                v == entries_view(self.rooms@),
                unique_operators(v),
                first_index(base.rooms@, room_fault(v, *data)) == -1,
                u == unknown_label(base.rooms@),
                q <= v.len(),
                forall|k: int| 0 <= k < q ==> !u(#[trigger] v[k]),
            decreases self.rooms@.len() - q,
        {
            let key = &self.rooms[q].0;
            if base.room(key.as_str()).is_none() {
                proof {
                    assert(u(v[q as int]));
                    lemma_first_index_is(v, u, q as int);
                }
                return Err(AssignmentError::UnknownRoom(key.duplicate()));
            }
            q = q + 1;
        }
        proof {
            lemma_first_index_none(v, u);
        }
        Ok(())
    }
}

/// Entries with distinct labels: inserting them in turn maps each label to
/// its own cells.
pub proof fn lemma_inserted_distinct(s: AssignmentView)
    requires
        forall|a: int, b: int| 0 <= a < b < s.len() ==> s[a].0 != s[b].0,
    ensures
        forall|k: Seq<char>| inserted(s).dom().contains(k) <==> exists|j: int| 0 <= j < s.len() && #[trigger] s[j].0 == k,
        forall|j: int| 0 <= j < s.len() ==> inserted(s)[#[trigger] s[j].0] == s[j].1,
    decreases s.len(),
{
    if s.len() > 0 {
        let t = s.drop_last();
        lemma_inserted_distinct(t);
        assert forall|k: Seq<char>| inserted(s).dom().contains(k) <==> exists|j: int| 0 <= j < s.len() && #[trigger] s[j].0 == k by {
            if inserted(t).dom().contains(k) {
                let j = choose|j: int| 0 <= j < t.len() && #[trigger] t[j].0 == k;
                assert(s[j].0 == k);
            }
            if exists|j: int| 0 <= j < s.len() && #[trigger] s[j].0 == k {
                let j = choose|j: int| 0 <= j < s.len() && #[trigger] s[j].0 == k;
                if j < s.len() - 1 {
                    assert(t[j].0 == k);
                }
            }
        }
        assert forall|j: int| 0 <= j < s.len() implies inserted(s)[#[trigger] s[j].0] == s[j].1 by {
            if j < s.len() - 1 {
                assert(t[j].0 == s[j].0);
                assert(s[j].0 != s.last().0);
            }
        }
    }
}

/// The rooms of a base carry distinct labels.
pub open spec fn distinct_labels(rooms: Seq<Room>) -> bool {
    forall|a: int, b: int| 0 <= a < b < rooms.len() ==> rooms[a].id@ != rooms[b].id@
}

/// An empty assignment shaped by a base with distinct room labels fits that
/// base: every room is there with as many slots as its level allows, no other
/// room is, and nobody is stationed twice.
pub proof fn law_empty_fits(rooms: Seq<Room>, data: GameData, v: AssignmentView)
    requires
        distinct_labels(rooms),
        sorted_keys(v),
        nobody_placed(v),
        room_map(v) == inserted(base_capacities(rooms, data)),
    ensures
        check_outcome(v, rooms, data, Ok(())),
{
    let s = base_capacities(rooms, data);
    lemma_nobody_unique(v);
    assert forall|a: int, b: int| 0 <= a < b < s.len() implies s[a].0 != s[b].0 by {
        assert(s[a].0 == rooms[a].id@);
        assert(s[b].0 == rooms[b].id@);
    }
    lemma_inserted_distinct(s);
    let p = room_fault(v, data);
    assert forall|j: int| 0 <= j < rooms.len() implies !p(#[trigger] rooms[j]) by {
        let k = rooms[j].id@;
        assert(s[j].0 == k);
        assert(room_map(v).dom().contains(k));
        lemma_key_index(v, k);
        assert(room_map(v)[k] == s[j].1);
    }
    lemma_first_index_none(rooms, p);
    let u = unknown_label(rooms);
    assert forall|q: int| 0 <= q < v.len() implies !u(#[trigger] v[q]) by {
        let k = v[q].0;
        lemma_room_map(v, k);
        assert(room_map(v).dom().contains(k));
        let j = choose|j: int| 0 <= j < s.len() && #[trigger] s[j].0 == k;
        assert(labelled(k)(rooms[j]));
        lemma_first_index(rooms, labelled(k));
    }
    lemma_first_index_none(v, u);
}


/// After a placement succeeds, `locate` finds the operator at the slot it
/// was placed at.
pub proof fn law_place_then_locate(
    v: AssignmentView,
    slot: Slot,
    op: OperatorId,
    r: Result<Option<OperatorId>, PlaceError>,
    after: AssignmentView,
)
    requires
        wf_view(v),
        place_outcome(v, slot, op, r, after),
        r is Ok,
    ensures
        is_placed(after, op@),
        after[loc_room(after, op@)].0 == slot.room@,
        idx8(loc_index(after, op@)) == slot.index,
{
    if is_placed(v, op@) {
        lemma_placed(v, op@);
    } else {
        let k = key_index(v, slot.room@);
        let i = slot.index as int;
        lemma_key_index(v, slot.room@);
        lemma_fill_unique(v, k, i, op@);
        lemma_set_cell_holds(v, k, i, Some(op@));
        assert(holds_at(after, k, i, op@));
        lemma_loc(after, op@, k, i);
    }
}

/// After a placement succeeds, the slot holds the placed operator (so a
/// `remove` of it hands that operator back), in rooms of at most 256 slots.
pub proof fn law_place_then_read(
    v: AssignmentView,
    slot: Slot,
    op: OperatorId,
    r: Result<Option<OperatorId>, PlaceError>,
    after: AssignmentView,
)
    requires
        wf_view(v),
        small_rooms(v),
        place_outcome(v, slot, op, r, after),
        r is Ok,
    ensures
        occupant(after, slot.room@, slot.index as int) == Some(op@),
{
    lemma_key_index(v, slot.room@);
    if is_placed(v, op@) {
        lemma_placed(v, op@);
        lemma_key_index_of(v, loc_room(v, op@));
    } else {
        let k = key_index(v, slot.room@);
        lemma_set_cell_keys(v, k, slot.index as int, Some(op@), slot.room@);
    }
}

/// Moving an operator to an existing slot succeeds and leaves the operator
/// there, in rooms of at most 256 slots.
pub proof fn law_move_then_read(
    v: AssignmentView,
    slot: Slot,
    op: OperatorId,
    r: Result<Option<OperatorId>, PlaceError>,
    after: AssignmentView,
)
    requires
        wf_view(v),
        small_rooms(v),
        slot_exists(v, slot.room@, slot.index as int),
        place_outcome(unstationed(v, op@), slot, op, r, after),
    ensures
        r is Ok,
        occupant(after, slot.room@, slot.index as int) == Some(op@),
{
    let v1 = unstationed(v, op@);
    lemma_key_index(v, slot.room@);
    if is_placed(v, op@) {
        let lr = loc_room(v, op@);
        let li = loc_index(v, op@);
        lemma_placed(v, op@);
        assert(idx8(li) as int == li);
        lemma_clear_unique(v, lr, li);
        lemma_set_cell_holds(v, lr, li, None);
        assert(!is_placed(v1, op@)) by {
            if is_placed(v1, op@) {
                let (q, j) = choose|q: int, j: int| #[trigger] holds_at(v1, q, j, op@);
                assert(holds_at(v, q, j, op@));
            }
        }
        lemma_set_cell_keys(v, lr, li, None, slot.room@);
    }
    let k = key_index(v1, slot.room@);
    lemma_key_index(v1, slot.room@);
    lemma_set_cell_keys(v1, k, slot.index as int, Some(op@), slot.room@);
}

/// Swapping the same two slots twice gives back the assignment.
pub proof fn law_swap_twice(v: AssignmentView, a: Slot, b: Slot)
    requires
        slot_exists(v, a.room@, a.index as int),
        slot_exists(v, b.room@, b.index as int),
    ensures
        ({
            let w = swapped(v, key_index(v, a.room@), a.index as int, key_index(v, b.room@), b.index as int);
            &&& slot_exists(w, a.room@, a.index as int)
            &&& slot_exists(w, b.room@, b.index as int)
            &&& swapped(w, key_index(w, a.room@), a.index as int, key_index(w, b.room@), b.index as int) == v
        }),
{
    let ka = key_index(v, a.room@);
    let kb = key_index(v, b.room@);
    lemma_key_index(v, a.room@);
    lemma_key_index(v, b.room@);
    let w1 = set_cell(v, ka, a.index as int, v[kb].1[b.index as int]);
    lemma_set_cell_keys(v, ka, a.index as int, v[kb].1[b.index as int], a.room@);
    lemma_set_cell_keys(v, ka, a.index as int, v[kb].1[b.index as int], b.room@);
    lemma_set_cell_keys(w1, kb, b.index as int, v[ka].1[a.index as int], a.room@);
    lemma_set_cell_keys(w1, kb, b.index as int, v[ka].1[a.index as int], b.room@);
    lemma_swapped_twice(v, ka, a.index as int, kb, b.index as int);
}


impl Slot {
    /// The slot as text: `room#index`.
    pub open spec fn spec_text(&self) -> Seq<char> {
        self.room@ + "#"@ + decimal(self.index as nat)
    }

    /// The slot as text: `room#index`.
    pub fn to_text(&self) -> (r: String)
        ensures
            r@ == self.spec_text(),
    {
        let mut out = self.room.as_str().to_owned();
        out.append("#");
        append_decimal(&mut out, self.index as usize);
        out
    }
}

impl PlaceError {
    /// What went wrong, in words.
    pub open spec fn spec_message(&self) -> Seq<char> {
        match self {
            PlaceError::NoSuchRoom(r) => "no room "@ + r@ + " in this assignment"@,
            PlaceError::IndexOutOfRange { slot, capacity } => "slot "@ + slot.spec_text()
                + " is beyond the room's capacity of "@ + decimal(*capacity as nat),
            PlaceError::AlreadyAssigned { operator, at } => operator@ + " is already stationed at "@
                + at.spec_text(),
        }
    }

    /// What went wrong, in words.
    pub fn message(&self) -> (r: String)
        ensures
            r@ == self.spec_message(),
    {
        match self {
            PlaceError::NoSuchRoom(r) => {
                let mut out = "no room ".to_owned();
                out.append(r.as_str());
                out.append(" in this assignment");
                out
            },
            PlaceError::IndexOutOfRange { slot, capacity } => {
                let mut out = "slot ".to_owned();
                let text = slot.to_text();
                out.append(text.as_str());
                out.append(" is beyond the room's capacity of ");
                append_decimal(&mut out, *capacity);
                out
            },
            PlaceError::AlreadyAssigned { operator, at } => {
                let mut out = operator.as_str().to_owned();
                out.append(" is already stationed at ");
                let text = at.to_text();
                out.append(text.as_str());
                out
            },
        }
    }
}

impl AssignmentError {
    /// What went wrong, in words.
    pub open spec fn spec_message(&self) -> Seq<char> {
        match self {
            AssignmentError::Duplicate(op) => op@ + " is assigned twice"@,
            AssignmentError::MissingRoom(r) => "assignment has no entry for room "@ + r@,
            AssignmentError::UnknownRoom(r) => "assignment names room "@ + r@ + ", which the base lacks"@,
            AssignmentError::WrongCapacity { room, expected, found } => "room "@ + room@ + " has "@ + decimal(
                *found as nat,
            ) + " slots, expected "@ + decimal(*expected as nat),
        }
    }

    /// What went wrong, in words.
    pub fn message(&self) -> (r: String)
        ensures
            r@ == self.spec_message(),
    {
        match self {
            AssignmentError::Duplicate(op) => {
                let mut out = op.as_str().to_owned();
                out.append(" is assigned twice");
                out
            },
            AssignmentError::MissingRoom(r) => {
                let mut out = "assignment has no entry for room ".to_owned();
                out.append(r.as_str());
                out
            },
            AssignmentError::UnknownRoom(r) => {
                let mut out = "assignment names room ".to_owned();
                out.append(r.as_str());
                out.append(", which the base lacks");
                out
            },
            AssignmentError::WrongCapacity { room, expected, found } => {
                let mut out = "room ".to_owned();
                out.append(room.as_str());
                out.append(" has ");
                append_decimal(&mut out, *found);
                out.append(" slots, expected ");
                append_decimal(&mut out, *expected);
                out
            },
        }
    }
}


/// The labels of a view, in order.
pub open spec fn labels(v: AssignmentView) -> Seq<Seq<char>> {
    v.map_values(|e: (Seq<char>, Seq<Option<Seq<char>>>)| e.0)
}

/// Strictly increasing label lists with the same members are equal.
proof fn lemma_sorted_labels_unique(a: Seq<Seq<char>>, b: Seq<Seq<char>>)
    requires
        forall|i: int, j: int| 0 <= i < j < a.len() ==> chars_lt(a[i], a[j]),
        forall|i: int, j: int| 0 <= i < j < b.len() ==> chars_lt(b[i], b[j]),
        a.to_set() == b.to_set(),
    ensures
        a == b,
    decreases a.len() + b.len(),
{
    if a.len() == 0 || b.len() == 0 {
        if a.len() > 0 {
            assert(a.to_set().contains(a[0]));
        }
        if b.len() > 0 {
            assert(b.to_set().contains(b[0]));
        }
        assert(a =~= b);
    } else {
        assert(a.to_set().contains(a[0]));
        assert(b.to_set().contains(b[0]));
        let j = choose|j: int| 0 <= j < b.len() && b[j] == a[0];
        let k = choose|k: int| 0 <= k < a.len() && a[k] == b[0];
        lemma_chars_lt_irreflexive(a[0]);
        if j > 0 && k > 0 {
            lemma_chars_lt_transitive(a[0], a[k], a[0]);
        }
        let a1 = a.drop_first();
        let b1 = b.drop_first();
        assert forall|x: Seq<char>| a1.to_set().contains(x) <==> b1.to_set().contains(x) by {
            if a1.to_set().contains(x) {
                let p = choose|p: int| 0 <= p < a1.len() && a1[p] == x;
                assert(a.to_set().contains(x));
                let q = choose|q: int| 0 <= q < b.len() && b[q] == x;
                if q == 0 {
                    assert(chars_lt(a[0], a[p + 1]));
                }
                assert(b1[q - 1] == x);
            }
            if b1.to_set().contains(x) {
                let p = choose|p: int| 0 <= p < b1.len() && b1[p] == x;
                assert(b.to_set().contains(x));
                let q = choose|q: int| 0 <= q < a.len() && a[q] == x;
                if q == 0 {
                    lemma_chars_lt_irreflexive(b[0]);
                    assert(chars_lt(b[0], b[p + 1]));
                }
                assert(a1[q - 1] == x);
            }
        }
        assert(a1.to_set() =~= b1.to_set());
        lemma_sorted_labels_unique(a1, b1);
        assert(a =~= seq![a[0]] + a1);
        assert(b =~= seq![b[0]] + b1);
    }
}

/// Sorted views with the same room map are the same view.
pub proof fn lemma_sorted_views_unique(a: AssignmentView, b: AssignmentView)
    requires
        sorted_keys(a),
        sorted_keys(b),
        room_map(a) == room_map(b),
    ensures
        a == b,
{
    let la = labels(a);
    let lb = labels(b);
    assert forall|x: Seq<char>| la.to_set().contains(x) <==> lb.to_set().contains(x) by {
        lemma_room_map(a, x);
        lemma_room_map(b, x);
        if la.to_set().contains(x) {
            let p = choose|p: int| 0 <= p < la.len() && la[p] == x;
            assert(a[p].0 == x);
            let q = choose|q: int| 0 <= q < b.len() && #[trigger] b[q].0 == x;
            assert(lb[q] == x);
        }
        if lb.to_set().contains(x) {
            let p = choose|p: int| 0 <= p < lb.len() && lb[p] == x;
            assert(b[p].0 == x);
            let q = choose|q: int| 0 <= q < a.len() && #[trigger] a[q].0 == x;
            assert(la[q] == x);
        }
    }
    assert(la.to_set() =~= lb.to_set());
    lemma_sorted_labels_unique(la, lb);
    assert forall|q: int| 0 <= q < a.len() implies a[q] == b[q] by {
        assert(la[q] == lb[q]);
        lemma_room_map(a, a[q].0);
        lemma_room_map(b, a[q].0);
    }
    assert(a =~= b);
}

/// A well-formed assignment survives being written out as room entries and
/// read back: the entries build the same view, with nobody stationed twice.
pub proof fn law_rooms_round_trip(v: AssignmentView, w: AssignmentView)
    requires
        wf_view(v),
        built_from(w, v),
    ensures
        w == v,
        unique_operators(w),
{
    assert forall|a: int, b: int| 0 <= a < b < v.len() implies v[a].0 != v[b].0 by {
        lemma_chars_lt_irreflexive(v[a].0);
    }
    lemma_inserted_distinct(v);
    assert forall|k: Seq<char>| #[trigger] room_map(v).dom().contains(k) == inserted(v).dom().contains(k)
        && (room_map(v).dom().contains(k) ==> room_map(v)[k] == inserted(v)[k]) by {
        lemma_room_map(v, k);
        if room_map(v).dom().contains(k) {
            let q = choose|q: int| 0 <= q < v.len() && #[trigger] v[q].0 == k;
        }
    }
    assert(room_map(v) =~= inserted(v));
    lemma_sorted_views_unique(w, v);
}

/// Placing an operator who is not stationed into an empty slot, then
/// removing from that slot, hands the operator back and restores the
/// assignment.
pub proof fn law_place_then_remove(
    v: AssignmentView,
    slot: Slot,
    op: OperatorId,
    placed: Result<Option<OperatorId>, PlaceError>,
    mid: AssignmentView,
    removed: Option<OperatorId>,
    after: AssignmentView,
)
    requires
        wf_view(v),
        slot_exists(v, slot.room@, slot.index as int),
        occupant(v, slot.room@, slot.index as int) is None,
        !is_placed(v, op@),
        place_outcome(v, slot, op, placed, mid),
        remove_outcome(mid, slot, removed, after),
    ensures
        placed matches Ok(prev) && prev is None,
        cell_view(removed) == Some(op@),
        after == v,
{
    let k = key_index(v, slot.room@);
    let i = slot.index as int;
    lemma_key_index(v, slot.room@);
    lemma_set_cell_keys(v, k, i, Some(op@), slot.room@);
    let w = set_cell(v, k, i, Some(op@));
    assert(mid == w);
    lemma_set_cell_keys(w, k, i, None, slot.room@);
    assert(after == set_cell(w, k, i, None));
    assert(w[k].1.update(i, None) =~= v[k].1);
    assert(set_cell(w, k, i, None) =~= v);
}

/// The occupant counts of the rooms, added up.
pub open spec fn occupant_total(v: AssignmentView) -> int
    decreases v.len(),
{
    if v.len() == 0 {
        0
    } else {
        occupant_total(v.drop_last()) + present(v.last().1).len()
    }
}

/// The number of stationed operators (`len`) is the sum over the rooms of
/// each room's occupants, and at most the number of slots.
pub proof fn law_len_counts_occupants(v: AssignmentView)
    ensures
        all_operators(v).len() == occupant_total(v),
        all_operators(v).len() <= total_cells(v),
    decreases v.len(),
{
    lemma_cells_partition(v);
    if v.len() > 0 {
        law_len_counts_occupants(v.drop_last());
    }
}

/// The labels of the rooms and the number of slots of each, in order.
pub open spec fn shape(v: AssignmentView) -> Seq<(Seq<char>, nat)> {
    v.map_values(|e: (Seq<char>, Seq<Option<Seq<char>>>)| (e.0, e.1.len()))
}

/// Whether `w` is what one call of `place`, `remove`, `move_to` or `swap`
/// can leave `v` as, whether it succeeded or not.
pub open spec fn mutation_step(v: AssignmentView, w: AssignmentView) -> bool {
    ||| exists|slot: Slot, op: OperatorId, r: Result<Option<OperatorId>, PlaceError>| #[trigger]
        place_outcome(v, slot, op, r, w)
    ||| exists|slot: Slot, r: Option<OperatorId>| #[trigger] remove_outcome(v, slot, r, w)
    ||| exists|op: OperatorId, slot: Slot, r: Result<Option<OperatorId>, PlaceError>| #[trigger]
        move_outcome(v, op, slot, r, w)
    ||| exists|a: Slot, b: Slot, r: Result<(), PlaceError>| #[trigger] swap_outcome(v, a, b, r, w)
}

/// Whether each view of a history follows from the one before by one call.
pub open spec fn mutation_history(s: Seq<AssignmentView>) -> bool
    decreases s.len(),
{
    if s.len() <= 1 {
        true
    } else {
        mutation_history(s.drop_last()) && mutation_step(s[s.len() - 2], s.last())
    }
}

/// Setting one existing cell keeps the shape and the label order.
proof fn lemma_set_cell_shape(v: AssignmentView, r: int, i: int, x: Option<Seq<char>>)
    requires
        0 <= r < v.len(),
        0 <= i < v[r].1.len(),
    ensures
        shape(set_cell(v, r, i, x)) == shape(v),
        sorted_keys(v) ==> sorted_keys(set_cell(v, r, i, x)),
{
    lemma_set_cell_keys(v, r, i, x, v[r].0);
    assert(shape(set_cell(v, r, i, x)) =~= shape(v));
}

/// `place` keeps the shape and the invariants, whatever it answers.
proof fn lemma_place_keeps(
    v: AssignmentView,
    slot: Slot,
    op: OperatorId,
    r: Result<Option<OperatorId>, PlaceError>,
    w: AssignmentView,
)
    requires
        wf_view(v),
        place_outcome(v, slot, op, r, w),
    ensures
        shape(w) == shape(v),
        wf_view(w),
{
    if !is_placed(v, op@) && key_index(v, slot.room@) >= 0 && slot.index < v[key_index(
        v,
        slot.room@,
    )].1.len() {
        let k = key_index(v, slot.room@);
        lemma_key_index(v, slot.room@);
        lemma_set_cell_shape(v, k, slot.index as int, Some(op@));
        lemma_fill_unique(v, k, slot.index as int, op@);
    }
}

/// Exchanging two cells keeps operators unique.
proof fn lemma_swapped_unique(v: AssignmentView, ka: int, ia: int, kb: int, ib: int)
    requires
        unique_operators(v),
        0 <= ka < v.len(),
        0 <= ia < v[ka].1.len(),
        0 <= kb < v.len(),
        0 <= ib < v[kb].1.len(),
    ensures
        unique_operators(swapped(v, ka, ia, kb, ib)),
{
    let v1 = set_cell(v, ka, ia, v[kb].1[ib]);
    let w = swapped(v, ka, ia, kb, ib);
    lemma_set_cell_holds(v, ka, ia, v[kb].1[ib]);
    lemma_set_cell_holds(v1, kb, ib, v[ka].1[ia]);
    assert forall|r1: int, i1: int, r2: int, i2: int, o: Seq<char>|
        holds_at(w, r1, i1, o) && holds_at(w, r2, i2, o) implies r1 == r2 && i1 == i2 by {
        let p1 = if r1 == kb && i1 == ib {
            (ka, ia)
        } else if r1 == ka && i1 == ia {
            (kb, ib)
        } else {
            (r1, i1)
        };
        let p2 = if r2 == kb && i2 == ib {
            (ka, ia)
        } else if r2 == ka && i2 == ia {
            (kb, ib)
        } else {
            (r2, i2)
        };
        assert(holds_at(v, p1.0, p1.1, o));
        assert(holds_at(v, p2.0, p2.1, o));
    }
}

/// One call of a mutator keeps the shape and the invariants.
proof fn lemma_step_keeps(v: AssignmentView, w: AssignmentView)
    requires
        wf_view(v),
        mutation_step(v, w),
    ensures
        shape(w) == shape(v),
        wf_view(w),
{
    if exists|slot: Slot, op: OperatorId, r: Result<Option<OperatorId>, PlaceError>| #[trigger]
        place_outcome(v, slot, op, r, w) {
        let (slot, op, r) = choose|slot: Slot, op: OperatorId, r: Result<Option<OperatorId>, PlaceError>| #[trigger]
            place_outcome(v, slot, op, r, w);
        lemma_place_keeps(v, slot, op, r, w);
    } else if exists|slot: Slot, r: Option<OperatorId>| #[trigger] remove_outcome(v, slot, r, w) {
        let (slot, r) = choose|slot: Slot, r: Option<OperatorId>| #[trigger] remove_outcome(v, slot, r, w);
        if slot_exists(v, slot.room@, slot.index as int) {
            let k = key_index(v, slot.room@);
            lemma_key_index(v, slot.room@);
            lemma_set_cell_shape(v, k, slot.index as int, None);
            lemma_clear_unique(v, k, slot.index as int);
        }
    } else if exists|op: OperatorId, slot: Slot, r: Result<Option<OperatorId>, PlaceError>| #[trigger]
        move_outcome(v, op, slot, r, w) {
        let (op, slot, r) = choose|op: OperatorId, slot: Slot, r: Result<Option<OperatorId>, PlaceError>| #[trigger]
            move_outcome(v, op, slot, r, w);
        if slot_exists(v, slot.room@, slot.index as int) {
            let u = unstationed(v, op@);
            if is_placed(v, op@) {
                lemma_placed(v, op@);
                let lr = loc_room(v, op@);
                let li = idx8(loc_index(v, op@)) as int;
                lemma_set_cell_shape(v, lr, li, None);
                lemma_clear_unique(v, lr, li);
            }
            lemma_place_keeps(u, slot, op, r, w);
        }
    } else {
        let (a, b, r) = choose|a: Slot, b: Slot, r: Result<(), PlaceError>| #[trigger] swap_outcome(v, a, b, r, w);
        if slot_exists(v, a.room@, a.index as int) && slot_exists(v, b.room@, b.index as int) {
            let ka = key_index(v, a.room@);
            let kb = key_index(v, b.room@);
            lemma_key_index(v, a.room@);
            lemma_key_index(v, b.room@);
            let v1 = set_cell(v, ka, a.index as int, v[kb].1[b.index as int]);
            lemma_set_cell_shape(v, ka, a.index as int, v[kb].1[b.index as int]);
            lemma_set_cell_shape(v1, kb, b.index as int, v[ka].1[a.index as int]);
            lemma_swapped_unique(v, ka, a.index as int, kb, b.index as int);
        }
    }
}

/// Any run of `place`, `remove`, `move_to` and `swap` calls, each
/// succeeding or not, keeps the room labels and each room's slot count, and
/// never stations an operator twice.
pub proof fn law_mutations_keep_shape(s: Seq<AssignmentView>)
    requires
        s.len() > 0,
        wf_view(s[0]),
        mutation_history(s),
    ensures
        shape(s.last()) == shape(s[0]),
        wf_view(s.last()),
    decreases s.len(),
{
    if s.len() > 1 {
        let t = s.drop_last();
        law_mutations_keep_shape(t);
        assert(t[0] == s[0]);
        assert(t.last() == s[s.len() - 2]);
        lemma_step_keeps(s[s.len() - 2], s.last());
    }
}

/// Calling `swap` twice with the same two slots leaves the assignment as it
/// was, whether the calls succeed or are refused.
pub proof fn law_swap_calls_twice(
    v: AssignmentView,
    a: Slot,
    b: Slot,
    first: Result<(), PlaceError>,
    mid: AssignmentView,
    second: Result<(), PlaceError>,
    after: AssignmentView,
)
    requires
        swap_outcome(v, a, b, first, mid),
        swap_outcome(mid, a, b, second, after),
    ensures
        after == v,
{
    if slot_exists(v, a.room@, a.index as int) && slot_exists(v, b.room@, b.index as int) {
        law_swap_twice(v, a, b);
    }
}

/// An assignment fits a base exactly: nobody sits twice, every room entry
/// is a room of the base, and every room of the base has an entry with as
/// many slots as its kind and level give.
pub open spec fn fits_exactly(v: AssignmentView, rooms: Seq<Room>, data: GameData) -> bool {
    &&& unique_operators(v)
    &&& forall|k: int| #![trigger v[k]] 0 <= k < v.len() ==> exists|i: int| 0 <= i < rooms.len() && #[trigger] rooms[i].id@ == v[k].0
    &&& forall|i: int| #![trigger rooms[i]] 0 <= i < rooms.len() ==> exists|k: int| 0 <= k < v.len() && #[trigger] v[k].0 == rooms[i].id@
        && v[k].1.len() == capacity_of(data, rooms[i].kind, rooms[i].level) as int
}

/// An assignment `check` accepts fits the base exactly.
pub proof fn law_check_fits_exactly(v: AssignmentView, rooms: Seq<Room>, data: GameData)
    ensures
        check_outcome(v, rooms, data, Ok(())) ==> fits_exactly(v, rooms, data),
{
    if check_outcome(v, rooms, data, Ok(())) {
        let u = unknown_label(rooms);
        let f = room_fault(v, data);
        lemma_first_index(v, u);
        lemma_first_index(rooms, f);
        assert forall|k: int| #![trigger v[k]] 0 <= k < v.len() implies exists|i: int| 0 <= i < rooms.len() && #[trigger] rooms[i].id@
            == v[k].0 by {
            assert(!u(v[k]));
            let p = labelled(v[k].0);
            lemma_first_index(rooms, p);
            let i = first_index(rooms, p);
            assert(rooms[i].id@ == v[k].0);
        }
        assert forall|i: int| #![trigger rooms[i]] 0 <= i < rooms.len() implies exists|k: int| 0 <= k < v.len() && #[trigger] v[k].0
            == rooms[i].id@ && v[k].1.len() == capacity_of(data, rooms[i].kind, rooms[i].level) as int by {
            assert(!f(rooms[i]));
            let k = key_index(v, rooms[i].id@);
            lemma_key_index(v, rooms[i].id@);
            assert(v[k].0 == rooms[i].id@);
        }
    }
}

} // verus!
