//! The resolved base a run works on: every room in base order with the
//! operators stationed in it, each operator's promotion and active skills,
//! and what each stationed operator is doing.

use vstd::prelude::*;
use crate::assignment::{Assignment, AssignmentView, key_index, lemma_key_index};
use crate::base::{BaseConfig, Room, TRAINING_TRAINEE_SLOT};
use crate::enums::RoomType;
use crate::game_data::GameData;
use crate::ids::{BuffId, OperatorId};
use crate::mechanics::{Group, OperatorRef};
use crate::operator::{Operator, UnlockCond, active_buffs_of};
use crate::seqs::{first_index, lemma_first_index_is, lemma_first_index_none};
use crate::sim::{Memberships, MissingRoster, Role, RoomView, SimError, resolve_subclass};
use crate::text::str_eq;
use crate::warnings::{SimWarning, Warnings, WarningKey, warning_key};

verus! {

/// A stationed operator: (position of its room in the base, slot index,
/// operator id).
pub type Seat = (int, int, Seq<char>);

/// The cells the assignment gives a base room; none when it has no entry.
pub open spec fn base_cells(v: AssignmentView, room: Room) -> Seq<Option<Seq<char>>> {
    if key_index(v, room.id@) >= 0 {
        v[key_index(v, room.id@)].1
    } else {
        Seq::empty()
    }
}

/// The occupied cells of the room at position `ri`, in slot order.
pub open spec fn room_seats(ri: int, cells: Seq<Option<Seq<char>>>) -> Seq<Seat>
    decreases cells.len(),
{
    if cells.len() == 0 {
        Seq::empty()
    } else {
        let prev = room_seats(ri, cells.drop_last());
        match cells.last() {
            Some(o) => prev.push((ri, cells.len() - 1, o)),
            None => prev,
        }
    }
}

/// Every stationed operator, base rooms in order, slots in order.
pub open spec fn seats(rooms: Seq<Room>, v: AssignmentView) -> Seq<Seat>
    decreases rooms.len(),
{
    if rooms.len() == 0 {
        Seq::empty()
    } else {
        seats(rooms.drop_last(), v) + room_seats(rooms.len() - 1, base_cells(v, rooms.last()))
    }
}

/// The promotion a roster records for an operator: its first entry.
pub open spec fn roster_promotion(roster: Seq<(OperatorId, UnlockCond)>, id: Seq<char>) -> Option<UnlockCond>
    decreases roster.len(),
{
    if roster.len() == 0 {
        None
    } else if roster[0].0@ == id {
        Some(roster[0].1)
    } else {
        roster_promotion(roster.drop_first(), id)
    }
}

/// A seat the run refuses: its operator is not in the data, or not in the
/// roster when a missing roster entry is fatal.
pub open spec fn seat_refused(
    data: GameData,
    roster: Seq<(OperatorId, UnlockCond)>,
    missing: MissingRoster,
) -> spec_fn(Seat) -> bool {
    |s: Seat|
        data.spec_operator(s.2) is None || (roster_promotion(roster, s.2) is None && missing
            == MissingRoster::Error)
}

/// The promotion a run uses for an operator: the roster's, else fully
/// raised.
pub open spec fn promotion_of(roster: Seq<(OperatorId, UnlockCond)>, id: Seq<char>) -> UnlockCond {
    match roster_promotion(roster, id) {
        Some(p) => p,
        None => UnlockCond { phase: crate::enums::ElitePhase::E2, level: 90 },
    }
}

/// The warning a run records for an operator the roster lacks.
pub open spec fn not_in_roster_key(id: Seq<char>) -> WarningKey {
    (11, seq![id], 0)
}

/// The warnings building a world records: one per stationed operator the
/// roster lacks.
pub open spec fn roster_warnings(s: Seq<Seat>, roster: Seq<(OperatorId, UnlockCond)>) -> Set<WarningKey> {
    Set::new(
        |k: WarningKey|
            exists|j: int|
                0 <= j < s.len() && roster_promotion(roster, #[trigger] s[j].2) is None && k == not_in_roster_key(
                    s[j].2,
                ),
    )
}

/// The positions of the seats in room `ri`, in order.
pub open spec fn seats_in_room(s: Seq<Seat>, ri: int) -> Seq<int>
    decreases s.len(),
{
    if s.len() == 0 {
        Seq::empty()
    } else {
        let prev = seats_in_room(s.drop_last(), ri);
        if s.last().0 == ri {
            prev.push(s.len() - 1)
        } else {
            prev
        }
    }
}

/// A stationed operator, resolved.
#[derive(Debug)]
pub struct OpInfo<'a> {
    /// Upstream id.
    pub id: &'a OperatorId,
    /// Game data for the operator.
    pub op: &'a Operator,
    /// Promotion, from the roster or assumed maxed.
    pub promotion: UnlockCond,
    /// Buffs active at that promotion, one per unlocked skill slot.
    pub buffs: Vec<&'a BuffId>,
    /// Index into `World::rooms`.
    pub room: usize,
    /// Slot index within the room.
    pub slot: u8,
}

/// The resolved base.
#[derive(Debug)]
pub struct World<'a> {
    /// Game data.
    pub data: &'a GameData,
    /// The base.
    pub base: &'a BaseConfig,
    /// Rooms in base order.
    pub rooms: Vec<RoomView<'a>>,
    /// Stationed operators.
    pub ops: Vec<OpInfo<'a>>,
    /// Per room: a Training Room with a job that has not finished.
    pub training_active: Vec<bool>,
    /// Group memberships the game data does not define.
    pub memberships: &'a Memberships,
}


/// A resolved operator matches its seat.
pub open spec fn seat_info(o: OpInfo, s: Seat, data: GameData, roster: Seq<(OperatorId, UnlockCond)>) -> bool {
    &&& o.id@ == s.2
    &&& o.room == s.0
    &&& o.slot as int == crate::assignment::idx8(s.1)
    &&& data.spec_operator(s.2) == Some(*o.op)
    &&& o.promotion == promotion_of(roster, s.2)
    &&& o.buffs@.map_values(|b: &BuffId| *b) == active_buffs_of(o.op.skill_slots@, o.promotion)
}

/// The promotion a roster lists for an operator.
fn roster_lookup(roster: &[(OperatorId, UnlockCond)], id: &str) -> (r: Option<UnlockCond>)
    ensures
        r == roster_promotion(roster@, id@),
{
    let mut i: usize = 0;
    proof {
        assert(roster@.skip(0) =~= roster@);
    }
    while i < roster.len()
        invariant
            i <= roster@.len(),
            roster_promotion(roster@, id@) == roster_promotion(roster@.skip(i as int), id@),
        decreases roster@.len() - i,
    {
        proof {
            assert(roster@.skip(i as int).drop_first() =~= roster@.skip(i + 1));
        }
        if str_eq(roster[i].0.as_str(), id) {
            return Some(roster[i].1);
        }
        i = i + 1;
    }
    None
}

/// One more cell, one more step of a room's seats.
proof fn lemma_room_seats_step(ri: int, c: Seq<Option<Seq<char>>>, i: int)
    requires
        0 <= i < c.len(),
    ensures
        room_seats(ri, c.take(i + 1)) == (match c[i] {
            Some(o) => room_seats(ri, c.take(i)).push((ri, i, o)),
            None => room_seats(ri, c.take(i)),
        }),
{
    assert(c.take(i + 1).drop_last() =~= c.take(i));
}

/// Every seat of a room sits in that room, at a slot within its cells.
proof fn lemma_room_seats_shape(ri: int, c: Seq<Option<Seq<char>>>)
    ensures
        forall|k: int| 0 <= k < room_seats(ri, c).len() ==> #[trigger] room_seats(ri, c)[k].0 == ri,
    decreases c.len(),
{
    if c.len() > 0 {
        lemma_room_seats_shape(ri, c.drop_last());
        let prev = room_seats(ri, c.drop_last());
        assert forall|k: int| 0 <= k < room_seats(ri, c).len() implies #[trigger] room_seats(ri, c)[k].0 == ri by {
            if k < prev.len() {
                assert(prev[k].0 == ri);
            }
        }
    }
}

/// Seats of rooms before `ri` are never in room `ri` or later.
proof fn lemma_seats_rooms(rooms: Seq<Room>, v: AssignmentView)
    ensures
        forall|k: int| 0 <= k < seats(rooms, v).len() ==> 0 <= #[trigger] seats(rooms, v)[k].0 < rooms.len(),
    decreases rooms.len(),
{
    if rooms.len() > 0 {
        lemma_seats_rooms(rooms.drop_last(), v);
        let a = seats(rooms.drop_last(), v);
        let b = room_seats(rooms.len() - 1, base_cells(v, rooms.last()));
        lemma_room_seats_shape(rooms.len() - 1, base_cells(v, rooms.last()));
        assert forall|k: int| 0 <= k < (a + b).len() implies 0 <= #[trigger] (a + b)[k].0 < rooms.len() by {
            if k < a.len() {
                assert((a + b)[k] == a[k]);
            } else {
                assert((a + b)[k] == b[k - a.len()]);
            }
        }
    }
}

/// Appending seats of other rooms leaves a room's seat positions alone;
/// appending seats of that room adds their positions.
proof fn lemma_seats_in_room_append(a: Seq<Seat>, b: Seq<Seat>, ri: int)
    ensures
        (forall|k: int| 0 <= k < b.len() ==> #[trigger] b[k].0 != ri) ==> seats_in_room(a + b, ri)
            == seats_in_room(a, ri),
    decreases b.len(),
{
    if b.len() > 0 {
        lemma_seats_in_room_append(a, b.drop_last(), ri);
        assert((a + b).drop_last() =~= a + b.drop_last());
        if forall|k: int| 0 <= k < b.len() ==> #[trigger] b[k].0 != ri {
            assert(b.drop_last().len() < b.len());
            assert forall|k: int| 0 <= k < b.drop_last().len() implies #[trigger] b.drop_last()[k].0 != ri by {
                assert(b.drop_last()[k] == b[k]);
            }
            assert(b[b.len() - 1].0 != ri);
        }
    } else {
        assert(a + b =~= a);
    }
}

/// One more room, one more step of the base's seats.
proof fn lemma_seats_step(rooms: Seq<Room>, v: AssignmentView, q: int)
    requires
        0 <= q < rooms.len(),
    ensures
        seats(rooms.take(q + 1), v) == seats(rooms.take(q), v) + room_seats(q, base_cells(v, rooms[q])),
{
    assert(rooms.take(q + 1).drop_last() =~= rooms.take(q));
}


/// One more seat, one more step of the roster warnings.
proof fn lemma_roster_warnings_push(s: Seq<Seat>, t: Seat, roster: Seq<(OperatorId, UnlockCond)>)
    ensures
        roster_warnings(s.push(t), roster) == if roster_promotion(roster, t.2) is None {
            roster_warnings(s, roster).insert(not_in_roster_key(t.2))
        } else {
            roster_warnings(s, roster)
        },
{
    let a = roster_warnings(s.push(t), roster);
    let b = if roster_promotion(roster, t.2) is None {
        roster_warnings(s, roster).insert(not_in_roster_key(t.2))
    } else {
        roster_warnings(s, roster)
    };
    assert forall|k: WarningKey| a.contains(k) <==> b.contains(k) by {
        if a.contains(k) {
            let j = choose|j: int|
                0 <= j < s.push(t).len() && roster_promotion(roster, #[trigger] s.push(t)[j].2) is None && k
                    == not_in_roster_key(s.push(t)[j].2);
            if j < s.len() {
                assert(s.push(t)[j] == s[j]);
                assert(roster_warnings(s, roster).contains(k));
            }
        }
        if roster_warnings(s, roster).contains(k) {
            let j = choose|j: int|
                0 <= j < s.len() && roster_promotion(roster, #[trigger] s[j].2) is None && k == not_in_roster_key(
                    s[j].2,
                );
            assert(s.push(t)[j] == s[j]);
        }
        if roster_promotion(roster, t.2) is None && k == not_in_roster_key(t.2) {
            assert(s.push(t)[s.len() as int] == t);
        }
    }
    assert(a =~= b);
}

/// What `World::build` resolves, and what it records.
pub open spec fn world_fits(
    w: World,
    data: GameData,
    base: BaseConfig,
    v: AssignmentView,
    roster: Seq<(OperatorId, UnlockCond)>,
) -> bool {
    let s = seats(base.rooms@, v);
    &&& *w.data == data
    &&& *w.base == base
    &&& w.rooms@.len() == base.rooms@.len()
    &&& forall|ri: int| 0 <= ri < w.rooms@.len() ==> *(#[trigger] w.rooms@[ri]).room == base.rooms@[ri]
        && w.rooms@[ri].occupants@.map_values(|x: usize| x as int) == seats_in_room(s, ri)
    &&& w.ops@.len() == s.len()
    &&& forall|k: int| 0 <= k < s.len() ==> seat_info(#[trigger] w.ops@[k], s[k], data, roster)
    &&& w.training_active@.len() == base.rooms@.len()
    &&& forall|ri: int| 0 <= ri < base.rooms@.len() ==> #[trigger] w.training_active@[ri] == (base.rooms@[ri].kind
        == RoomType::Training && base.rooms@[ri].settings.training is Some)
}

impl<'a> World<'a> {
    /// Resolves an assignment against the base, the roster's promotions and
    /// the game data. An operator the data lacks is refused; one the roster
    /// lacks is assumed fully raised, with a warning, unless `missing` says
    /// that is fatal.
    pub fn build(
        data: &'a GameData,
        base: &'a BaseConfig,
        assignment: &'a Assignment,
        roster: &[(OperatorId, UnlockCond)],
        missing: MissingRoster,
        memberships: &'a Memberships,
        warn: &mut Warnings,
    ) -> (r: Result<Self, SimError>)
        requires
            old(warn).wf(),
        ensures
            final(warn).wf(),
            ({
                let s = seats(base.rooms@, assignment@);
                let bad = first_index(s, seat_refused(*data, roster@, missing));
                if bad >= 0 {
                    if data.spec_operator(s[bad].2) is None {
                        r matches Err(SimError::UnknownOperator(o)) && o@ == s[bad].2
                    } else {
                        r matches Err(SimError::MissingRoster(o)) && o@ == s[bad].2
                    }
                } else {
                    &&& r matches Ok(w) && world_fits(w, *data, *base, assignment@, roster@) && w.memberships == memberships
                        && w.wf()
                    &&& final(warn)@.to_set() == old(warn)@.to_set().union(roster_warnings(s, roster@))
                }
            }),
    {
        let ghost v = assignment@;
        let ghost rooms = base.rooms@;
        let ghost start_set = warn@.to_set();
        let ghost refused = seat_refused(*data, roster@, missing);
        let mut room_views: Vec<RoomView<'a>> = Vec::new();
        let mut ops: Vec<OpInfo<'a>> = Vec::new();
        let mut ri: usize = 0;
        proof {
            assert(rooms.take(0) =~= Seq::<Room>::empty());
            assert(warn@.to_set().union(roster_warnings(seats(rooms.take(0), v), roster@)) =~= start_set);
        }
        while ri < base.rooms.len()
            invariant
                v == assignment@,
                rooms == base.rooms@,
                refused == seat_refused(*data, roster@, missing),
                warn.wf(),
                ri <= rooms.len(),
                ops@.len() == seats(rooms.take(ri as int), v).len(),
                forall|k: int| 0 <= k < ops@.len() ==> seat_info(#[trigger] ops@[k], seats(rooms.take(ri as int), v)[k], *data, roster@),
                forall|k: int| 0 <= k < ops@.len() ==> !refused(#[trigger] seats(rooms.take(ri as int), v)[k]),
                warn@.to_set() == start_set.union(roster_warnings(seats(rooms.take(ri as int), v), roster@)),
                room_views@.len() == ri,
                forall|j: int| 0 <= j < ri ==> *(#[trigger] room_views@[j]).room == rooms[j]
                    && room_views@[j].occupants@.map_values(|x: usize| x as int) == seats_in_room(seats(rooms.take(ri as int), v), j),
            decreases rooms.len() - ri,
        {
            let room = &base.rooms[ri];
            let ghost before = seats(rooms.take(ri as int), v);
            let ghost c = base_cells(v, *room);
            let mut occupants: Vec<usize> = Vec::new();
            proof {
                lemma_seats_step(rooms, v, ri as int);
                lemma_seats_rooms(rooms.take(ri as int), v);
                assert(c.take(0) =~= Seq::<Option<Seq<char>>>::empty());
                assert(before + room_seats(ri as int, c.take(0)) =~= before);
                lemma_seats_in_room_append(Seq::empty(), before, ri as int);
                assert(Seq::<Seat>::empty() + before =~= before);
                assert(occupants@.map_values(|x: usize| x as int) =~= seats_in_room(before, ri as int));
            }
            match assignment.slots(room.id.as_str()) {
                None => {
                    proof {
                        assert(c =~= Seq::<Option<Seq<char>>>::empty());
                    }
                },
                Some(cells) => {
                    proof {
                        lemma_key_index(v, room.id@);
                        assert(c == crate::assignment::cells_view(cells@));
                    }
                    let mut si: usize = 0;
                    while si < cells.len()
                        invariant
                            v == assignment@,
                            rooms == base.rooms@,
                            refused == seat_refused(*data, roster@, missing),
                            warn.wf(),
                            ri < rooms.len(),
                            *room == rooms[ri as int],
                            c == base_cells(v, *room),
                            c == crate::assignment::cells_view(cells@),
                            before == seats(rooms.take(ri as int), v),
                            forall|k: int| 0 <= k < before.len() ==> 0 <= #[trigger] before[k].0 < ri,
                            si <= cells@.len(),
                            ops@.len() == (before + room_seats(ri as int, c.take(si as int))).len(),
                            forall|k: int| 0 <= k < ops@.len() ==> seat_info(#[trigger] ops@[k], (before + room_seats(ri as int, c.take(si as int)))[k], *data, roster@),
                            forall|k: int| 0 <= k < ops@.len() ==> !refused(#[trigger] (before + room_seats(ri as int, c.take(si as int)))[k]),
                            warn@.to_set() == start_set.union(roster_warnings(before + room_seats(ri as int, c.take(si as int)), roster@)),
                            occupants@.map_values(|x: usize| x as int) == seats_in_room(before + room_seats(ri as int, c.take(si as int)), ri as int),
                        decreases cells@.len() - si,
                    {
                        let ghost cur = before + room_seats(ri as int, c.take(si as int));
                        proof {
                            lemma_room_seats_step(ri as int, c, si as int);
                            assert(c[si as int] == crate::assignment::cell_view(cells@[si as int]));
                        }
                        match &cells[si] {
                            None => {
                                proof {
                                    assert(before + room_seats(ri as int, c.take(si + 1)) =~= cur);
                                }
                            },
                            Some(id) => {
                                let ghost seat: Seat = (ri as int, si as int, id@);
                                proof {
                                    assert(before + room_seats(ri as int, c.take(si + 1)) =~= cur.push(seat));
                                }
                                let op = match data.operator(id.as_str()) {
                                    Some(o) => o,
                                    None => {
                                        proof {
                                            assert(refused(cur.push(seat)[cur.len() as int]));
                                            lemma_seat_prefix(rooms, v, ri as int, si + 1);
                                            lemma_first_index_prefix(seats(rooms, v), cur.push(seat), refused);
                                        }
                                        return Err(SimError::UnknownOperator(id.duplicate()));
                                    },
                                };
                                let promotion = match roster_lookup(roster, id.as_str()) {
                                    Some(p) => p,
                                    None => match missing {
                                        MissingRoster::AssumeMaxed => {
                                            warn.push(SimWarning::OperatorNotInRoster { operator: id.duplicate() });
                                            UnlockCond::max()
                                        },
                                        MissingRoster::Error => {
                                            proof {
                                                assert(refused(cur.push(seat)[cur.len() as int]));
                                                lemma_seat_prefix(rooms, v, ri as int, si + 1);
                                                lemma_first_index_prefix(seats(rooms, v), cur.push(seat), refused);
                                            }
                                            return Err(SimError::MissingRoster(id.duplicate()));
                                        },
                                    },
                                };
                                proof {
                                    lemma_roster_warnings_push(cur, seat, roster@);
                                    assert(start_set.union(roster_warnings(cur, roster@)).insert(not_in_roster_key(id@))
                                        =~= start_set.union(roster_warnings(cur, roster@).insert(not_in_roster_key(id@))));
                                }
                                let buffs = op.active_buffs(promotion);
                                let ghost old_ops = ops@;
                                occupants.push(ops.len());
                                ops.push(OpInfo { id, op, promotion, buffs, room: ri, slot: crate::assignment::index_u8(si) });
                                proof {
                                    let nxt = cur.push(seat);
                                    assert forall|k: int| 0 <= k < ops@.len() implies seat_info(#[trigger] ops@[k], nxt[k], *data, roster@) by {
                                        if k < old_ops.len() {
                                            assert(ops@[k] == old_ops[k]);
                                            assert(nxt[k] == cur[k]);
                                        }
                                    }
                                    assert forall|k: int| 0 <= k < ops@.len() implies !refused(#[trigger] nxt[k]) by {
                                        if k < old_ops.len() {
                                            assert(nxt[k] == cur[k]);
                                        }
                                    }
                                    assert(seats_in_room(nxt, ri as int) == seats_in_room(cur, ri as int).push(cur.len() as int)) by {
                                        assert(nxt.drop_last() =~= cur);
                                    }
                                    assert(occupants@.map_values(|x: usize| x as int) =~= seats_in_room(nxt, ri as int));
                                }
                            },
                        }
                        si = si + 1;
                    }
                    proof {
                        assert(c.take(si as int) =~= c);
                    }
                },
            }
            proof {
                if c.len() == 0 {
                    assert(c.take(0) =~= c);
                }
            }
            let ghost old_views = room_views@;
            room_views.push(RoomView { room, occupants });
            proof {
                let after = seats(rooms.take(ri + 1), v);
                let more = room_seats(ri as int, c);
                lemma_room_seats_shape(ri as int, c);
                assert forall|j: int| 0 <= j < ri + 1 implies *(#[trigger] room_views@[j]).room == rooms[j]
                    && room_views@[j].occupants@.map_values(|x: usize| x as int) == seats_in_room(after, j) by {
                    if j < ri {
                        assert(room_views@[j] == old_views[j]);
                        assert forall|k: int| 0 <= k < more.len() implies #[trigger] more[k].0 != j by {}
                        lemma_seats_in_room_append(before, more, j);
                    }
                }
            }
            ri = ri + 1;
        }
        proof {
            assert(rooms.take(rooms.len() as int) =~= rooms);
            lemma_first_index_none(seats(rooms, v), refused);
            lemma_seats_rooms(rooms, v);
            assert forall|k: int| 0 <= k < ops@.len() implies #[trigger] ops@[k].room < rooms.len() by {
                assert(seat_info(ops@[k], seats(rooms, v)[k], *data, roster@));
            }
        }
        let mut training_active: Vec<bool> = Vec::new();
        let mut q: usize = 0;
        while q < base.rooms.len()
            invariant
                q <= base.rooms@.len(),
                training_active@.len() == q,
                forall|j: int| 0 <= j < q ==> #[trigger] training_active@[j] == (base.rooms@[j].kind
                    == RoomType::Training && base.rooms@[j].settings.training is Some),
            decreases base.rooms@.len() - q,
        {
            let r = &base.rooms[q];
            training_active.push(r.kind == RoomType::Training && r.settings.training.is_some());
            q = q + 1;
        }
        Ok(World { data, base, rooms: room_views, ops, training_active, memberships })
    }
}


/// A prefix that ends at the first element satisfying `p` fixes the first
/// index in the whole sequence.
proof fn lemma_first_index_prefix(s: Seq<Seat>, pre: Seq<Seat>, p: spec_fn(Seat) -> bool)
    requires
        pre.is_prefix_of(s),
        pre.len() > 0,
        p(pre[pre.len() - 1]),
        forall|k: int| 0 <= k < pre.len() - 1 ==> !p(#[trigger] pre[k]),
    ensures
        first_index(s, p) == pre.len() - 1,
{
    assert forall|k: int| 0 <= k < pre.len() - 1 implies !p(s[k]) by {
        assert(s[k] == pre[k]);
    }
    assert(s[pre.len() - 1] == pre[pre.len() - 1]);
    lemma_first_index_is(s, p, pre.len() - 1);
}

/// The seats of a room's first cells come first among its seats.
proof fn lemma_room_seats_prefix(ri: int, c: Seq<Option<Seq<char>>>, m: int)
    requires
        0 <= m <= c.len(),
    ensures
        room_seats(ri, c.take(m)).is_prefix_of(room_seats(ri, c)),
    decreases c.len() - m,
{
    if m == c.len() {
        assert(c.take(m) =~= c);
    } else {
        lemma_room_seats_prefix(ri, c, m + 1);
        lemma_room_seats_step(ri, c, m);
    }
}

/// The seats of the first rooms come first among the base's seats.
proof fn lemma_seats_prefix(rooms: Seq<Room>, v: AssignmentView, q: int)
    requires
        0 <= q <= rooms.len(),
    ensures
        seats(rooms.take(q), v).is_prefix_of(seats(rooms, v)),
    decreases rooms.len() - q,
{
    if q == rooms.len() {
        assert(rooms.take(q) =~= rooms);
    } else {
        lemma_seats_prefix(rooms, v, q + 1);
        lemma_seats_step(rooms, v, q);
    }
}

/// The seats up to a cell of a room come first among the base's seats.
proof fn lemma_seat_prefix(rooms: Seq<Room>, v: AssignmentView, q: int, m: int)
    requires
        0 <= q < rooms.len(),
        0 <= m <= base_cells(v, rooms[q]).len(),
    ensures
        (seats(rooms.take(q), v) + room_seats(q, base_cells(v, rooms[q]).take(m))).is_prefix_of(seats(rooms, v)),
{
    let c = base_cells(v, rooms[q]);
    lemma_room_seats_prefix(q, c, m);
    lemma_seats_prefix(rooms, v, q + 1);
    lemma_seats_step(rooms, v, q);
    let a = seats(rooms.take(q), v);
    let b = room_seats(q, c.take(m));
    let full = room_seats(q, c);
    let all = seats(rooms, v);
    assert forall|k: int| 0 <= k < (a + b).len() implies (a + b)[k] == all[k] by {
        assert(all[k] == (a + full)[k]);
        if k >= a.len() {
            assert(full[k - a.len()] == b[k - a.len()]);
        }
    }
    assert((a + b) =~= all.subrange(0, (a + b).len() as int));
}


/// What a stationed operator does in a room of a kind, at a slot, with the
/// room's training running or not.
pub open spec fn spec_role(kind: RoomType, slot: u8, training_active: bool) -> Role {
    if kind == RoomType::Dormitory {
        Role::Resting
    } else if kind == RoomType::Training {
        if slot == TRAINING_TRAINEE_SLOT || !training_active {
            Role::Idle
        } else {
            Role::Working
        }
    } else if kind.spec_is_work_area() {
        Role::Working
    } else {
        Role::Idle
    }
}

/// In a Training Room the trainee (slot 1) never works, and the assistant
/// (slot 0) works exactly while the room's training runs; in a dormitory
/// everyone rests.
pub proof fn law_training_roles(kind: RoomType, slot: u8, training_active: bool)
    ensures
        kind == RoomType::Training && slot == 1 ==> spec_role(kind, slot, training_active) != Role::Working,
        kind == RoomType::Training && slot == 0 ==> (spec_role(kind, slot, training_active) == Role::Working
            <==> training_active),
        kind == RoomType::Dormitory ==> spec_role(kind, slot, training_active) == Role::Resting,
{
}

/// The positions below `n` that satisfy `p`, in order.
pub open spec fn positions(n: int, p: spec_fn(int) -> bool) -> Seq<int>
    decreases n,
{
    if n <= 0 {
        Seq::empty()
    } else if p(n - 1) {
        positions(n - 1, p).push(n - 1)
    } else {
        positions(n - 1, p)
    }
}

/// The occupants of the listed rooms, rooms in order.
pub open spec fn occupants_of(rooms: Seq<RoomView>, idx: Seq<int>) -> Seq<int>
    decreases idx.len(),
{
    if idx.len() == 0 {
        Seq::empty()
    } else {
        occupants_of(rooms, idx.drop_last()) + rooms[idx.last()].occupants@.map_values(|x: usize| x as int)
    }
}

/// The membership list of a glossary tag: its first table entry.
pub open spec fn tag_members(tags: Seq<(String, Vec<OperatorId>)>, tag: Seq<char>) -> Option<Seq<OperatorId>>
    decreases tags.len(),
{
    if tags.len() == 0 {
        None
    } else if tags[0].0@ == tag {
        Some(tags[0].1@)
    } else {
        tag_members(tags.drop_first(), tag)
    }
}

/// Whether a list of operators holds an id.
pub open spec fn lists_id(members: Seq<OperatorId>, id: Seq<char>) -> bool {
    exists|i: int| 0 <= i < members.len() && #[trigger] members[i]@ == id
}

impl<'a> World<'a> {
    /// Every operator sits in one of the rooms, which each have a training
    /// flag.
    pub open spec fn wf(&self) -> bool {
        &&& self.training_active@.len() == self.rooms@.len()
        &&& forall|k: int| 0 <= k < self.ops@.len() ==> #[trigger] self.ops@[k].room < self.rooms@.len()
    }

    /// The room an operator is in.
    pub fn room_of(&self, o: usize) -> (r: &RoomView<'a>)
        requires
            self.wf(),
            o < self.ops@.len(),
        ensures
            *r == self.rooms@[self.ops@[o as int].room as int],
    {
        &self.rooms[self.ops[o].room]
    }

    /// What an operator is doing.
    pub fn role(&self, o: usize) -> (r: Role)
        requires
            self.wf(),
            o < self.ops@.len(),
        ensures
            ({
                let info = self.ops@[o as int];
                r == spec_role(self.rooms@[info.room as int].room.kind, info.slot, self.training_active@[info.room as int])
            }),
            ({
                let info = self.ops@[o as int];
                let kind = self.rooms@[info.room as int].room.kind;
                &&& kind == RoomType::Training && info.slot == 1 ==> r != Role::Working
                &&& kind == RoomType::Training && info.slot == 0 ==> (r == Role::Working
                    <==> self.training_active@[info.room as int])
                &&& kind == RoomType::Dormitory ==> r == Role::Resting
            }),
    {
        let info = &self.ops[o];
        let kind = self.rooms[info.room].room.kind;
        match kind {
            RoomType::Dormitory => Role::Resting,
            RoomType::Training => {
                if info.slot == TRAINING_TRAINEE_SLOT || !self.training_active[info.room] {
                    Role::Idle
                } else {
                    Role::Working
                }
            },
            _ => {
                if kind.is_work_area() {
                    Role::Working
                } else {
                    Role::Idle
                }
            },
        }
    }

    /// Indexes of every room of a kind.
    pub fn rooms_of(&self, kind: RoomType) -> (r: Vec<usize>)
        ensures
            r@.map_values(|x: usize| x as int) == positions(self.rooms@.len() as int, |i: int| self.rooms@[i].room.kind == kind),
    {
        let ghost p = |i: int| self.rooms@[i].room.kind == kind;
        let mut out: Vec<usize> = Vec::new();
        let mut i: usize = 0;
        while i < self.rooms.len()
            invariant
                p == (|i: int| self.rooms@[i].room.kind == kind),
                i <= self.rooms@.len(),
                out@.map_values(|x: usize| x as int) == positions(i as int, p),
            decreases self.rooms@.len() - i,
        {
            let ghost before = out@;
            if self.rooms[i].room.kind == kind {
                out.push(i);
                proof {
                    assert(out@.map_values(|x: usize| x as int) =~= before.map_values(|x: usize| x as int).push(i as int));
                }
            }
            i = i + 1;
        }
        proof {
            assert(p =~= (|i: int| self.rooms@[i].room.kind == kind));
        }
        out
    }

    /// Occupants of the listed rooms, rooms in order.
    fn occupants_in(&self, idx: &Vec<usize>) -> (r: Vec<usize>)
        requires
            forall|k: int| 0 <= k < idx@.len() ==> #[trigger] idx@[k] < self.rooms@.len(),
        ensures
            r@.map_values(|x: usize| x as int) == occupants_of(self.rooms@, idx@.map_values(|x: usize| x as int)),
    {
        let ghost ix = idx@.map_values(|x: usize| x as int);
        let mut out: Vec<usize> = Vec::new();
        let mut j: usize = 0;
        proof {
            assert(ix.take(0) =~= Seq::<int>::empty());
            assert(out@.map_values(|x: usize| x as int) =~= occupants_of(self.rooms@, ix.take(0)));
        }
        while j < idx.len()
            invariant
                ix == idx@.map_values(|x: usize| x as int),
                forall|k: int| 0 <= k < idx@.len() ==> #[trigger] idx@[k] < self.rooms@.len(),
                j <= idx@.len(),
                out@.map_values(|x: usize| x as int) == occupants_of(self.rooms@, ix.take(j as int)),
            decreases idx@.len() - j,
        {
            let occ = &self.rooms[idx[j]].occupants;
            let ghost start = out@.map_values(|x: usize| x as int);
            let mut t: usize = 0;
            while t < occ.len()
                invariant
                    t <= occ@.len(),
                    out@.map_values(|x: usize| x as int) == start + occ@.take(t as int).map_values(|x: usize| x as int),
                decreases occ@.len() - t,
            {
                let ghost before = out@;
                out.push(occ[t]);
                proof {
                    assert(out@.map_values(|x: usize| x as int) =~= before.map_values(|x: usize| x as int).push(
                        occ@[t as int] as int,
                    ));
                    assert(occ@.take(t + 1).map_values(|x: usize| x as int) =~= occ@.take(t as int).map_values(
                        |x: usize| x as int,
                    ).push(occ@[t as int] as int));
                    assert(out@.map_values(|x: usize| x as int) =~= start + occ@.take(t + 1).map_values(|x: usize| x as int));
                }
                t = t + 1;
            }
            proof {
                assert(occ@.take(t as int) =~= occ@);
                assert(ix.take(j + 1).drop_last() =~= ix.take(j as int));
                assert(ix.take(j + 1).last() == idx@[j as int] as int);
                assert(out@.map_values(|x: usize| x as int) =~= occupants_of(self.rooms@, ix.take(j + 1)));
            }
            j = j + 1;
        }
        proof {
            assert(ix.take(j as int) =~= ix);
        }
        out
    }

    /// Indexes of every operator in rooms of a kind.
    pub fn ops_in_rooms_of(&self, kind: RoomType) -> (r: Vec<usize>)
        ensures
            r@.map_values(|x: usize| x as int) == occupants_of(
                self.rooms@,
                positions(self.rooms@.len() as int, |i: int| self.rooms@[i].room.kind == kind),
            ),
    {
        let idx = self.rooms_of(kind);
        proof {
            lemma_positions_bound(self.rooms@.len() as int, |i: int| self.rooms@[i].room.kind == kind);
            assert forall|k: int| 0 <= k < idx@.len() implies #[trigger] idx@[k] < self.rooms@.len() by {
                assert(idx@.map_values(|x: usize| x as int)[k] == idx@[k] as int);
            }
        }
        self.occupants_in(&idx)
    }

    /// Indexes of every operator in a work area.
    pub fn ops_in_work_areas(&self) -> (r: Vec<usize>)
        ensures
            r@.map_values(|x: usize| x as int) == occupants_of(
                self.rooms@,
                positions(self.rooms@.len() as int, |i: int| self.rooms@[i].room.kind.spec_is_work_area()),
            ),
    {
        let ghost p = |i: int| self.rooms@[i].room.kind.spec_is_work_area();
        let mut idx: Vec<usize> = Vec::new();
        let mut i: usize = 0;
        while i < self.rooms.len()
            invariant
                p == (|i: int| self.rooms@[i].room.kind.spec_is_work_area()),
                i <= self.rooms@.len(),
                idx@.map_values(|x: usize| x as int) == positions(i as int, p),
            decreases self.rooms@.len() - i,
        {
            let ghost before = idx@;
            if self.rooms[i].room.kind.is_work_area() {
                idx.push(i);
                proof {
                    assert(idx@.map_values(|x: usize| x as int) =~= before.map_values(|x: usize| x as int).push(i as int));
                }
            }
            i = i + 1;
        }
        proof {
            lemma_positions_bound(self.rooms@.len() as int, p);
            assert forall|k: int| 0 <= k < idx@.len() implies #[trigger] idx@[k] < self.rooms@.len() by {
                assert(idx@.map_values(|x: usize| x as int)[k] == idx@[k] as int);
            }
            assert(p =~= (|i: int| self.rooms@[i].room.kind.spec_is_work_area()));
        }
        self.occupants_in(&idx)
    }

    /// Index of an operator by id: the last stationed operator with it.
    pub fn index_of(&self, id: &str) -> (r: Option<usize>)
        ensures
            match r {
                Some(k) => k < self.ops@.len() && self.ops@[k as int].id@ == id@ && forall|j: int|
                    k < j < self.ops@.len() ==> (#[trigger] self.ops@[j]).id@ != id@,
                None => forall|j: int| 0 <= j < self.ops@.len() ==> (#[trigger] self.ops@[j]).id@ != id@,
            },
    {
        let mut i: usize = self.ops.len();
        while i > 0
            invariant
                i <= self.ops@.len(),
                forall|j: int| i <= j < self.ops@.len() ==> (#[trigger] self.ops@[j]).id@ != id@,
            decreases i,
        {
            if str_eq(self.ops[i - 1].id.as_str(), id) {
                return Some(i - 1);
            }
            i = i - 1;
        }
        None
    }

    /// Finds a referenced operator: by resolved id if the reference has one
    /// (the last stationed operator with it), else the first stationed
    /// operator with the display name.
    pub fn find_op(&self, who: &OperatorRef) -> (r: Option<usize>)
        ensures
            who.id is Some ==> match r {
                Some(k) => k < self.ops@.len() && self.ops@[k as int].id@ == who.id->0@ && forall|j: int|
                    k < j < self.ops@.len() ==> (#[trigger] self.ops@[j]).id@ != who.id->0@,
                None => forall|j: int| 0 <= j < self.ops@.len() ==> (#[trigger] self.ops@[j]).id@ != who.id->0@,
            },
            who.id is None ==> match r {
                Some(k) => k < self.ops@.len() && self.ops@[k as int].op.name@ == who.name@ && forall|j: int|
                    0 <= j < k ==> (#[trigger] self.ops@[j]).op.name@ != who.name@,
                None => forall|j: int| 0 <= j < self.ops@.len() ==> (#[trigger] self.ops@[j]).op.name@ != who.name@,
            },
    {
        match &who.id {
            Some(id) => self.index_of(id.as_str()),
            None => {
                let mut i: usize = 0;
                while i < self.ops.len()
                    invariant
                        who.id is None,
                        i <= self.ops@.len(),
                        forall|j: int| 0 <= j < i ==> (#[trigger] self.ops@[j]).op.name@ != who.name@,
                    decreases self.ops@.len() - i,
                {
                    if str_eq(self.ops[i].op.name.as_str(), who.name.as_str()) {
                        return Some(i);
                    }
                    i = i + 1;
                }
                None
            },
        }
    }

    /// Whether an operator belongs to a group. `None` when the group has no
    /// membership definition (a warning is recorded).
    pub fn in_group(&self, o: usize, group: &Group, skill: &BuffId, warn: &mut Warnings) -> (r: Option<bool>)
        requires
            o < self.ops@.len(),
            old(warn).wf(),
        ensures
            final(warn).wf(),
            ({
                let op = *self.ops@[o as int].op;
                match *group {
                    Group::Power(p) => r == Some(has_power(op, p@))
                        && final(warn)@ == old(warn)@ && (r == Some(true) <==> exists|i: int|
                        0 <= i < op.power_list().len() && #[trigger] op.power_list()[i]@ == p@),
                    Group::Profession(p) => r == Some(op.profession == p) && final(warn)@ == old(warn)@,
                    Group::Tag(tag) => match tag_members(self.memberships.tags@, tag@) {
                        Some(members) => r == Some(lists_id(members, op.id@)) && final(warn)@ == old(warn)@,
                        None => r is None && final(warn)@.to_set() == old(warn)@.to_set().insert(
                            warning_key(SimWarning::UnknownTag { skill: *skill, tag }),
                        ),
                    },
                    Group::Subclass(name) => match resolve_subclass(self.memberships.subclass_names@, name@) {
                        Some(id) => r == Some(op.sub_profession@ == id) && final(warn)@ == old(warn)@,
                        None => r is None && final(warn)@.to_set() == old(warn)@.to_set().insert(
                            warning_key(SimWarning::UnknownSubclassName { skill: *skill, name }),
                        ),
                    },
                }
            }),
    {
        let op = self.ops[o].op;
        match group {
            Group::Power(p) => {
                proof {
                    law_power_among_powers(*op, p@);
                }
                Some(power_matches(&op.nation, p) || power_matches(&op.group, p) || power_matches(&op.team, p))
            },
            Group::Profession(p) => Some(op.profession == *p),
            Group::Tag(tag) => match self.tag_members_of(tag.as_str()) {
                Some(members) => {
                    let mut found = false;
                    let mut i: usize = 0;
                    while i < members.len()
                        invariant
                            i <= members@.len(),
                            found == exists|j: int| 0 <= j < i && #[trigger] members@[j]@ == op.id@,
                        decreases members@.len() - i,
                    {
                        if members[i].same(&op.id) {
                            found = true;
                        }
                        i = i + 1;
                    }
                    Some(found)
                },
                None => {
                    warn.push(SimWarning::UnknownTag { skill: skill.duplicate(), tag: tag.clone() });
                    None
                },
            },
            Group::Subclass(name) => match self.memberships.subclass_id(name.as_str()) {
                Some(id) => Some(str_eq(op.sub_profession.as_str(), id)),
                None => {
                    warn.push(SimWarning::UnknownSubclassName { skill: skill.duplicate(), name: name.clone() });
                    None
                },
            },
        }
    }

    /// The membership list of a glossary tag.
    fn tag_members_of(&self, tag: &str) -> (r: Option<&'a Vec<OperatorId>>)
        ensures
            match r {
                Some(m) => tag_members(self.memberships.tags@, tag@) == Some(m@),
                None => tag_members(self.memberships.tags@, tag@) is None,
            },
    {
        let tags = &self.memberships.tags;
        let mut i: usize = 0;
        proof {
            assert(tags@.skip(0) =~= tags@);
        }
        while i < tags.len()
            invariant
                i <= tags@.len(),
                *tags == self.memberships.tags,
                tag_members(tags@, tag@) == tag_members(tags@.skip(i as int), tag@),
            decreases tags@.len() - i,
        {
            proof {
                assert(tags@.skip(i as int).drop_first() =~= tags@.skip(i + 1));
            }
            if str_eq(tags[i].0.as_str(), tag) {
                return Some(&tags[i].1);
            }
            i = i + 1;
        }
        None
    }
}

/// Positions below `n` are below `n`.
proof fn lemma_positions_bound(n: int, p: spec_fn(int) -> bool)
    ensures
        forall|k: int| 0 <= k < positions(n, p).len() ==> 0 <= #[trigger] positions(n, p)[k] < n,
    decreases n,
{
    if n > 0 {
        lemma_positions_bound(n - 1, p);
        let prev = positions(n - 1, p);
        assert forall|k: int| 0 <= k < positions(n, p).len() implies 0 <= #[trigger] positions(n, p)[k] < n by {
            if k < prev.len() {
                assert(positions(n, p)[k] == prev[k]);
            }
        }
    }
}

/// An operator's affiliations, listed, hold a power exactly when one of
/// nation, group and team is it.
/// Whether an optional affiliation is the given power.
pub open spec fn power_is(o: Option<crate::ids::PowerId>, p: Seq<char>) -> bool {
    o matches Some(q) && q@ == p
}

/// Whether an operator's nation, group or team is the given power.
pub open spec fn has_power(op: Operator, p: Seq<char>) -> bool {
    power_is(op.nation, p) || power_is(op.group, p) || power_is(op.team, p)
}

/// The affiliations of an operator as a list of options, each kept when
/// present.
proof fn lemma_power_list(op: Operator)
    ensures
        op.power_list() == (if op.nation is Some { seq![op.nation->0] } else { Seq::empty() }) + (if op.group is Some {
            seq![op.group->0]
        } else {
            Seq::empty()
        }) + (if op.team is Some { seq![op.team->0] } else { Seq::empty() }),
{
    let s = seq![op.nation, op.group, op.team];
    reveal_with_fuel(Seq::filter, 4);
    assert(s.drop_last().drop_last().drop_last() =~= Seq::<Option<crate::ids::PowerId>>::empty());
    assert(s.drop_last().drop_last() =~= seq![op.nation]);
    assert(s.drop_last() =~= seq![op.nation, op.group]);
    assert(op.power_list() =~= (if op.nation is Some { seq![op.nation->0] } else { Seq::empty() }) + (
    if op.group is Some {
        seq![op.group->0]
    } else {
        Seq::empty()
    }) + (if op.team is Some { seq![op.team->0] } else { Seq::empty() }));
}

/// An operator belongs to a faction power exactly when the power is one of
/// its affiliations as `Operator::powers` lists them: nation, group or team.
pub proof fn law_power_among_powers(op: Operator, p: Seq<char>)
    ensures
        has_power(op, p) <==> exists|i: int| 0 <= i < op.power_list().len() && #[trigger] op.power_list()[i]@ == p,
{
    lemma_power_list(op);
    let l = op.power_list();
    let a: Seq<crate::ids::PowerId> = if op.nation is Some { seq![op.nation->0] } else { Seq::empty() };
    let b: Seq<crate::ids::PowerId> = if op.group is Some { seq![op.group->0] } else { Seq::empty() };
    let c: Seq<crate::ids::PowerId> = if op.team is Some { seq![op.team->0] } else { Seq::empty() };
    assert(l == a + b + c);
    if power_is(op.nation, p) {
        assert(l[0]@ == p);
    } else if power_is(op.group, p) {
        assert(l[a.len() as int]@ == p);
    } else if power_is(op.team, p) {
        assert(l[(a.len() + b.len()) as int]@ == p);
    }
    if exists|i: int| 0 <= i < l.len() && #[trigger] l[i]@ == p {
        let i = choose|i: int| 0 <= i < l.len() && #[trigger] l[i]@ == p;
        if i < a.len() {
            assert(l[i] == a[i]);
        } else if i < a.len() + b.len() {
            assert(l[i] == b[i - a.len()]);
        } else {
            assert(l[i] == c[i - a.len() - b.len()]);
        }
    }
}

fn power_matches(o: &Option<crate::ids::PowerId>, p: &crate::ids::PowerId) -> (r: bool)
    ensures
        r == power_is(*o, p@),
{
    match o {
        Some(q) => q.same(p),
        None => false,
    }
}

} // verus!
