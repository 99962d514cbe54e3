use riic_planner::assignment::{Assignment, Slot};
use riic_planner::base::{BaseConfig, Room};
use riic_planner::enums::{Profession, Rarity, RoomCategory, RoomType, SlotCategory};
use riic_planner::facility::{Facility, FacilityPhase};
use riic_planner::game_data::{DataVersion, GameData};
use riic_planner::ids::{OperatorId, SlotId, SubProfessionId};
use riic_planner::layout::{BaseLayout, GridPos, GridSize, LayoutSlot};
use riic_planner::operator::Operator;
use riic_planner::rng::Pcg32;
use riic_planner::solve::{SolveError, Unobserved};
use riic_planner::space::Space;
use riic_planner::ids::{BuffId, PowerId};
use riic_planner::mechanics::{Group, OperatorRef};
use riic_planner::operator::UnlockCond;
use riic_planner::sim::{Memberships, MissingRoster, Role, SimError};
use riic_planner::warnings::{SimWarning, Warnings};
use riic_planner::world::World;

#[test]
fn deterministic_and_stream_independent() {
    let mut x = Pcg32::new(42, 0);
    let mut y = Pcg32::new(42, 0);
    let mut z = Pcg32::new(42, 1);
    let xs: Vec<u32> = (0..8).map(|_| x.next_u32()).collect();
    let ys: Vec<u32> = (0..8).map(|_| y.next_u32()).collect();
    let zs: Vec<u32> = (0..8).map(|_| z.next_u32()).collect();
    assert_eq!(xs, ys);
    assert_ne!(xs, zs);
    let mut r = Pcg32::new(7, 3);
    for _ in 0..1000 {
        assert!(r.below(5) < 5);
        let f = f64::from(r.next_u32()) / 4_294_967_296.0;
        assert!((0.0..1.0).contains(&f));
    }
}

/// The textbook PCG32 step, written with std's wrapping and rotating
/// operations.
fn reference_step(state: &mut u64, inc: u64) -> u32 {
    let old = *state;
    *state = old.wrapping_mul(6_364_136_223_846_793_005).wrapping_add(inc);
    let xorshifted = (((old >> 18) ^ old) >> 27) as u32;
    let rot = (old >> 59) as u32;
    xorshifted.rotate_right(rot)
}

#[test]
fn next_u32_matches_the_pcg32_step() {
    let (seed, stream) = (42u64, 54u64);
    let inc = (stream << 1) | 1;
    let mut state = 0u64;
    reference_step(&mut state, inc);
    state = state.wrapping_add(seed);
    reference_step(&mut state, inc);
    let mut rng = Pcg32::new(seed, stream);
    for _ in 0..64 {
        assert_eq!(rng.next_u32(), reference_step(&mut state, inc));
    }
    let mut a = Pcg32::new(9, 9);
    let mut b = Pcg32::new(9, 9);
    for n in [1usize, 2, 3, 7, 100, 1 << 20] {
        let bits = u64::from(b.next_u32());
        assert_eq!(a.below(n) as u64, (bits * n as u64) >> 32);
    }
}

fn facility(kind: RoomType, category: RoomCategory, cap: u8) -> Facility {
    Facility {
        room_type: kind,
        name: kind.english_name().to_owned(),
        description: String::new(),
        category,
        max_count: Some(4),
        size: GridSize { rows: 1, cols: 3 },
        phases: vec![FacilityPhase { level: 1, electricity: 0, max_stationed: cap, manpower_cost: 0, build_labor: 0 }],
    }
}

fn layout_slot(id: &str, category: SlotCategory) -> LayoutSlot {
    LayoutSlot {
        id: SlotId::new(id),
        category,
        size: GridSize { rows: 1, cols: 3 },
        offset: GridPos { row: 0, col: 0 },
        storey: "B1".to_owned(),
        clean_cost_id: String::new(),
        cost_labor: 0,
        provide_labor: 0,
    }
}

fn operator(id: &str) -> Operator {
    Operator {
        id: OperatorId::new(id),
        name: id.to_owned(),
        appellation: String::new(),
        rarity: Rarity::Tier4,
        profession: Profession::Guard,
        sub_profession: SubProfessionId::new("fighter"),
        nation: None,
        group: None,
        team: None,
        max_levels: vec![50, 70, 80],
        skill_slots: vec![],
    }
}

fn data() -> GameData {
    GameData {
        version: DataVersion {
            source: "en_US".to_owned(),
            repo: "test".to_owned(),
            sha: "0123456789abcdef".to_owned(),
            locale: "en_US".to_owned(),
            fetched_at: None,
            parser_version: "0".to_owned(),
        },
        comfort_limit: 5000,
        powers: vec![],
        facilities: vec![
            facility(RoomType::Dormitory, RoomCategory::Function, 5),
            facility(RoomType::Training, RoomCategory::Function, 2),
            facility(RoomType::Manufacture, RoomCategory::Output, 3),
            facility(RoomType::Control, RoomCategory::Special, 0),
        ],
        operators: ["a", "b", "c", "d", "e"].iter().map(|s| operator(s)).collect(),
        manufacture_formulas: vec![],
        layout: BaseLayout {
            id: "v0".to_owned(),
            slots: vec![
                layout_slot("slot_1", SlotCategory::Function),
                layout_slot("slot_2", SlotCategory::Function),
                layout_slot("slot_3", SlotCategory::Output),
                layout_slot("slot_4", SlotCategory::Special),
            ],
        },
    }
}

fn base() -> BaseConfig {
    BaseConfig::new(vec![
        Room::new("f1", RoomType::Manufacture, 1),
        Room::new("tr", RoomType::Training, 1),
        Room::new("cc", RoomType::Control, 1),
    ])
}

fn ids(list: &[&str]) -> Vec<OperatorId> {
    list.iter().map(|s| OperatorId::new(s)).collect()
}

#[test]
fn space_splits_fixed_and_variable_slots() {
    let data = data();
    let base = base();
    let mut initial = Assignment::empty(&base, &data);
    initial.place(&Slot::new("tr", 1), OperatorId::new("e")).unwrap();
    initial.place(&Slot::new("f1", 2), OperatorId::new("d")).unwrap();
    let locked = vec![Slot::new("f1", 0)];
    let roster = ids(&["a", "b", "e", "a"]);
    let space = Space::new(&data, &base, &roster, None, &initial, &locked).ok().unwrap();
    let slots: Vec<String> = space.slots.iter().map(|s| s.to_text()).collect();
    // f1#0 is locked, tr#1 is the trainee slot.
    assert_eq!(slots, vec!["f1#1", "f1#2", "tr#0"]);
    assert_eq!(space.locked, 2);
    // e sits in a fixed slot and leaves the pool; d sits in a variable slot
    // and joins it; the repeated a is listed once.
    let pool: Vec<&str> = space.pool.iter().map(|o| o.as_str()).collect();
    assert_eq!(pool, vec!["a", "b", "d"]);
    let groups = space.groups();
    assert_eq!(groups.len(), 3);
    assert_eq!(groups[0], (&[0usize, 1][..], false));
    assert_eq!(groups[1], (&[2usize][..], true));
    assert_eq!(groups[2], (&[][..], false));
}

#[test]
fn space_refuses_bad_requests() {
    let data = data();
    let base = base();
    let initial = Assignment::empty(&base, &data);
    let bad_lock = vec![Slot::new("f1", 3)];
    assert!(matches!(
        Space::new(&data, &base, &ids(&["a"]), None, &initial, &bad_lock),
        Err(SolveError::BadLockedSlot(s)) if s == Slot::new("f1", 3)
    ));
    let stranger = ids(&["a", "zz", "yy"]);
    assert!(matches!(
        Space::new(&data, &base, &ids(&["a"]), Some(&stranger), &initial, &[]),
        Err(SolveError::UnknownOperator(op)) if op.as_str() == "zz"
    ));
    let all_locked = vec![Slot::new("f1", 0), Slot::new("f1", 1), Slot::new("f1", 2), Slot::new("tr", 0)];
    assert!(matches!(
        Space::new(&data, &base, &ids(&["a"]), None, &initial, &all_locked),
        Err(SolveError::EmptySpace)
    ));
    let wrong = Assignment::with_capacities(vec![]);
    assert!(matches!(
        Space::new(&data, &base, &ids(&["a"]), None, &wrong, &[]),
        Err(SolveError::Sim(_))
    ));
}

#[test]
fn moves_never_touch_locked_slots() {
    let data = data();
    let base = base();
    let mut initial = Assignment::empty(&base, &data);
    initial.place(&Slot::new("f1", 0), OperatorId::new("c")).unwrap();
    initial.place(&Slot::new("tr", 1), OperatorId::new("e")).unwrap();
    let locked = vec![Slot::new("f1", 0)];
    let space = Space::new(&data, &base, &ids(&["a", "b", "c", "d"]), None, &initial, &locked).ok().unwrap();
    let neighbours = space.neighbours(&initial);
    assert!(!neighbours.is_empty());
    for n in &neighbours {
        assert_eq!(n.locate("c"), Some(Slot::new("f1", 0)));
        assert_eq!(n.locate("e"), Some(Slot::new("tr", 1)));
        assert_ne!(n, &initial);
    }
    let mut rng = Pcg32::new(1, 0);
    let mut current = initial.duplicate();
    for _ in 0..200 {
        current = space.propose(&current, &mut rng).unwrap();
        assert_eq!(current.locate("c"), Some(Slot::new("f1", 0)));
        assert_eq!(current.locate("e"), Some(Slot::new("tr", 1)));
    }
    let mut cleared = current.duplicate();
    space.clear_variable(&mut cleared);
    assert_eq!(cleared.len(), 2);
    assert_eq!(space.unassigned(&cleared).len(), 3);
}

#[test]
fn canonical_key_ignores_order_within_a_room() {
    let data = data();
    let base = base();
    let initial = Assignment::empty(&base, &data);
    let space = Space::new(&data, &base, &ids(&["a", "b", "c", "d"]), None, &initial, &[]).ok().unwrap();
    let mut x = initial.duplicate();
    x.place(&Slot::new("f1", 0), OperatorId::new("b")).unwrap();
    x.place(&Slot::new("f1", 2), OperatorId::new("a")).unwrap();
    x.place(&Slot::new("tr", 0), OperatorId::new("c")).unwrap();
    let mut y = initial.duplicate();
    y.place(&Slot::new("f1", 1), OperatorId::new("a")).unwrap();
    y.place(&Slot::new("f1", 0), OperatorId::new("b")).unwrap();
    y.place(&Slot::new("tr", 0), OperatorId::new("c")).unwrap();
    assert_eq!(space.canonical(&x), "f1:,a,b|tr:c,|cc:|");
    assert_eq!(space.canonical(&x), space.canonical(&y));
    let mut z = initial.duplicate();
    z.place(&Slot::new("f1", 0), OperatorId::new("b")).unwrap();
    z.place(&Slot::new("f1", 2), OperatorId::new("a")).unwrap();
    z.place(&Slot::new("tr", 1), OperatorId::new("c")).unwrap();
    assert_eq!(space.canonical(&z), "f1:,a,b|tr:,c|cc:|");
}

#[test]
fn unobserved_never_stops() {
    assert!(!Unobserved.should_stop());
}

fn world_parts() -> (GameData, BaseConfig, Assignment) {
    let mut data = data();
    data.operators[0].nation = Some(PowerId::new("rhodes"));
    let base = base();
    let mut plan = Assignment::empty(&base, &data);
    plan.place(&Slot::new("f1", 0), OperatorId::new("a")).unwrap();
    plan.place(&Slot::new("f1", 1), OperatorId::new("b")).unwrap();
    plan.place(&Slot::new("tr", 1), OperatorId::new("e")).unwrap();
    plan.place(&Slot::new("tr", 0), OperatorId::new("c")).unwrap();
    (data, base, plan)
}

#[test]
fn world_resolves_seats_in_base_order() {
    let (data, base, plan) = world_parts();
    let roster = vec![(OperatorId::new("a"), UnlockCond::max())];
    let members = Memberships::default();
    let mut warn = Warnings::new();
    let w = World::build(&data, &base, &plan, &roster, MissingRoster::AssumeMaxed, &members, &mut warn).ok().unwrap();
    let ids: Vec<&str> = w.ops.iter().map(|o| o.id.as_str()).collect();
    assert_eq!(ids, vec!["a", "b", "c", "e"]);
    assert_eq!(w.ops[0].promotion, UnlockCond::max());
    assert_eq!(w.ops[3].room, 1);
    assert_eq!(w.ops[3].slot, 1);
    assert_eq!(w.rooms[1].occupants, vec![2, 3]);
    assert_eq!(w.training_active, vec![false, false, false]);
    assert_eq!(w.role(0), Role::Working);
    assert_eq!(w.role(2), Role::Idle);
    assert_eq!(w.role(3), Role::Idle);
    assert_eq!(w.room_of(3).room.id.as_str(), "tr");
    assert_eq!(w.rooms_of(RoomType::Manufacture), vec![0]);
    assert_eq!(w.ops_in_rooms_of(RoomType::Training), vec![2, 3]);
    assert_eq!(w.ops_in_work_areas(), vec![0, 1, 2, 3]);
    assert_eq!(w.index_of("b"), Some(1));
    assert_eq!(w.index_of("zz"), None);
    assert_eq!(w.find_op(&OperatorRef::named("c")), Some(2));
    assert_eq!(w.find_op(&OperatorRef::named("nobody")), None);
    let warned = warn.into_vec();
    assert_eq!(warned.len(), 3);
    assert!(warned.contains(&SimWarning::OperatorNotInRoster { operator: OperatorId::new("e") }));
}

#[test]
fn world_groups_and_unknown_tags() {
    let (data, base, plan) = world_parts();
    let members = Memberships::default();
    let mut warn = Warnings::new();
    let w = World::build(&data, &base, &plan, &[], MissingRoster::AssumeMaxed, &members, &mut warn).ok().unwrap();
    let skill = BuffId::new("manu_prod_spd[000]");
    let mut more = Warnings::new();
    let rhodes = Group::Power(PowerId::new("rhodes"));
    assert_eq!(w.in_group(0, &rhodes, &skill, &mut more), Some(true));
    assert_eq!(w.in_group(1, &rhodes, &skill, &mut more), Some(false));
    assert_eq!(w.in_group(1, &Group::Profession(Profession::Guard), &skill, &mut more), Some(true));
    assert_eq!(w.in_group(1, &Group::Subclass("Fighter".to_owned()), &skill, &mut more), Some(true));
    assert_eq!(w.in_group(1, &Group::Subclass("Lord".to_owned()), &skill, &mut more), Some(false));
    assert!(more.is_empty());
    assert_eq!(w.in_group(1, &Group::Tag("knight".to_owned()), &skill, &mut more), None);
    assert_eq!(
        more.into_vec(),
        vec![SimWarning::UnknownTag { skill: skill.clone(), tag: "knight".to_owned() }]
    );
}

#[test]
fn world_refuses_missing_and_unknown_operators() {
    let (data, base, plan) = world_parts();
    let members = Memberships::default();
    let roster = vec![(OperatorId::new("a"), UnlockCond::max())];
    let mut warn = Warnings::new();
    let r = World::build(&data, &base, &plan, &roster, MissingRoster::Error, &members, &mut warn);
    assert!(matches!(r, Err(SimError::MissingRoster(o)) if o.as_str() == "b"));
    let mut stranger = plan.duplicate();
    stranger.place(&Slot::new("f1", 2), OperatorId::new("zz")).unwrap();
    let r = World::build(&data, &base, &stranger, &roster, MissingRoster::AssumeMaxed, &members, &mut warn);
    assert!(matches!(r, Err(SimError::UnknownOperator(o)) if o.as_str() == "zz"));
}

#[test]
fn candidates_fill_each_room_once_per_crew() {
    let data = data();
    let base = base();
    let initial = Assignment::empty(&base, &data);
    let space = Space::new(&data, &base, &ids(&["a", "b"]), None, &initial, &[]).ok().unwrap();
    let keys: Vec<String> = space.candidates(&initial).iter().map(|c| space.canonical(c)).collect();
    assert_eq!(
        keys,
        vec![
            "f1:,,|tr:,|cc:|",
            "f1:,,|tr:a,|cc:|",
            "f1:,,|tr:b,|cc:|",
            "f1:,,a|tr:,|cc:|",
            "f1:,,a|tr:b,|cc:|",
            "f1:,a,b|tr:,|cc:|",
            "f1:,,b|tr:,|cc:|",
            "f1:,,b|tr:a,|cc:|",
        ]
    );
}

#[test]
fn candidates_keep_fixed_slots() {
    let data = data();
    let base = base();
    let mut initial = Assignment::empty(&base, &data);
    initial.place(&Slot::new("f1", 0), OperatorId::new("c")).unwrap();
    let locked = vec![Slot::new("f1", 0)];
    let space = Space::new(&data, &base, &ids(&["a", "c"]), None, &initial, &locked).ok().unwrap();
    let all = space.candidates(&initial);
    // f1 has two free slots and tr one; the pool is just a.
    assert_eq!(all.len(), 3);
    for c in &all {
        assert_eq!(c.locate("c"), Some(Slot::new("f1", 0)));
    }
    assert_eq!(all[1].locate("a"), Some(Slot::new("tr", 0)));
    assert_eq!(all[2].locate("a"), Some(Slot::new("f1", 1)));
}

#[test]
fn propose_finds_a_move_whenever_one_exists() {
    let data = data();
    let base = base();
    let mut current = Assignment::empty(&base, &data);
    current.place(&Slot::new("f1", 0), OperatorId::new("a")).unwrap();
    current.place(&Slot::new("tr", 0), OperatorId::new("d")).unwrap();
    let pool = ids(&["a", "d"]);
    let space = Space::new(&data, &base, &ids(&["b"]), Some(&pool), &current, &[]).ok().unwrap();
    assert!(space.unassigned(&current).is_empty());
    // Three swaps with the Training Room slot, and each filled slot emptied;
    // slots of the same Factory are interchangeable and never swapped.
    let neighbours = space.neighbours(&current);
    assert_eq!(neighbours.len(), 5);
    assert_eq!(neighbours[0].locate("a"), Some(Slot::new("tr", 0)));
    assert_eq!(neighbours[0].locate("d"), Some(Slot::new("f1", 0)));
    assert_eq!(neighbours[3].locate("a"), None);
    assert_eq!(neighbours[4].locate("d"), None);
    let mut rng = Pcg32::new(1, 0);
    for _ in 0..2000 {
        let next = space.propose(&current, &mut rng).expect("a move exists");
        assert_ne!(next, current);
        assert!(neighbours.contains(&next));
    }
    let nobody = Assignment::empty(&base, &data);
    let empty_pool = Space::new(&data, &base, &[], Some(&[]), &nobody, &[]).ok().unwrap();
    assert!(empty_pool.neighbours(&nobody).is_empty());
    assert!(empty_pool.propose(&nobody, &mut rng).is_none());
}

#[test]
fn propose_depends_only_on_the_generator_state() {
    let data = data();
    let base = base();
    let mut current = Assignment::empty(&base, &data);
    current.place(&Slot::new("f1", 0), OperatorId::new("a")).unwrap();
    let pool = ids(&["a", "b", "d"]);
    let space = Space::new(&data, &base, &ids(&["a", "b", "d"]), Some(&pool), &current, &[]).ok().unwrap();
    let mut first = Pcg32::new(9, 3);
    let mut second = Pcg32::new(9, 3);
    let mut seen_other = false;
    for _ in 0..200 {
        let x = space.propose(&current, &mut first);
        let y = space.propose(&current, &mut second);
        assert_eq!(x, y);
        assert_eq!(first.next_u32(), second.next_u32());
        if x != space.propose(&current, &mut Pcg32::new(10, 3)) {
            seen_other = true;
        }
    }
    assert!(seen_other);
}

#[test]
fn room_counts_over_all_kinds_add_up() {
    let b = base();
    let total: usize = RoomType::ALL.iter().map(|&k| b.count_of(k)).sum();
    assert_eq!(total, b.rooms.len());
    assert_eq!(b.count_of(RoomType::Manufacture), 1);
    assert_eq!(b.count_of(RoomType::Dormitory), 0);
}

#[test]
fn different_occupants_give_different_keys() {
    let data = data();
    let base = base();
    let start = Assignment::empty(&base, &data);
    let space = Space::new(&data, &base, &ids(&["a", "b", "c"]), None, &start, &[]).ok().unwrap();
    let mut x = start.clone();
    x.place(&Slot::new("f1", 0), OperatorId::new("a")).unwrap();
    let mut y = start.clone();
    y.place(&Slot::new("f1", 0), OperatorId::new("b")).unwrap();
    assert_ne!(space.canonical(&x), space.canonical(&y));
    assert_ne!(space.canonical(&x), space.canonical(&start));
}

#[test]
fn clearing_the_variable_slots_twice_is_clearing_once() {
    let data = data();
    let base = base();
    let mut a = Assignment::empty(&base, &data);
    a.place(&Slot::new("f1", 0), OperatorId::new("a")).unwrap();
    a.place(&Slot::new("tr", 0), OperatorId::new("c")).unwrap();
    let space = Space::new(&data, &base, &ids(&["a", "b", "c"]), None, &a, &[Slot::new("tr", 0)]).ok().unwrap();
    let mut once = a.clone();
    space.clear_variable(&mut once);
    let mut twice = once.clone();
    space.clear_variable(&mut twice);
    assert_eq!(once, twice);
    assert_eq!(once.locate("c"), Some(Slot::new("tr", 0)));
    assert_eq!(once.locate("a"), None);
}

#[test]
fn precondition_checks_accept_ordinary_spaces_and_bases() {
    let data = data();
    let base = base();
    assert!(base.power_in_range(&data));
    let start = Assignment::empty(&base, &data);
    let space = Space::new(&data, &base, &ids(&["a", "b"]), None, &start, &[]).ok().unwrap();
    assert!(space.moves_fit());
    assert!(space.groups_fit());
}

