use riic_planner::assignment::{Assignment, AssignmentError, PlaceError, Slot};
use riic_planner::base::{BaseConfig, Room};
use riic_planner::ids::{OperatorId, RoomId};
use riic_planner::enums::{RoomCategory, RoomType};
use riic_planner::facility::{Facility, FacilityPhase};
use riic_planner::game_data::{DataVersion, GameData};
use riic_planner::layout::{BaseLayout, GridSize};
use std::collections::BTreeMap;

fn op(s: &str) -> OperatorId {
    OperatorId::new(s)
}

fn base() -> Assignment {
    Assignment::with_capacities(vec![
        (RoomId::new("B101"), 3u8),
        (RoomId::new("cc"), 5),
        (RoomId::new("dorm"), 5),
    ])
}

fn to_entries(map: BTreeMap<String, Vec<Option<String>>>) -> Vec<(RoomId, Vec<Option<OperatorId>>)> {
    map.into_iter()
        .map(|(room, slots)| {
            (
                RoomId::from_string(room),
                slots.into_iter().map(|o| o.map(OperatorId::from_string)).collect(),
            )
        })
        .collect()
}

fn to_map(entries: Vec<(RoomId, Vec<Option<OperatorId>>)>) -> BTreeMap<String, Vec<Option<String>>> {
    entries
        .into_iter()
        .map(|(room, slots)| {
            (
                room.into_string(),
                slots.into_iter().map(|o| o.map(OperatorId::into_string)).collect(),
            )
        })
        .collect()
}

#[test]
fn place_and_locate() {
    let mut a = base();
    assert_eq!(a.place(&Slot::new("B101", 0), op("x")), Ok(None));
    assert_eq!(a.locate("x"), Some(Slot::new("B101", 0)));
    assert_eq!(a.len(), 1);
    // Same slot again is a no-op.
    assert_eq!(a.place(&Slot::new("B101", 0), op("x")), Ok(None));
    // Elsewhere is refused.
    assert_eq!(
        a.place(&Slot::new("cc", 0), op("x")),
        Err(PlaceError::AlreadyAssigned {
            operator: op("x"),
            at: Slot::new("B101", 0)
        })
    );
}

#[test]
fn displacement_and_bounds() {
    let mut a = base();
    a.place(&Slot::new("B101", 1), op("x")).unwrap();
    assert_eq!(a.place(&Slot::new("B101", 1), op("y")), Ok(Some(op("x"))));
    assert_eq!(a.locate("x"), None);
    assert!(matches!(
        a.place(&Slot::new("B101", 3), op("z")),
        Err(PlaceError::IndexOutOfRange { capacity: 3, .. })
    ));
    assert!(matches!(
        a.place(&Slot::new("nope", 0), op("z")),
        Err(PlaceError::NoSuchRoom(_))
    ));
}

#[test]
fn move_and_swap() {
    let mut a = base();
    a.place(&Slot::new("B101", 0), op("x")).unwrap();
    a.place(&Slot::new("cc", 2), op("y")).unwrap();
    a.move_to(&op("x"), &Slot::new("dorm", 4)).unwrap();
    assert_eq!(a.locate("x"), Some(Slot::new("dorm", 4)));
    a.swap(&Slot::new("dorm", 4), &Slot::new("cc", 2)).unwrap();
    assert_eq!(a.locate("x"), Some(Slot::new("cc", 2)));
    assert_eq!(a.locate("y"), Some(Slot::new("dorm", 4)));
    a.swap(&Slot::new("cc", 2), &Slot::new("B101", 2)).unwrap();
    assert_eq!(a.locate("x"), Some(Slot::new("B101", 2)));
    assert_eq!(a.occupants("cc").len(), 0);
    assert_eq!(a.vacancies().len(), 13 - 2);
}

#[test]
fn serde_rejects_duplicates() {
    let json = r#"{"B101":["x",null,"x"]}"#;
    let map: BTreeMap<String, Vec<Option<String>>> = serde_json::from_str(json).unwrap();
    let err = Assignment::try_from_rooms(to_entries(map)).unwrap_err();
    assert!(err.message().contains("assigned twice"), "{}", err.message());

    let mut a = base();
    a.place(&Slot::new("cc", 4), op("q")).unwrap();
    let text = serde_json::to_string(&to_map(a.duplicate().into_rooms())).unwrap();
    let round = Assignment::try_from_rooms(to_entries(serde_json::from_str(&text).unwrap())).unwrap();
    assert_eq!(round, a);
}

#[test]
fn duplicate_names_the_first_repeat_in_listing_order() {
    let entries = vec![
        (RoomId::new("b"), vec![Some(op("y")), Some(op("x"))]),
        (RoomId::new("a"), vec![Some(op("x")), Some(op("y"))]),
    ];
    // Rooms list in label order: a = [x, y], b = [y, x]; y in b#0 repeats first.
    let err = Assignment::try_from_rooms(entries).unwrap_err();
    assert_eq!(err, AssignmentError::Duplicate(op("y")));
    assert_eq!(err.message(), "y is assigned twice");
}

#[test]
fn later_entries_replace_earlier_ones() {
    let a = Assignment::with_capacities(vec![
        (RoomId::new("z"), 1),
        (RoomId::new("a"), 2),
        (RoomId::new("z"), 4),
    ]);
    let labels: Vec<&str> = a.rooms().iter().map(|r| r.as_str()).collect();
    assert_eq!(labels, vec!["a", "z"]);
    assert_eq!(a.slots("z").unwrap().len(), 4);
    assert_eq!(a.slots("a").unwrap().len(), 2);
    assert!(a.slots("q").is_none());
    assert!(a.is_empty());
}

#[test]
fn swapping_twice_restores_the_assignment() {
    let mut a = base();
    a.place(&Slot::new("B101", 0), op("x")).unwrap();
    a.place(&Slot::new("dorm", 3), op("y")).unwrap();
    let before = a.duplicate();
    a.swap(&Slot::new("B101", 0), &Slot::new("cc", 1)).unwrap();
    assert_ne!(a, before);
    a.swap(&Slot::new("B101", 0), &Slot::new("cc", 1)).unwrap();
    assert_eq!(a, before);
    // A swap with a missing slot changes nothing.
    assert!(matches!(
        a.swap(&Slot::new("B101", 0), &Slot::new("cc", 9)),
        Err(PlaceError::IndexOutOfRange { capacity: 5, .. })
    ));
    assert_eq!(a, before);
}

#[test]
fn vacancies_and_operators_cover_every_slot() {
    let mut a = base();
    a.place(&Slot::new("cc", 0), op("p")).unwrap();
    a.place(&Slot::new("cc", 3), op("q")).unwrap();
    a.place(&Slot::new("dorm", 1), op("r")).unwrap();
    assert_eq!(a.len() + a.vacancies().len(), 13);
    let ops: Vec<&str> = a.operators().iter().map(|o| o.as_str()).collect();
    assert_eq!(ops, vec!["p", "q", "r"]);
    let listed: Vec<String> = a.iter().iter().map(|(s, o)| format!("{}={}", s.to_text(), o.as_str())).collect();
    assert_eq!(listed, vec!["cc#0=p", "cc#3=q", "dorm#1=r"]);
    assert_eq!(a.vacancies()[0], Slot::new("B101", 0));
}

#[test]
fn removing_hands_back_the_occupant() {
    let mut a = base();
    a.place(&Slot::new("cc", 2), op("x")).unwrap();
    assert_eq!(a.remove(&Slot::new("cc", 2)), Some(op("x")));
    assert_eq!(a.remove(&Slot::new("cc", 2)), None);
    assert_eq!(a.remove(&Slot::new("nope", 0)), None);
    assert!(a.is_empty());
}

#[test]
fn moving_to_a_missing_slot_is_refused_unchanged() {
    let mut a = base();
    a.place(&Slot::new("cc", 2), op("x")).unwrap();
    let before = a.duplicate();
    assert_eq!(
        a.move_to(&op("x"), &Slot::new("gone", 0)),
        Err(PlaceError::NoSuchRoom(RoomId::new("gone")))
    );
    assert_eq!(a, before);
    assert_eq!(a.move_to(&op("x"), &Slot::new("cc", 2)), Ok(None));
    assert_eq!(a.locate("x"), Some(Slot::new("cc", 2)));
}

#[test]
fn error_messages_read_as_before() {
    assert_eq!(
        PlaceError::NoSuchRoom(RoomId::new("B101")).message(),
        "no room B101 in this assignment"
    );
    assert_eq!(
        PlaceError::IndexOutOfRange { slot: Slot::new("cc", 7), capacity: 5 }.message(),
        "slot cc#7 is beyond the room's capacity of 5"
    );
    assert_eq!(
        AssignmentError::WrongCapacity { room: RoomId::new("B101"), expected: 3, found: 12 }.message(),
        "room B101 has 12 slots, expected 3"
    );
    assert_eq!(
        AssignmentError::UnknownRoom(RoomId::new("x")).message(),
        "assignment names room x, which the base lacks"
    );
}

#[test]
fn empty_assignment_fits_its_base() {
    let data = riic_planner_test_data();
    let base = BaseConfig::new(vec![Room::new("x", RoomType::Dormitory, 1)]);
    let a = Assignment::empty(&base, &data);
    assert_eq!(a.check(&base, &data), Ok(()));
    let other = Assignment::with_capacities(vec![(RoomId::new("y"), 0)]);
    assert_eq!(
        other.check(&base, &data),
        Err(AssignmentError::MissingRoom(RoomId::new("x")))
    );
}

fn riic_planner_test_data() -> GameData {
    GameData {
        version: DataVersion {
            source: "en_US".to_owned(),
            repo: "test".to_owned(),
            sha: "0123456789abcdef".to_owned(),
            locale: "en_US".to_owned(),
            fetched_at: None,
            parser_version: "0".to_owned(),
        },
        comfort_limit: 5000,
        powers: vec![],
        facilities: vec![Facility {
            room_type: RoomType::Dormitory,
            name: "Dormitory".to_owned(),
            description: String::new(),
            category: RoomCategory::Function,
            max_count: Some(4),
            size: GridSize { rows: 1, cols: 3 },
            phases: vec![FacilityPhase {
                level: 1,
                electricity: 0,
                max_stationed: 5,
                manpower_cost: 0,
                build_labor: 0,
            }],
        }],
        operators: vec![],
        manufacture_formulas: vec![],
        layout: BaseLayout { id: "v0".to_owned(), slots: vec![] },
    }
}

#[test]
fn place_then_remove_restores_the_assignment() {
    let mut a = base();
    a.place(&Slot::new("cc", 1), op("x")).unwrap();
    let before = a.clone();
    assert_eq!(a.place(&Slot::new("dorm", 2), op("y")), Ok(None));
    assert_eq!(a.remove(&Slot::new("dorm", 2)), Some(op("y")));
    assert_eq!(a, before);
}

#[test]
fn len_counts_every_room_and_fits_the_slots() {
    let mut a = base();
    a.place(&Slot::new("cc", 0), op("x")).unwrap();
    a.place(&Slot::new("cc", 4), op("y")).unwrap();
    a.place(&Slot::new("B101", 2), op("z")).unwrap();
    let per_room: usize = a.rooms().iter().map(|r| a.occupants(r.as_str()).len()).sum();
    assert_eq!(a.len(), per_room);
    assert_eq!(a.len(), 3);
    assert!(a.len() <= 3 + 5 + 5);
}

#[test]
fn any_run_of_mutators_keeps_labels_and_slot_counts() {
    let mut a = base();
    let shape = |a: &Assignment| -> Vec<(String, usize)> {
        a.rooms().iter().map(|r| (r.as_str().to_owned(), a.slots(r.as_str()).unwrap().len())).collect()
    };
    let start = shape(&a);
    let _ = a.place(&Slot::new("cc", 0), op("x"));
    let _ = a.place(&Slot::new("nowhere", 0), op("y"));
    let _ = a.move_to(&op("x"), &Slot::new("dorm", 4));
    let _ = a.swap(&Slot::new("dorm", 4), &Slot::new("B101", 9));
    let _ = a.swap(&Slot::new("dorm", 4), &Slot::new("B101", 0));
    let _ = a.remove(&Slot::new("cc", 7));
    assert_eq!(shape(&a), start);
    assert_eq!(a.locate("x"), Some(Slot::new("B101", 0)));
}

#[test]
fn swap_calls_twice_restore_the_assignment() {
    let mut a = base();
    a.place(&Slot::new("cc", 1), op("x")).unwrap();
    let before = a.clone();
    a.swap(&Slot::new("cc", 1), &Slot::new("dorm", 3)).unwrap();
    assert_ne!(a, before);
    a.swap(&Slot::new("cc", 1), &Slot::new("dorm", 3)).unwrap();
    assert_eq!(a, before);
}

