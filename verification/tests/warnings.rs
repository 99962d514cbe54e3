use riic_planner::enums::RoomType;
use riic_planner::ids::{BuffId, OperatorId, RoomId};
use riic_planner::warnings::{SimWarning, Warnings};

fn unparsed(s: &str) -> SimWarning {
    SimWarning::UnparsedSkill { skill: BuffId::new(s) }
}

#[test]
fn warnings_are_recorded_once_and_sorted() {
    let mut w = Warnings::new();
    assert!(w.is_empty());
    w.push(SimWarning::OperatorNotInRoster { operator: OperatorId::new("char_2") });
    w.push(unparsed("b[000]"));
    w.push(unparsed("a[000]"));
    w.push(unparsed("b[000]"));
    w.push(SimWarning::IdleRoom { room: RoomId::new("f1"), room_kind: RoomType::Manufacture });
    w.push(SimWarning::OperatorNotInRoster { operator: OperatorId::new("char_1") });
    assert!(!w.is_empty());
    let list = w.into_vec();
    let mut expected = vec![
        unparsed("a[000]"),
        unparsed("b[000]"),
        SimWarning::OperatorNotInRoster { operator: OperatorId::new("char_1") },
        SimWarning::OperatorNotInRoster { operator: OperatorId::new("char_2") },
        SimWarning::IdleRoom { room: RoomId::new("f1"), room_kind: RoomType::Manufacture },
    ];
    assert_eq!(list, expected);
    // The order is the one the derived `Ord` gives.
    expected.sort();
    assert_eq!(list, expected);
}

#[test]
fn room_kind_breaks_ties_after_the_room() {
    let mut w = Warnings::new();
    w.push(SimWarning::IdleRoom { room: RoomId::new("x"), room_kind: RoomType::Training });
    w.push(SimWarning::IdleRoom { room: RoomId::new("x"), room_kind: RoomType::Manufacture });
    w.push(SimWarning::IdleRoom { room: RoomId::new("w"), room_kind: RoomType::Training });
    let list = w.into_vec();
    let mut sorted = list.clone();
    sorted.sort();
    assert_eq!(list, sorted);
    assert_eq!(list.len(), 3);
}
