use riic_planner::enums::RoomType;
use riic_planner::ids::SubProfessionId;
use riic_planner::mechanics::{OperatorRef, Stat};
use riic_planner::sim::{builtin_subclass_id, Memberships, MissingRoster, MoodPolicy, NoRotation, StatKind};

#[test]
fn builtin_subclasses_resolve() {
    assert_eq!(builtin_subclass_id("Wandering Medic"), Some("wandermedic"));
    assert_eq!(builtin_subclass_id("Marksman"), Some("fastshot"));
    assert_eq!(builtin_subclass_id("Knight"), None);
}

#[test]
fn membership_table_overrides_the_builtin_names() {
    let mut m = Memberships::default();
    assert_eq!(m.subclass_id("Lord"), Some("lord"));
    m.subclass_names.push(("Lord".to_owned(), SubProfessionId::new("lord2")));
    m.subclass_names.push(("Knight".to_owned(), SubProfessionId::new("knight")));
    assert_eq!(m.subclass_id("Lord"), Some("lord2"));
    assert_eq!(m.subclass_id("Knight"), Some("knight"));
    assert_eq!(m.subclass_id("Besieger"), Some("siegesniper"));
    assert_eq!(m.subclass_id("Nobody"), None);
}

#[test]
fn stat_kinds_belong_to_their_rooms() {
    assert_eq!(StatKind::ALL.len(), 8);
    assert_eq!(StatKind::Capacity.room(), RoomType::Manufacture);
    assert_eq!(StatKind::OrderLimit.room(), RoomType::Trading);
    assert_eq!(StatKind::ContactSpeed.room(), RoomType::Hire);
    assert_eq!(StatKind::from_stat(Stat::OrderEfficiency), StatKind::OrderEfficiency);
    assert_eq!(StatKind::from_stat(Stat::Capacity).room(), RoomType::Manufacture);
}

#[test]
fn defaults_and_baselines() {
    assert_eq!(MoodPolicy::default(), MoodPolicy::Full);
    assert_eq!(MissingRoster::default(), MissingRoster::AssumeMaxed);
    assert!(NoRotation.next_actions().is_empty());
    let r = OperatorRef::named("Texas");
    assert_eq!(r.name, "Texas");
    assert!(r.id.is_none());
}
