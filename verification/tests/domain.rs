use riic_planner::enums::{ElitePhase, ProductType, Profession, Rarity, RoomType};
use riic_planner::ids::{BuffId, OperatorId};
use riic_planner::operator::{SkillSlot, SkillUnlock, UnlockCond};
use riic_planner::skill::EfficiencyTarget;
use std::collections::BTreeMap;

#[test]
fn room_type_round_trips_upstream_strings() {
    for &rt in RoomType::ALL.iter() {
        assert_eq!(rt.as_str().parse::<RoomType>(), Ok(rt));
    }
    assert_eq!(RoomType::ALL.len(), 12);
}

#[test]
fn unknown_value_is_rejected() {
    let err = "GARAGE".parse::<RoomType>().unwrap_err();
    assert_eq!(err.enum_name, "RoomType");
    assert_eq!(err.value, "GARAGE");
}

#[test]
fn elite_phase_is_ordered() {
    assert!(ElitePhase::E0 < ElitePhase::E1 && ElitePhase::E1 < ElitePhase::E2);
}

#[test]
fn rarity_legacy_index() {
    assert_eq!(Rarity::from_index(5), Some(Rarity::Tier6));
    assert_eq!(Rarity::from_index(6), None);
    assert_eq!(Rarity::Tier3.stars(), 3);
}

#[test]
fn buff_family_strips_tier_suffix() {
    assert_eq!(BuffId::new("manu_prod_spd[000]").family(), "manu_prod_spd");
    assert_eq!(BuffId::new("plain").family(), "plain");
}

#[test]
fn ids_can_be_looked_up_by_str() {
    let mut map = BTreeMap::new();
    map.insert(OperatorId::new("char_1"), 1);
    assert_eq!(map.get("char_1"), Some(&1));
}

fn slot(tiers: &[(&str, ElitePhase, u32)]) -> SkillSlot {
    SkillSlot {
        unlocks: tiers
            .iter()
            .map(|&(b, p, l)| SkillUnlock {
                buff: BuffId::new(b),
                cond: UnlockCond::new(p, l),
            })
            .collect(),
    }
}

#[test]
fn active_tier_is_highest_satisfied() {
    let s = slot(&[
        ("a[000]", ElitePhase::E0, 1),
        ("a[010]", ElitePhase::E1, 1),
        ("a[020]", ElitePhase::E2, 1),
    ]);
    assert_eq!(s.active_at(UnlockCond::base()).unwrap().buff.as_str(), "a[000]");
    assert_eq!(
        s.active_at(UnlockCond::new(ElitePhase::E1, 60))
            .unwrap()
            .buff
            .as_str(),
        "a[010]"
    );
    assert_eq!(
        s.active_at(UnlockCond::new(ElitePhase::E2, 1))
            .unwrap()
            .buff
            .as_str(),
        "a[020]"
    );
}

#[test]
fn nothing_active_before_first_unlock() {
    let s = slot(&[("d[000]", ElitePhase::E0, 30)]);
    assert!(s.active_at(UnlockCond::base()).is_none());
    assert!(s.active_at(UnlockCond::new(ElitePhase::E0, 30)).is_some());
}

#[test]
fn efficiency_target_parses_both_arms() {
    assert_eq!(
        "F_GOLD".parse::<EfficiencyTarget>(),
        Ok(EfficiencyTarget::Product(ProductType::Gold))
    );
    assert_eq!(
        "WARRIOR".parse::<EfficiencyTarget>(),
        Ok(EfficiencyTarget::Profession(Profession::Guard))
    );
    assert!("F_NOPE".parse::<EfficiencyTarget>().is_err());
}

#[test]
fn efficiency_target_prints_its_upstream_string() {
    assert_eq!(EfficiencyTarget::Product(ProductType::Gold).as_str(), "F_GOLD");
    assert_eq!(EfficiencyTarget::Profession(Profession::Guard).as_str(), "WARRIOR");
    let err = "F_NOPE".parse::<EfficiencyTarget>().unwrap_err();
    assert_eq!(err.enum_name, "EfficiencyTarget");
    assert_eq!(err.value, "F_NOPE");
}

#[test]
fn every_enum_round_trips() {
    for &p in Profession::ALL.iter() {
        assert_eq!(p.as_str().parse::<Profession>(), Ok(p));
    }
    for &p in ProductType::ALL.iter() {
        assert_eq!(p.as_str().parse::<ProductType>(), Ok(p));
    }
    for &e in ElitePhase::ALL.iter() {
        assert_eq!(e.as_str().parse::<ElitePhase>(), Ok(e));
    }
    for &r in Rarity::ALL.iter() {
        assert_eq!(r.as_str().parse::<Rarity>(), Ok(r));
    }
}

#[test]
fn unlock_bounds_bracket_every_condition() {
    let mid = UnlockCond::new(ElitePhase::E1, 40);
    assert!(mid.reached_by(&UnlockCond::max()));
    assert!(UnlockCond::base().reached_by(&mid));
    assert!(!mid.reached_by(&UnlockCond::base()));
}

#[test]
fn later_promotions_never_lose_tiers_and_max_reaches_the_last() {
    let s = slot(&[
        ("b[000]", ElitePhase::E0, 1),
        ("b[010]", ElitePhase::E1, 1),
        ("b[020]", ElitePhase::E2, 1),
    ]);
    let states = [
        UnlockCond::base(),
        UnlockCond::new(ElitePhase::E0, 50),
        UnlockCond::new(ElitePhase::E1, 1),
        UnlockCond::new(ElitePhase::E1, 80),
        UnlockCond::new(ElitePhase::E2, 1),
        UnlockCond::max(),
    ];
    let position = |at: UnlockCond| s.unlocks.iter().position(|u| Some(u) == s.active_at(at));
    for w in states.windows(2) {
        assert!(position(w[0]) <= position(w[1]));
    }
    assert_eq!(s.active_at(UnlockCond::max()), s.max());
}

