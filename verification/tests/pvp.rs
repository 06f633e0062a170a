use baras_core::encounter::pvp_faction::{PvpFaction, PvpFactionTracker};
use baras_core::game_data::effect_id;
use baras_core::game_data::pvp_instance::{is_pvp_area, pvp_area_kind, pvp_match_label, PvpAreaKind};

const LOCAL: i64 = 1;

#[test]
fn local_player_damage_and_heal_seed_factions() {
    let mut t = PvpFactionTracker::default();
    t.observe_pair(LOCAL, 2, true, LOCAL); // local damages 2 → enemy
    t.observe_pair(LOCAL, 3, false, LOCAL); // local heals 3 → friend
    assert_eq!(t.faction_of(2, LOCAL), Some(PvpFaction::Enemy));
    assert_eq!(t.faction_of(3, LOCAL), Some(PvpFaction::Friendly));
}

#[test]
fn transitive_inference_through_known_players() {
    let mut t = PvpFactionTracker::default();
    t.observe_pair(LOCAL, 2, true, LOCAL); // 2 = enemy
    t.observe_pair(2, 4, false, LOCAL); // enemy heals 4 → enemy
    t.observe_pair(2, 5, true, LOCAL); // enemy damages 5 → friend
    t.observe_pair(5, 6, false, LOCAL); // friend heals 6 → friend
    t.observe_pair(6, 7, true, LOCAL); // friend damages 7 → enemy
    assert_eq!(t.faction_of(4, LOCAL), Some(PvpFaction::Enemy));
    assert_eq!(t.faction_of(5, LOCAL), Some(PvpFaction::Friendly));
    assert_eq!(t.faction_of(6, LOCAL), Some(PvpFaction::Friendly));
    assert_eq!(t.faction_of(7, LOCAL), Some(PvpFaction::Enemy));
}

#[test]
fn reverse_inference_classifies_unknown_source() {
    let mut t = PvpFactionTracker::default();
    t.observe_pair(8, LOCAL, true, LOCAL); // 8 damages local → enemy
    t.observe_pair(9, LOCAL, false, LOCAL); // 9 heals local → friend
    assert_eq!(t.faction_of(8, LOCAL), Some(PvpFaction::Enemy));
    assert_eq!(t.faction_of(9, LOCAL), Some(PvpFaction::Friendly));
}

#[test]
fn classification_is_sticky_and_unknown_pairs_learn_nothing() {
    let mut t = PvpFactionTracker::default();
    t.observe_pair(10, 11, true, LOCAL); // both unknown → nothing
    assert_eq!(t.faction_of(10, LOCAL), None);
    assert_eq!(t.faction_of(11, LOCAL), None);

    t.observe_pair(LOCAL, 10, false, LOCAL); // 10 = friend
    t.observe_pair(11, 10, true, LOCAL); // 11 damages friend → enemy
    // A later contradictory event must not reclassify
    t.observe_pair(LOCAL, 11, false, LOCAL); // would say friend — ignored, both known
    assert_eq!(t.faction_of(11, LOCAL), Some(PvpFaction::Enemy));
}

#[test]
fn observe_only_uses_player_damage_and_heals() {
    let mut t = PvpFactionTracker::new();
    // not damage or heal
    t.observe(effect_id::EXITCOMBAT, true, LOCAL, true, 2, LOCAL);
    assert_eq!(t.faction_of(2, LOCAL), None);
    // target not a player
    t.observe(effect_id::DAMAGE, true, LOCAL, false, 2, LOCAL);
    assert_eq!(t.faction_of(2, LOCAL), None);
    // unknown local player
    t.observe(effect_id::DAMAGE, true, 3, true, 2, 0);
    assert_eq!(t.faction_of(2, LOCAL), None);
    // self-interaction
    t.observe(effect_id::HEAL, true, 2, true, 2, LOCAL);
    assert_eq!(t.faction_of(2, LOCAL), None);
    t.observe(effect_id::DAMAGE, true, LOCAL, true, 2, LOCAL);
    assert_eq!(t.faction_of(2, LOCAL), Some(PvpFaction::Enemy));
    t.observe(effect_id::HEAL, true, 2, true, 3, LOCAL);
    assert_eq!(t.faction_of(3, LOCAL), Some(PvpFaction::Enemy));
    assert_eq!(t.faction_of(LOCAL, LOCAL), Some(PvpFaction::Friendly));
    assert_eq!(PvpFaction::Enemy.opposite(), PvpFaction::Friendly);
}

#[test]
fn pvp_area_classification() {
    assert_eq!(pvp_area_kind(137438989517), Some(PvpAreaKind::Warzone));
    assert_eq!(pvp_area_kind(945872057669629), Some(PvpAreaKind::Arena));
    assert_eq!(pvp_area_kind(137438989504), None);
    assert!(is_pvp_area(833571547775746));
    assert!(!is_pvp_area(0));
    assert_eq!(pvp_match_label(137438956902), "Warzone Match");
    assert_eq!(pvp_match_label(137438993370), "Arena Round");
    assert_eq!(pvp_match_label(1), "PvP Match");
}
