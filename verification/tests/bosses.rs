use baras_core::game_data::difficulty_id::{MASTER_8, STORY_4, VETERAN_4};
use baras_core::game_data::bosses::{
    get_boss_ids, is_boss, lookup_area_content_type, lookup_boss, BossInfo, BossLookup,
    ContentType, Difficulty,
};

#[test]
fn test_matches_config_key_tier_only() {
    // Plain tier keys match all group sizes
    assert!(Difficulty::Story8.matches_config_key("story"));
    assert!(Difficulty::Story16.matches_config_key("story"));
    assert!(Difficulty::Veteran8.matches_config_key("veteran"));
    assert!(Difficulty::Veteran16.matches_config_key("veteran"));
    assert!(Difficulty::Veteran4.matches_config_key("veteran"));
    assert!(Difficulty::Master8.matches_config_key("master"));
    assert!(Difficulty::Master16.matches_config_key("master"));
    assert!(Difficulty::Master4.matches_config_key("master"));

    // Non-matching tiers
    assert!(!Difficulty::Story8.matches_config_key("veteran"));
    assert!(!Difficulty::Veteran8.matches_config_key("master"));
    assert!(!Difficulty::Master8.matches_config_key("story"));
}

#[test]
fn test_matches_config_key_compound_8() {
    // 8-man compound keys
    assert!(Difficulty::Story8.matches_config_key("story_8"));
    assert!(!Difficulty::Story16.matches_config_key("story_8"));

    assert!(Difficulty::Veteran8.matches_config_key("veteran_8"));
    assert!(!Difficulty::Veteran16.matches_config_key("veteran_8"));
    assert!(!Difficulty::Veteran4.matches_config_key("veteran_8"));

    assert!(Difficulty::Master8.matches_config_key("master_8"));
    assert!(!Difficulty::Master16.matches_config_key("master_8"));
    assert!(!Difficulty::Master4.matches_config_key("master_8"));
}

#[test]
fn test_matches_config_key_compound_16() {
    // 16-man compound keys
    assert!(Difficulty::Story16.matches_config_key("story_16"));
    assert!(!Difficulty::Story8.matches_config_key("story_16"));

    assert!(Difficulty::Veteran16.matches_config_key("veteran_16"));
    assert!(!Difficulty::Veteran8.matches_config_key("veteran_16"));
    assert!(!Difficulty::Veteran4.matches_config_key("veteran_16"));

    assert!(Difficulty::Master16.matches_config_key("master_16"));
    assert!(!Difficulty::Master8.matches_config_key("master_16"));
    assert!(!Difficulty::Master4.matches_config_key("master_16"));
}

#[test]
fn test_matches_config_key_compound_4() {
    // 4-man compound keys
    assert!(Difficulty::Veteran4.matches_config_key("veteran_4"));
    assert!(!Difficulty::Veteran8.matches_config_key("veteran_4"));
    assert!(!Difficulty::Veteran16.matches_config_key("veteran_4"));

    assert!(Difficulty::Master4.matches_config_key("master_4"));
    assert!(!Difficulty::Master8.matches_config_key("master_4"));
    assert!(!Difficulty::Master16.matches_config_key("master_4"));
}

#[test]
fn test_matches_config_key_case_insensitive() {
    assert!(Difficulty::Veteran8.matches_config_key("Veteran"));
    assert!(Difficulty::Veteran8.matches_config_key("VETERAN"));
    assert!(Difficulty::Veteran16.matches_config_key("Veteran_16"));
    assert!(Difficulty::Veteran16.matches_config_key("VETERAN_16"));
}

#[test]
fn test_matches_config_key_invalid_compound() {
    // Invalid suffixes should not match as compound keys
    // "story_99" has suffix 99, which is not 4/8/16, so falls back to plain match
    assert!(!Difficulty::Story8.matches_config_key("story_99"));
    // "veteran_" is not a valid compound key
    assert!(!Difficulty::Veteran8.matches_config_key("veteran_"));
}

#[test]
fn difficulty_ids_sizes_and_keys() {
    assert_eq!(Difficulty::from_difficulty_id(MASTER_8), Some(Difficulty::Master8));
    assert_eq!(Difficulty::from_difficulty_id(VETERAN_4), Some(Difficulty::Veteran4));
    // there is no Story4 difficulty
    assert_eq!(Difficulty::from_difficulty_id(STORY_4), None);
    assert_eq!(Difficulty::from_difficulty_id(0), None);
    assert_eq!(Difficulty::Master16.group_size(), 16);
    assert_eq!(Difficulty::Veteran4.group_size(), 4);
    assert_eq!(Difficulty::Story8.config_key(), "story");
    // "+8" parses as 8; a plain key with the compound suffix of another size does not match
    assert!(Difficulty::Master8.matches_config_key("master_+8"));
    assert!(!Difficulty::Master8.matches_config_key("master_08x"));
    assert!(Difficulty::Master8.matches_config_key("MaStEr_08"));
}

fn info(op: &str, boss: &str, ct: ContentType) -> BossInfo {
    BossInfo {
        content_type: ct,
        operation: op.to_string(),
        boss: boss.to_string(),
        difficulty: None,
        is_kill_target: true,
    }
}

fn sample() -> BossLookup {
    let raid = vec![
        (1, info("Dread Palace", "Bestia", ContentType::Operation)),
        (2, info("Dread Palace", "Bestia", ContentType::Operation)),
        (3, info("Parsing", "Dummy", ContentType::TrainingDummy)),
    ];
    let lair = vec![(4, info("Lair", "Beast", ContentType::LairBoss))];
    let fp = vec![(2, info("Hammer Station", "Vorgath", ContentType::Flashpoint))];
    let world = vec![(5, info("Parsing", "Dummy 2", ContentType::TrainingDummy))];
    BossLookup::new(&raid, &lair, &fp, &world)
}

#[test]
fn boss_lookup_later_sources_win() {
    let l = sample();
    assert_eq!(lookup_boss(&l, 1).unwrap().boss, "Bestia");
    // id 2 is replaced by the flashpoint entry
    assert_eq!(lookup_boss(&l, 2).unwrap().operation, "Hammer Station");
    assert!(lookup_boss(&l, 99).is_none());
    assert!(is_boss(&l, None, 4));
    assert!(!is_boss(&l, Some(false), 99));
    assert!(is_boss(&l, Some(true), 99));
    let mut ids = get_boss_ids(&l, "Dread Palace", "Bestia");
    ids.sort();
    assert_eq!(ids, vec![1]);
    assert!(get_boss_ids(&l, "Dread Palace", "Nobody").is_empty());
}

#[test]
fn area_content_skips_training_dummies() {
    let l = sample();
    assert_eq!(lookup_area_content_type(&l, "Dread Palace"), Some(ContentType::Operation));
    assert_eq!(lookup_area_content_type(&l, "Hammer Station"), Some(ContentType::Flashpoint));
    assert_eq!(lookup_area_content_type(&l, "Lair"), Some(ContentType::LairBoss));
    assert_eq!(lookup_area_content_type(&l, "Parsing"), None);
}
