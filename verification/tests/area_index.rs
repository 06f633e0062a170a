use baras_core::context::area_index::tier_display_name;
use std::collections::HashSet;

use baras_core::context::area_index::{
    extract_areas_from_lines, parse_area_entered_line, FileAreaEntry, FileAreaIndex, LogAreaCache,
    CACHE_VERSION,
};
use baras_core::game_data::difficulty_id;

#[test]
fn test_parse_area_entered_with_difficulty() {
    let line = r#"[18:28:08.183] [@Jerran Zeva#689501114780828|(-8.56,3.11,-0.98,358.89)|(426912/442951)] [] [] [AreaEntered {836045448953664}: The Dread Palace {137438993410} 8 Player Master {836045448953655}] (he3000) <v7.0.0b>"#;

    let entry = parse_area_entered_line(line).expect("Should parse");
    assert_eq!(entry.area_name, "The Dread Palace");
    assert_eq!(entry.area_id, 137438993410);
    assert_eq!(entry.difficulty_name, "8 Player Master");
    assert_eq!(entry.difficulty_id, 836045448953655);
    // 8 Player Master -> NiM 8
    assert_eq!(entry.display_name(), "The Dread Palace NiM 8");
}

#[test]
fn test_parse_area_entered_without_difficulty() {
    let line = r#"[18:13:06.139] [@Jerran Zeva#689501114780828|(4618.41,4698.29,706.02,-78.94)|(1/426912)] [] [] [AreaEntered {836045448953664}: Imperial Fleet {137438989504}] (he3000) <v7.0.0b>"#;

    let entry = parse_area_entered_line(line).expect("Should parse");
    assert_eq!(entry.area_name, "Imperial Fleet");
    assert_eq!(entry.area_id, 137438989504);
    assert_eq!(entry.difficulty_name, "");
    assert_eq!(entry.difficulty_id, 0);
    assert_eq!(entry.display_name(), "Imperial Fleet");
}

#[test]
fn test_parse_german_localization() {
    let line = r#"[19:57:55.960] [@Calstone#690129162696566|(4659.45,4702.27,708.82,-41.55)|(1/416194)] [] [] [GebietBetreten {836045448953664}: Imperiale Flotte {137438989504}] (he4001) <v7.0.0b>"#;

    let entry = parse_area_entered_line(line).expect("Should parse");
    assert_eq!(entry.area_name, "Imperiale Flotte");
    assert_eq!(entry.area_id, 137438989504);
}

#[test]
fn test_german_difficulty_uses_id() {
    // German client: "8 Spieler, Meister" — string matching would fail,
    // but the difficulty ID (MASTER_8) is language-independent
    let line = r#"[19:58:12.345] [@Kemrydas#690129162696566|(1.0,2.0,3.0,0.0)|(400000/400000)] [] [] [GebietBetreten {836045448953664}: Tal der Maschinengötter {137438993410} 8 Spieler, Meister {836045448953655}] (he4001) <v7.0.0b>"#;

    let entry = parse_area_entered_line(line).expect("Should parse");
    assert_eq!(entry.difficulty_id, 836045448953655);
    assert_eq!(entry.difficulty_tier(), Some("nim"));
    assert_eq!(entry.display_name(), "Tal der Maschinengötter NiM 8");
}

#[test]
fn test_difficulty_tier() {
    let mut entry = FileAreaEntry {
        area_id: 1,
        area_name: "Dxun".to_string(),
        difficulty_id: difficulty_id::VETERAN_16,
        difficulty_name: String::new(),
    };
    assert_eq!(entry.difficulty_tier(), Some("hm"));

    entry.difficulty_id = difficulty_id::STORY_8;
    assert_eq!(entry.difficulty_tier(), Some("sm"));

    entry.difficulty_id = difficulty_id::MASTER_4;
    assert_eq!(entry.difficulty_tier(), Some("fp"));

    // Unknown ID (open world / no difficulty)
    entry.difficulty_id = 0;
    assert_eq!(entry.difficulty_tier(), None);
}

#[test]
fn test_display_name() {
    // 16 Player Master -> NiM 16
    let nim_16 = FileAreaEntry {
        area_id: 1,
        area_name: "Dxun".to_string(),
        difficulty_id: 2,
        difficulty_name: "16 Player Master".to_string(),
    };
    assert_eq!(nim_16.display_name(), "Dxun NiM 16");

    // 8 Player Veteran -> HM 8
    let hm_8 = FileAreaEntry {
        area_id: 1,
        area_name: "The Ravagers".to_string(),
        difficulty_id: 2,
        difficulty_name: "8 Player Veteran".to_string(),
    };
    assert_eq!(hm_8.display_name(), "The Ravagers HM 8");

    // 16 Player Story -> SM 16
    let sm_16 = FileAreaEntry {
        area_id: 1,
        area_name: "Eternity Vault".to_string(),
        difficulty_id: 2,
        difficulty_name: "16 Player Story".to_string(),
    };
    assert_eq!(sm_16.display_name(), "Eternity Vault SM 16");

    // 4 Player content - keep as-is
    let fp_4 = FileAreaEntry {
        area_id: 1,
        area_name: "Hammer Station".to_string(),
        difficulty_id: 2,
        difficulty_name: "4 Player Veteran".to_string(),
    };
    assert_eq!(fp_4.display_name(), "Hammer Station 4 Player Veteran");

    // No difficulty
    let without_diff = FileAreaEntry {
        area_id: 1,
        area_name: "Imperial Fleet".to_string(),
        difficulty_id: 0,
        difficulty_name: String::new(),
    };
    assert_eq!(without_diff.display_name(), "Imperial Fleet");
}

fn entry(name: &str, difficulty_id: i64, difficulty_name: &str) -> FileAreaEntry {
    FileAreaEntry {
        area_id: 7,
        area_name: name.to_string(),
        difficulty_id,
        difficulty_name: difficulty_name.to_string(),
    }
}

#[test]
fn display_name_from_id_for_each_tier_and_size() {
    assert_eq!(entry("Dxun", difficulty_id::VETERAN_16, "").display_name(), "Dxun HM 16");
    assert_eq!(entry("Dxun", difficulty_id::STORY_16, "").display_name(), "Dxun SM 16");
    assert_eq!(entry("Dxun", difficulty_id::MASTER_16, "x").display_name(), "Dxun NiM 16");
    assert_eq!(entry("Dxun", difficulty_id::VETERAN_8, "").display_name(), "Dxun HM 8");
    // 4-player IDs fall back to the text
    assert_eq!(
        entry("Hammer Station", difficulty_id::VETERAN_4, "4 Player Veteran").display_name(),
        "Hammer Station 4 Player Veteran"
    );
    assert_eq!(entry("Hammer Station", difficulty_id::MASTER_4, "").display_name(), "Hammer Station");
}

#[test]
fn display_name_text_edge_cases() {
    // case-insensitive "Player", tier words lowercased, extra spaces
    assert_eq!(entry("Dxun", 2, "  8   PLAYER   MASTER ").display_name(), "Dxun NiM 8");
    assert_eq!(entry("Dxun", 2, "16 player STORY").display_name(), "Dxun SM 16");
    // a leading '+' still parses as 8
    assert_eq!(entry("Dxun", 2, "+8 Player Veteran").display_name(), "Dxun HM 8");
    // multi-word tier kept when unknown
    assert_eq!(entry("Dxun", 2, "8 Player Story Mode").display_name(), "Dxun 8 Player Story Mode");
    // too few words, wrong middle word, unparsable count, other sizes
    assert_eq!(entry("A", 2, "8 Player").display_name(), "A 8 Player");
    assert_eq!(entry("A", 2, "8 Spieler Meister").display_name(), "A 8 Spieler Meister");
    assert_eq!(entry("A", 2, "eight Player Master").display_name(), "A eight Player Master");
    assert_eq!(entry("A", 2, "300 Player Master").display_name(), "A 300 Player Master");
    assert_eq!(entry("A", 2, "24 Player Master").display_name(), "A 24 Player Master");
}

#[test]
fn parse_rejects_malformed_lines() {
    // no marker
    assert!(parse_area_entered_line("[AreaEntered {1}: Fleet {2}]").is_none());
    // no opening bracket before the marker
    assert!(parse_area_entered_line("AreaEntered {836045448953664}: Fleet {2}]").is_none());
    // no closing bracket after the marker
    assert!(parse_area_entered_line("[AreaEntered {836045448953664}: Fleet {2}").is_none());
    // no colon in the segment
    assert!(parse_area_entered_line("[AreaEntered {836045448953664} Fleet {2}]").is_none());
    // no ID pair after the colon
    assert!(parse_area_entered_line("[AreaEntered {836045448953664}: Fleet]").is_none());
    // an area ID that is not a number
    assert!(parse_area_entered_line("[AreaEntered {836045448953664}: Fleet {x1}]").is_none());
    // a difficulty ID that is not a number
    assert!(parse_area_entered_line("[AreaEntered {836045448953664}: Fleet {2} Hard {y}]").is_none());
    // an area ID out of the i64 range
    assert!(parse_area_entered_line("[AreaEntered {836045448953664}: Fleet {9223372036854775808}]")
        .is_none());
}

#[test]
fn parse_accepts_signed_ids_and_unclosed_second_brace() {
    let e = parse_area_entered_line("[AreaEntered {836045448953664}:  Fleet  {-5} Hard {3]").unwrap();
    assert_eq!(e.area_id, -5);
    assert_eq!(e.area_name, "Fleet");
    // the second '{' has no '}', so there is no difficulty
    assert_eq!(e.difficulty_id, 0);
    assert_eq!(e.difficulty_name, "");
    let e = parse_area_entered_line("[X {836045448953664}: A {+9223372036854775807} B {-9223372036854775808}]")
        .unwrap();
    assert_eq!(e.area_id, i64::MAX);
    assert_eq!(e.difficulty_id, i64::MIN);
    assert_eq!(e.difficulty_name, "B");
}

#[test]
fn extract_dedups_and_filters_known_areas() {
    let lines: Vec<Vec<u8>> = vec![
        b"[1] [] [AreaEntered {836045448953664}: Fleet {10}] x\n".to_vec(),
        b"[2] [] [Damage {1}: nothing here]\n".to_vec(),
        b"[3] [] [AreaEntered {836045448953664}: Palace {20} 8 Player Master {836045448953655}]\n"
            .to_vec(),
        b"[4] [] [AreaEntered {836045448953664}: Palace {20} 8 Player Master {836045448953655}]\n"
            .to_vec(),
        b"[5] [] [AreaEntered {836045448953664}: Palace {20} 16 Player Master {836045448953656}]\n"
            .to_vec(),
        b"[6] [] [AreaEntered {836045448953664}: Unknown {30}]\n".to_vec(),
        // Windows-1252 byte 0xF6 is 'ö'
        b"[7] [] [AreaEntered {836045448953664}: G\xf6tter {40}]\n".to_vec(),
    ];
    let known: HashSet<i64> = [10, 20, 40].into_iter().collect();
    let areas = extract_areas_from_lines(&lines, &known);
    let got: Vec<(i64, i64, String)> =
        areas.iter().map(|a| (a.area_id, a.difficulty_id, a.area_name.clone())).collect();
    assert_eq!(
        got,
        vec![
            (10, 0, "Fleet".to_string()),
            (20, 836045448953655, "Palace".to_string()),
            (20, 836045448953656, "Palace".to_string()),
            (40, 0, "Götter".to_string()),
        ]
    );
}

fn index(secs: u64) -> FileAreaIndex {
    FileAreaIndex { modified_secs: secs, areas: vec![entry("Dxun", 0, "")] }
}

#[test]
fn cache_insert_get_and_needs_update() {
    let mut cache = LogAreaCache::new();
    assert_eq!(cache.version(), CACHE_VERSION);
    assert!(cache.is_empty());
    assert!(cache.needs_update_secs("a.txt", 5));
    cache.insert("a.txt".to_string(), index(5));
    assert_eq!(cache.get("a.txt").unwrap().modified_secs, 5);
    assert!(!cache.needs_update_secs("a.txt", 5));
    assert!(cache.needs_update_secs("a.txt", 6));
    assert!(cache.needs_update_secs("b.txt", 5));
    // replacing keeps one entry
    cache.insert("a.txt".to_string(), index(6));
    assert_eq!(cache.len(), 1);
    assert!(!cache.needs_update_secs("a.txt", 6));
    let t = std::time::UNIX_EPOCH + std::time::Duration::from_secs(6);
    assert!(!cache.needs_update("a.txt", t));
    assert!(cache.needs_update("b.txt", t));
    // whole seconds count: 6.5 s after the epoch is 6
    let t = std::time::UNIX_EPOCH + std::time::Duration::from_millis(6500);
    assert!(!cache.needs_update("a.txt", t));
    let t = std::time::UNIX_EPOCH + std::time::Duration::from_secs(7);
    assert!(cache.needs_update("a.txt", t));
    // a time before the epoch reads as 0
    cache.insert("z.txt".to_string(), index(0));
    let t = std::time::UNIX_EPOCH - std::time::Duration::from_secs(30);
    assert!(!cache.needs_update("z.txt", t));
    assert!(cache.needs_update("a.txt", t));
}

#[test]
fn cache_len_grows_only_for_new_paths() {
    let mut cache = LogAreaCache::new();
    assert_eq!(cache.len(), 0);
    cache.insert("a".to_string(), index(1));
    assert_eq!(cache.len(), 1);
    cache.insert("b".to_string(), index(2));
    assert_eq!(cache.len(), 2);
    cache.insert("a".to_string(), index(3));
    assert_eq!(cache.len(), 2);
    assert_eq!(cache.get("a").unwrap().modified_secs, 3);
    assert_eq!(cache.get("b").unwrap().modified_secs, 2);
}

#[test]
fn cache_prune_missing_and_from_parts() {
    let mut cache = LogAreaCache::from_parts(
        CACHE_VERSION,
        vec![
            ("a".to_string(), index(1)),
            ("b".to_string(), index(2)),
            ("a".to_string(), index(3)),
            ("c".to_string(), index(4)),
        ],
    );
    assert_eq!(cache.len(), 3);
    // the later entry for "a" wins
    assert_eq!(cache.get("a").unwrap().modified_secs, 3);
    cache.prune_missing(&vec!["b".to_string(), "zzz".to_string()]);
    assert_eq!(cache.len(), 2);
    assert!(cache.get("b").is_none());
    assert_eq!(cache.get("c").unwrap().modified_secs, 4);
    let mut paths = cache.paths();
    paths.sort();
    assert_eq!(paths, vec!["a".to_string(), "c".to_string()]);
}

#[test]
fn tier_display_name_from_lowercase_tier() {
    let area: Vec<char> = "Dxun".chars().collect();
    let fallback: Vec<char> = "Dxun 16 Player Master".chars().collect();
    let s = |v: Vec<char>| v.into_iter().collect::<String>();
    assert_eq!(s(tier_display_name(&area, fallback.clone(), 16, &"master".chars().collect())), "Dxun NiM 16");
    assert_eq!(s(tier_display_name(&area, fallback.clone(), 8, &"veteran".chars().collect())), "Dxun HM 8");
    assert_eq!(s(tier_display_name(&area, fallback.clone(), 8, &"story".chars().collect())), "Dxun SM 8");
    assert_eq!(s(tier_display_name(&area, fallback.clone(), 16, &"Master".chars().collect())), "Dxun 16 Player Master");
}

#[test]
fn cache_from_stored_keeps_only_this_format_version() {
    let entries = || vec![("a".to_string(), index(1)), ("b".to_string(), index(2))];
    let cache = LogAreaCache::from_stored(CACHE_VERSION, entries());
    assert_eq!(cache.len(), 2);
    assert_eq!(cache.get("b").unwrap().modified_secs, 2);
    let stale = LogAreaCache::from_stored(CACHE_VERSION + 1, entries());
    assert_eq!(stale.len(), 0);
    assert_eq!(stale.version(), CACHE_VERSION);
}
