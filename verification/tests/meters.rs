use baras_core::encounter::metrics::IncomingDamageRow;
use baras_core::encounter::pvp_faction::PvpFaction;
use baras_core::overlays::effects::effect_display_name;
use baras_core::overlay_metrics::{
    create_all_entries, create_entries_for_type, create_incoming_damage_entries, extract_values,
    meter_order, u32_to_decimal, EntryIcon, MetricType, OverlayRole, PlayerRates, Role, SHIELD_BLUE,
};

fn player(id: i64, name: &str, dps: i64) -> PlayerRates {
    PlayerRates {
        entity_id: id,
        name: name.to_string(),
        dps,
        bossdps: dps / 2,
        total_damage: dps * 10,
        total_damage_boss: dps * 5,
        hps: 300,
        ehps: 250,
        total_healing: 3000,
        total_healing_effective: 2500,
        tps: 40,
        total_threat: 400,
        edtps: 70,
        total_damage_taken_effective: 700,
        abs: 50,
        total_shielding: 500,
        htps: 90,
        ehtps: 80,
        total_healing_received: 900,
        total_healing_received_effective: 800,
        apm_whole: 42,
        apm_text: "42.5".to_string(),
        interrupt_casts: 12,
        pvp_faction: None,
        class_name: None,
        class_icon: None,
        discipline_icon: None,
        role: None,
    }
}

#[test]
fn decimal_text_of_counts() {
    assert_eq!(u32_to_decimal(0), "0");
    assert_eq!(u32_to_decimal(7), "7");
    assert_eq!(u32_to_decimal(10), "10");
    assert_eq!(u32_to_decimal(4_294_967_295), "4294967295");
}

#[test]
fn values_per_meter() {
    let m = player(1, "Kira", 1000);
    let v = extract_values(&m, MetricType::Dps);
    assert_eq!((v.rate, v.total, v.split_rate, v.split_total), (1000, 10000, None, None));
    let v = extract_values(&m, MetricType::EDps);
    assert_eq!((v.rate, v.split_rate, v.split_total), (1000, Some(500), Some(5000)));
    let v = extract_values(&m, MetricType::EHps);
    assert_eq!((v.rate, v.total, v.split_rate, v.split_total), (250, 2500, Some(200), Some(2000)));
    assert_eq!(v.split_color, Some(SHIELD_BLUE));
    let v = extract_values(&m, MetricType::Dtps);
    assert_eq!((v.rate, v.total), (70, 700));
    let v = extract_values(&m, MetricType::Htps);
    assert_eq!((v.rate, v.split_rate, v.split_total), (90, Some(80), Some(800)));
    let v = extract_values(&m, MetricType::Apm);
    assert_eq!((v.rate, v.total), (42, 0));
    assert_eq!(v.display_value.as_deref(), Some("42.5"));
    assert_eq!(v.display_total.as_deref(), Some("-"));
    let v = extract_values(&m, MetricType::Interrupts);
    assert_eq!(v.rate, 12);
    assert_eq!(v.display_value.as_deref(), Some("12"));
    let v = extract_values(&m, MetricType::IncomingDamage);
    assert_eq!((v.rate, v.total, v.display_value), (0, 0, None));
}

#[test]
fn meter_order_is_a_stable_sort() {
    // (is enemy, rate)
    let keys = vec![(true, 900), (false, 100), (false, 300), (true, 900), (false, 300)];
    assert_eq!(meter_order(&keys), vec![2, 4, 1, 0, 3]);
    assert!(meter_order(&Vec::new()).is_empty());
}

#[test]
fn entries_for_a_meter() {
    let mut a = player(1, "Alpha", 100);
    a.class_icon = Some("sage".to_string());
    a.role = Some(Role::Healer);
    a.discipline_icon = Some("seer".to_string());
    a.class_name = Some("Sage".to_string());
    let mut b = player(2, "Bravo", 500);
    b.pvp_faction = Some(PvpFaction::Enemy);
    b.class_icon = Some("sniper".to_string());
    let c = player(3, "Charlie", 300);
    let entries = create_entries_for_type(MetricType::Dps, &vec![a, b, c], 3);
    let names: Vec<&str> = entries.iter().map(|e| e.name.as_str()).collect();
    assert_eq!(names, vec!["Charlie", "Alpha", "Bravo"]);
    assert!(entries.iter().all(|e| e.max_value == 500));
    assert!(entries[0].is_local && !entries[1].is_local);
    assert!(entries[2].is_enemy);
    assert_eq!(entries[1].icon, Some(EntryIcon::Class("sage".to_string(), OverlayRole::Healer)));
    assert_eq!(entries[2].icon, Some(EntryIcon::Plain("sniper".to_string())));
    assert_eq!(entries[1].discipline_icon.as_deref(), Some("seer"));
    assert_eq!(entries[1].class_name.as_deref(), Some("Sage"));
    assert_eq!(entries[0].total, 3000);
    assert_eq!(entries[0].split, None);

    let ehps = create_entries_for_type(MetricType::EHps, &vec![player(9, "Solo", 1)], 0);
    assert_eq!(ehps[0].split, Some((200, 2000)));
    assert_eq!(ehps[0].split_color, Some(SHIELD_BLUE));
    let ints = create_entries_for_type(MetricType::Interrupts, &vec![player(9, "Solo", 1)], 0);
    assert_eq!(ints[0].display, Some(("12".to_string(), "-".to_string())));
    assert!(create_entries_for_type(MetricType::Dps, &Vec::new(), 0).is_empty());
}

#[test]
fn incoming_damage_entries() {
    let mut p = player(7, "Raider", 1);
    p.class_icon = Some("juggernaut".to_string());
    p.role = Some(Role::Tank);
    let rows = vec![
        IncomingDamageRow { entity_id: 99, name: "Boss".to_string(), rate: 800, total: 16000 },
        IncomingDamageRow { entity_id: 7, name: "Raider".to_string(), rate: 1200, total: 24000 },
    ];
    let entries = create_incoming_damage_entries(&rows, &vec![p]);
    assert_eq!(entries.len(), 2);
    assert_eq!(entries[0].name, "Boss");
    assert_eq!(entries[0].icon, None);
    assert_eq!(entries[1].icon, Some(EntryIcon::Class("juggernaut".to_string(), OverlayRole::Tank)));
    assert!(entries.iter().all(|e| e.max_value == 1200));
    assert_eq!(entries[1].total, 24000);
    assert!(create_incoming_damage_entries(&Vec::new(), &Vec::new()).is_empty());
}

#[test]
fn all_meters_but_incoming_damage() {
    let all = create_all_entries(&vec![player(1, "Kira", 10)], 1);
    let types: Vec<MetricType> = all.iter().map(|(t, _)| *t).collect();
    assert_eq!(types.len(), 10);
    assert!(!types.contains(&MetricType::IncomingDamage));
    assert_eq!(types[0], MetricType::Dps);
    assert!(all.iter().all(|(_, es)| es.len() == 1 && es[0].is_local));
    assert_eq!(MetricType::all().len(), 11);
}

#[test]
fn effect_entry_labels() {
    assert_eq!(effect_display_name("Kolto Probe", 2), "Kolto Probe (2)");
    assert_eq!(effect_display_name("Kolto Probe", 1), "Kolto Probe");
    assert_eq!(effect_display_name("Kolto Probe", 0), "Kolto Probe");
    assert_eq!(effect_display_name("Stacks", 255), "Stacks (255)");
}
