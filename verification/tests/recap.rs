use baras_core::query::death_recap::{
    killing_blow, ledger_amounts, summarize_recap, trim_ledger, KillingBlow, LedgerAmounts, RecapHit, RecapKind,
};

fn hit(kind: RecapKind, source: &str, id: i64, ability: &str, dmg: i32, heal: i32, hp: i32, max_hp: i32) -> RecapHit {
    RecapHit {
        kind,
        source_name: source.to_string(),
        source_id: id,
        ability_name: ability.to_string(),
        dmg_effective: dmg,
        dmg_absorbed: 0,
        is_crit: false,
        dmg_type: "kinetic".to_string(),
        heal_effective: heal,
        hp,
        max_hp,
    }
}

#[test]
fn recap_sums_by_source_and_ability() {
    let mut first = hit(RecapKind::Damage, "Boss", 1, "Smash", 1000, 0, 9000, 10000);
    first.dmg_absorbed = 100;
    let mut crit = hit(RecapKind::Damage, "Boss", 1, "Smash", 3000, 0, 6500, 10000);
    crit.is_crit = true;
    let rows = vec![
        first,
        hit(RecapKind::Heal, "Healer", 2, "Probe", 0, 500, 9500, 10000),
        crit,
        hit(RecapKind::Damage, "Add", 3, "Bite", 200, 0, 6300, 10000),
        hit(RecapKind::Damage, "Boss", 1, "Slam", 7000, 0, 0, 10000),
        hit(RecapKind::Death, "", 0, "", 0, 0, 0, 10000),
    ];
    let s = summarize_recap(&rows);
    assert_eq!(s.damage_total, 11200);
    assert_eq!(s.absorbed_total, 100);
    assert_eq!(s.healing_total, 500);

    assert_eq!(s.damage_rows.len(), 2);
    let boss = &s.damage_rows[0];
    assert_eq!((boss.source_name.as_str(), boss.hits, boss.crits, boss.total, boss.max_hit, boss.absorbed), ("Boss", 3, 1, 11000, 7000, 100));
    let names: Vec<&str> = boss.abilities.iter().map(|a| a.ability_name.as_str()).collect();
    assert_eq!(names, vec!["Slam", "Smash"]);
    assert_eq!(boss.abilities[1].hits, 2);
    assert_eq!(boss.abilities[1].total, 4000);
    assert_eq!(s.damage_rows[1].source_name, "Add");

    assert_eq!(s.healing_rows.len(), 1);
    assert_eq!((s.healing_rows[0].casts, s.healing_rows[0].effective), (1, 500));
    assert_eq!(s.healing_rows[0].abilities[0].ability_name, "Probe");

    assert_eq!(
        s.killing_blow,
        Some(KillingBlow {
            ability_name: "Slam".to_string(),
            source_name: "Boss".to_string(),
            amount: 7000,
            overkill: 700,
            is_crit: false,
            damage_type: "kinetic".to_string(),
        })
    );
}

#[test]
fn same_named_spawns_stay_separate() {
    let rows = vec![
        hit(RecapKind::Damage, "Droid", 10, "Shot", 150, 0, 850, 1000),
        hit(RecapKind::Damage, "Droid", 11, "Shot", 300, 0, 550, 1000),
        hit(RecapKind::Damage, "Droid", 10, "Shot", 150, 0, 400, 1000),
    ];
    let s = summarize_recap(&rows);
    assert_eq!(s.damage_rows.len(), 2);
    // totals tie at 300: the first seen source comes first
    assert_eq!(s.damage_rows[0].source_id, 10);
    assert_eq!(s.damage_rows[1].source_id, 11);
    assert_eq!(s.killing_blow, None);
}

#[test]
fn killing_blow_without_recorded_health() {
    let rows = vec![
        hit(RecapKind::Damage, "A", 1, "Poke", 100, 0, 300, 1000),
        // health after these is not recorded
        hit(RecapKind::Damage, "B", 2, "Big", 500, 0, 0, 0),
        hit(RecapKind::Damage, "C", 3, "Small", 100, 0, 0, 0),
    ];
    let kb = killing_blow(&rows).unwrap();
    // the small hit could not have killed from 300; the big one could
    assert_eq!(kb.ability_name, "Big");
    assert_eq!(kb.overkill, 200);

    // a hit that left recorded health at zero wins over any candidate
    let rows = vec![
        hit(RecapKind::Damage, "A", 1, "Zero", 50, 0, 0, 1000),
        hit(RecapKind::Damage, "B", 2, "Later", 500, 0, 0, 0),
    ];
    assert_eq!(killing_blow(&rows).unwrap().ability_name, "Zero");
    assert_eq!(killing_blow(&Vec::new()), None);
}

#[test]
fn ledger_keeps_the_last_thirty() {
    let mut events: Vec<u32> = (0..35).collect();
    trim_ledger(&mut events);
    assert_eq!(events, (5..35).collect::<Vec<u32>>());
    let mut short: Vec<u32> = (0..30).collect();
    trim_ledger(&mut short);
    assert_eq!(short.len(), 30);
}

#[test]
fn ledger_amounts_by_kind() {
    let mut d = hit(RecapKind::Damage, "Boss", 1, "Slam", 500, 0, 10, 100);
    d.dmg_absorbed = 40;
    d.is_crit = true;
    assert_eq!(ledger_amounts(&d, true), LedgerAmounts { value: 500, absorbed: 40, is_crit: true, avoided: true });
    let mut h = hit(RecapKind::Heal, "Medic", 2, "Heal", 0, 300, 10, 100);
    h.is_crit = true;
    assert_eq!(ledger_amounts(&h, true), LedgerAmounts { value: 300, absorbed: 0, is_crit: false, avoided: false });
    let x = hit(RecapKind::Death, "", 0, "", 9, 9, 0, 100);
    assert_eq!(ledger_amounts(&x, false), LedgerAmounts { value: 0, absorbed: 0, is_crit: false, avoided: false });
}
