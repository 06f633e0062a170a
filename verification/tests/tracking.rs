use baras_core::effects::definition::DisplayTarget;
use baras_core::effects::tracker::format_effect_alert;
use baras_core::encounter::metrics::IncomingDamageTracker;
use baras_core::game_data::effect_id;
use baras_core::overlays::enemy_frames::{placeholder_frames, EnemyFramesData};
use baras_core::signal_processor::counter::{aggregate_stacks, StackAggregation};
use baras_core::signal_processor::pvp_combat_state::{
    handle_in_combat_warzone, CombatEnded, WarzoneEncounter, WarzoneEvent,
};

#[test]
fn alert_text_placeholders() {
    assert_eq!(format_effect_alert("Danger!", "A", "B"), "Danger!");
    assert_eq!(format_effect_alert("{source} hits {target}", "Boss", "Tank"), "Boss hits Tank");
    assert_eq!(
        format_effect_alert("{target}{target} {src} {source", "X", "Y"),
        "YY {src} {source"
    );
    assert_eq!(format_effect_alert("{source} on {target}", "", ""), " on ");
    // a name holding a placeholder is not expanded again for the same placeholder
    assert_eq!(format_effect_alert("{source}", "{source}", "t"), "{source}");
    assert_eq!(format_effect_alert("{source}", "{target}", "t"), "t");
}

#[test]
fn incoming_damage_totals_window_and_order() {
    let mut t = IncomingDamageTracker::new();
    t.record(0, 7, 100);
    t.record(5_000, 8, 400);
    t.record(10_000, 7, 300);
    let mut totals = t.totals();
    totals.sort();
    assert_eq!(totals, vec![(7, 400), (8, 400)]);
    // at 10 s both hits of 7 are in the window: 400 / 20 = 20; 8: 400 / 20 = 20
    let rows = t.snapshot(10_000);
    assert_eq!(rows.len(), 2);
    assert!(rows.contains(&(7, 20, 400)));
    assert!(rows.contains(&(8, 20, 400)));
    // at 22 s the hit of 7 at 0 s and that of 8 at 5 s... 8's hit (5 s) is inside, 7's first is not
    let rows = t.snapshot(22_000);
    assert_eq!(rows, vec![(8, 20, 400), (7, 15, 400)]);
    // a hit 30 s later trims the window: rates are 0 except the new one
    t.record(40_000, 9, 39);
    let rows = t.snapshot(40_000);
    assert_eq!(rows[0], (9, 1, 39));
    assert_eq!(rows[1].1, 0);
    assert_eq!(rows[2].1, 0);
    assert_eq!(rows.len(), 3);
}

#[test]
fn incoming_damage_checked_snapshot() {
    let mut t = IncomingDamageTracker::new();
    t.record(0, 7, i32::MAX);
    t.record(1, 7, i32::MAX);
    assert!(t.sums_fit(1));
    assert_eq!(t.try_snapshot(1), Some(t.snapshot(1)));
    assert_eq!(t.try_snapshot(1).unwrap(), vec![(7, 214748364, 4294967294)]);
    // a time too early to anchor the window gives no snapshot
    assert_eq!(t.try_snapshot(i64::MIN), None);
    assert_eq!(t.try_snapshot(i64::MIN + 19_999), None);
    assert!(t.try_snapshot(i64::MIN + 20_000).is_some());
}

#[test]
fn incoming_damage_negative_rate_rounds_toward_zero() {
    let mut t = IncomingDamageTracker::new();
    t.record(1_000, 3, -21);
    assert_eq!(t.snapshot(1_000), vec![(3, -1, -21)]);
}

#[test]
fn placeholder_frames_are_eight_samples() {
    let frames = placeholder_frames();
    assert_eq!(frames.len(), 8);
    assert_eq!(frames[0].name, "Enemy 1");
    assert_eq!(frames[7].name, "Enemy 8");
    assert_eq!(frames[2].current_hp, 150_000);
    assert!(frames[1].targeting_you);
    assert!(!frames[0].targeting_you);
    assert_eq!(frames[3].target_name.as_deref(), Some("Teammate"));
    assert!(EnemyFramesData::default().frames.is_empty());
    assert_eq!(DisplayTarget::default(), DisplayTarget::NoDisplay);
}

#[test]
fn stack_aggregation() {
    let stacks = vec![3u8, 7, 1];
    assert_eq!(aggregate_stacks(&stacks, StackAggregation::Max), 7);
    assert_eq!(aggregate_stacks(&stacks, StackAggregation::Min), 1);
    assert_eq!(aggregate_stacks(&stacks, StackAggregation::Sum), 11);
    assert_eq!(aggregate_stacks(&vec![], StackAggregation::Min), 0);
}

fn blank(id: u64) -> WarzoneEncounter {
    WarzoneEncounter {
        id,
        area_id: None,
        last_exit_combat_time: None,
        last_damage_time: None,
        exit_combat_time: None,
        post_combat_exit: None,
    }
}

fn session() -> Vec<WarzoneEncounter> {
    let mut first = blank(42);
    first.area_id = Some(137438989517);
    vec![first]
}

#[test]
fn warzone_match_spans_respawns_and_ends_on_zone_out() {
    let mut encs = session();
    let dmg = WarzoneEvent { type_id: 1, effect_id: effect_id::DAMAGE, timestamp: 1_000 };
    assert_eq!(handle_in_combat_warzone(&dmg, &mut encs, || blank(43)), (vec![], true));
    assert_eq!(encs.len(), 1);
    assert_eq!(encs[0].last_damage_time, Some(1_000));
    let exit = WarzoneEvent { type_id: 1, effect_id: effect_id::EXITCOMBAT, timestamp: 2_000 };
    assert_eq!(handle_in_combat_warzone(&exit, &mut encs, || blank(43)), (vec![], true));
    assert_eq!(encs[0].last_exit_combat_time, Some(2_000));
    // re-entering the same area continues the match
    let same = WarzoneEvent {
        type_id: effect_id::AREAENTERED_TYPE,
        effect_id: 137438989517,
        timestamp: 3_000,
    };
    assert_eq!(handle_in_combat_warzone(&same, &mut encs, || blank(43)), (vec![], true));
    assert_eq!(encs.len(), 1);
    // zoning out ends it at the last ExitCombat and starts a new encounter
    let out = WarzoneEvent {
        type_id: effect_id::AREAENTERED_TYPE,
        effect_id: 137438989504,
        timestamp: 9_000,
    };
    let (signals, acc) = handle_in_combat_warzone(&out, &mut encs, || blank(43));
    assert!(!acc);
    assert_eq!(signals, vec![CombatEnded { timestamp: 2_000, encounter_id: 42, success: true }]);
    assert_eq!(encs.len(), 2);
    assert_eq!(encs[0].exit_combat_time, Some(2_000));
    assert_eq!(encs[0].post_combat_exit, Some(2_000));
    assert_eq!(encs[1].id, 43);
    assert_eq!(encs[1].exit_combat_time, None);
    // the new encounter has no area yet, so a further AreaEntered is no zone-out
    assert_eq!(handle_in_combat_warzone(&out, &mut encs, || blank(44)), (vec![], true));
    assert_eq!(encs.len(), 2);
}

#[test]
fn warzone_zone_out_without_exit_combat_ends_now() {
    let mut encs = session();
    let out = WarzoneEvent {
        type_id: effect_id::AREAENTERED_TYPE,
        effect_id: 5,
        timestamp: 7_000,
    };
    let (signals, _) = handle_in_combat_warzone(&out, &mut encs, || blank(43));
    assert_eq!(signals[0].timestamp, 7_000);
    assert_eq!(encs[0].exit_combat_time, Some(7_000));
    assert_eq!(encs.len(), 2);
    let mut none: Vec<WarzoneEncounter> = Vec::new();
    assert_eq!(handle_in_combat_warzone(&out, &mut none, || blank(1)), (vec![], false));
    assert!(none.is_empty());
}
