use baras_core::effects::definition::DisplayTarget;
use baras_core::effects::engine::{
    discipline_matches, AbilityEvent, ActiveEffect, AlertOn, ChargeDirection, ChargesEvent, DurationModifier, EffectEvent, EffectRule,
    EffectTracker, EntityRef, RefreshRule, RefreshScope, RefreshTrigger, Signal, TriggerKind,
};
use baras_core::effects::tracker::{DefinitionKeys, DefinitionSet, Selector, SelectorKind, TriggerSelectors};

fn make_effect(id: &str, name: &str, trigger: TriggerKind, duration_ms: Option<i64>) -> EffectRule {
    EffectRule {
        id: id.to_string(),
        name: name.to_string(),
        trigger,
        is_alert: false,
        alert_text: None,
        alert_on: AlertOn::Never,
        audio_enabled: false,
        audio_file: None,
        duration_ms,
        cooldown_ready_ms: 0,
        ignore_refreshes: false,
        ignore_effect_removed: false,
        refresh_scope: RefreshScope::SourceAndTarget,
        display_targets: vec![],
        default_charges: None,
        persist_past_death: false,
        track_outside_combat: true,
        is_refreshed_on_modify: false,
        aoe_refresh_immediate: false,
        modifiers: vec![],
        display_text: None,
        color: None,
        icon_ability_id: None,
        disciplines: vec![],
        source_disciplines: vec![],
        target_disciplines: vec![],
    }
}

fn keys(rule: &EffectRule, selectors: TriggerSelectors, refresh: Vec<Selector>) -> DefinitionKeys {
    DefinitionKeys {
        id: rule.id.clone(),
        enabled: true,
        trigger: selectors,
        refresh_abilities: refresh,
        is_aoe_refresh: false,
    }
}

fn make_tracker(defs: Vec<(DefinitionKeys, EffectRule)>) -> EffectTracker {
    let mut set = DefinitionSet::new();
    set.add_definitions(defs, true);
    EffectTracker::new(set)
}

fn entity(id: i64, name: &str) -> EntityRef {
    EntityRef { id, name: name.to_string(), is_player: true }
}

fn effect_applied_signal(effect_id: i64, timestamp: i64) -> Signal {
    Signal::EffectApplied(EffectEvent {
        effect_id,
        effect_name: String::new(),
        source: entity(1, ""),
        target: entity(2, ""),
        timestamp,
        charges: None,
    })
}

fn ability(ability_id: i64, source: i64, target: i64, timestamp: i64) -> AbilityEvent {
    AbilityEvent {
        ability_id,
        ability_name: String::new(),
        source: entity(source, ""),
        target: entity(target, ""),
        timestamp,
        immune_or_resist: false,
    }
}

fn ability_activated_signal(ability_id: i64, timestamp: i64) -> Signal {
    Signal::AbilityActivated(ability(ability_id, 1, 2, timestamp))
}

fn any(_: &EffectRule) -> bool {
    true
}

fn no_refresh(_: &EffectRule) -> Option<RefreshRule> {
    None
}

fn run(tracker: &mut EffectTracker, sig: &Signal) {
    tracker.handle_signal(sig, &any, &any, &any, &no_refresh);
}

fn effect_def(id: &str, name: &str, duration_ms: Option<i64>) -> (DefinitionKeys, EffectRule) {
    let rule = make_effect(id, name, TriggerKind::EffectApplied, duration_ms);
    (keys(&rule, TriggerSelectors::Effects(vec![Selector::Id(12345)]), vec![]), rule)
}

fn cast_def(id: &str, name: &str, duration_ms: Option<i64>) -> (DefinitionKeys, EffectRule) {
    let rule = make_effect(id, name, TriggerKind::AbilityCast, duration_ms);
    (keys(&rule, TriggerSelectors::Abilities(vec![Selector::Id(99999)]), vec![]), rule)
}

fn effect_of<'a>(tracker: &'a EffectTracker, id: &str) -> &'a ActiveEffect {
    tracker.active_effects().iter().find(|e| e.key.definition_id == id).unwrap()
}

#[test]
fn test_instant_alert_effect_applied_fires_alert_no_active_effect() {
    let (k, mut def) = effect_def("test_alert", "Test Alert", None);
    def.is_alert = true;
    def.alert_text = Some("Danger!".to_string());
    let mut tracker = make_tracker(vec![(k, def)]);
    run(&mut tracker, &effect_applied_signal(12345, 1_000));

    let alerts = tracker.take_fired_alerts();
    assert_eq!(alerts.len(), 1, "Expected 1 fired alert");
    assert_eq!(alerts[0].text, "Danger!");
    assert!(alerts[0].alert_text_enabled);
    assert_eq!(tracker.active_effects().len(), 0, "Instant alert should not create active effect");
}

#[test]
fn test_instant_alert_no_text_when_alert_text_is_none() {
    let (k, mut def) = effect_def("test_alert", "My Alert Name", None);
    def.is_alert = true;
    def.audio_enabled = true;
    def.audio_file = Some("beep.mp3".to_string());
    let mut tracker = make_tracker(vec![(k, def)]);
    run(&mut tracker, &effect_applied_signal(12345, 1_000));

    let alerts = tracker.take_fired_alerts();
    assert_eq!(alerts.len(), 1);
    assert_eq!(alerts[0].text, "My Alert Name");
    assert!(!alerts[0].alert_text_enabled, "No text overlay when alert_text is None");
    assert!(alerts[0].audio_enabled);
    assert_eq!(alerts[0].audio_file.as_deref(), Some("beep.mp3"));
}

#[test]
fn test_instant_alert_carries_audio_config() {
    let (k, mut def) = effect_def("test_alert", "Test Alert", None);
    def.is_alert = true;
    def.alert_text = Some("Watch out!".to_string());
    def.audio_enabled = true;
    def.audio_file = Some("warning.mp3".to_string());
    let mut tracker = make_tracker(vec![(k, def)]);
    run(&mut tracker, &effect_applied_signal(12345, 1_000));

    let alerts = tracker.take_fired_alerts();
    assert_eq!(alerts.len(), 1);
    assert!(alerts[0].audio_enabled);
    assert_eq!(alerts[0].audio_file.as_deref(), Some("warning.mp3"));
}

#[test]
fn test_instant_alert_ability_cast_fires_alert_no_active_effect() {
    let (k, mut def) = cast_def("test_ability_alert", "Ability Alert", None);
    def.is_alert = true;
    def.alert_text = Some("Ability fired!".to_string());
    let mut tracker = make_tracker(vec![(k, def)]);
    run(&mut tracker, &ability_activated_signal(99999, 1_000));

    let alerts = tracker.take_fired_alerts();
    assert_eq!(alerts.len(), 1, "Expected 1 fired alert for ability cast");
    assert_eq!(alerts[0].text, "Ability fired!");
    assert_eq!(tracker.active_effects().len(), 0, "Instant alert should not create active effect");
}

#[test]
fn test_non_instant_effect_creates_active_effect() {
    let mut tracker = make_tracker(vec![effect_def("normal_effect", "Normal Effect", Some(15_000))]);
    run(&mut tracker, &effect_applied_signal(12345, 1_000));

    assert_eq!(tracker.active_effects().len(), 1, "Normal effect should create an active effect");
    let alerts = tracker.take_fired_alerts();
    assert!(alerts.is_empty(), "No alert expected for alert_on=None");
}

#[test]
fn test_on_apply_alert_fires_for_ability_cast_trigger() {
    let (k, mut def) = cast_def("proc_with_alert", "Proc Alert", Some(10_000));
    def.alert_on = AlertOn::OnApply;
    def.alert_text = Some("Proc activated!".to_string());
    let mut tracker = make_tracker(vec![(k, def)]);
    run(&mut tracker, &ability_activated_signal(99999, 1_000));

    assert_eq!(tracker.active_effects().len(), 1, "Should create active effect");
    let alerts = tracker.take_fired_alerts();
    assert_eq!(alerts.len(), 1, "Expected OnApply alert for ability cast trigger");
    assert_eq!(alerts[0].text, "Proc activated!");
}

#[test]
fn applied_effect_times_refreshes_and_registers_targets() {
    let mut tracker = make_tracker(vec![effect_def("hot", "Hot", Some(15_000))]);
    tracker.set_player_context(1, None);
    run(&mut tracker, &effect_applied_signal(12345, 1_000));
    let e = effect_of(&tracker, "hot");
    assert_eq!(e.expires_at, Some(16_000));
    assert!(e.is_from_local);
    assert!(tracker.has_ticking_effects());
    let targets = tracker.take_new_targets();
    assert_eq!(targets.len(), 1);
    assert_eq!(targets[0].entity_id, 2);
    // a duplicate log line changes nothing; a later one refreshes
    run(&mut tracker, &effect_applied_signal(12345, 1_000));
    assert_eq!(effect_of(&tracker, "hot").expires_at, Some(16_000));
    run(&mut tracker, &effect_applied_signal(12345, 5_000));
    assert_eq!(effect_of(&tracker, "hot").expires_at, Some(20_000));
    assert_eq!(tracker.active_effects().len(), 1);
    assert_eq!(tracker.current_game_time(), Some(5_000));
    // the game time never goes back
    run(&mut tracker, &effect_applied_signal(1, 4_000));
    assert_eq!(tracker.current_game_time(), Some(5_000));
}

#[test]
fn ignored_refreshes_keep_the_running_cooldown() {
    let (k, mut def) = effect_def("cd", "Cooldown", Some(10_000));
    def.ignore_refreshes = true;
    def.cooldown_ready_ms = 2_000;
    let mut tracker = make_tracker(vec![(k, def)]);
    run(&mut tracker, &effect_applied_signal(12345, 0));
    // in the base duration (before 8 s) the trigger is ignored
    run(&mut tracker, &effect_applied_signal(12345, 7_000));
    assert_eq!(effect_of(&tracker, "cd").expires_at, Some(10_000));
    // in the ready state it restarts
    run(&mut tracker, &effect_applied_signal(12345, 9_000));
    assert_eq!(effect_of(&tracker, "cd").expires_at, Some(19_000));
}

#[test]
fn removal_within_a_second_of_a_refresh_is_stale() {
    let mut tracker = make_tracker(vec![effect_def("dot", "Dot", Some(15_000))]);
    run(&mut tracker, &effect_applied_signal(12345, 1_000));
    let removed = |ts: i64| {
        Signal::EffectRemoved(EffectEvent {
            effect_id: 12345,
            effect_name: String::new(),
            source: entity(1, ""),
            target: entity(2, ""),
            timestamp: ts,
            charges: None,
        })
    };
    run(&mut tracker, &removed(1_900));
    assert!(!effect_of(&tracker, "dot").removed);
    run(&mut tracker, &removed(2_500));
    assert!(effect_of(&tracker, "dot").removed);
    assert!(!tracker.has_ticking_effects());
    // a tick drops it
    tracker.tick(2_600);
    assert_eq!(tracker.active_effects().len(), 0);
}

#[test]
fn dot_tracker_effects_wait_for_damage_and_revive() {
    let (k, mut def) = effect_def("dot", "Dot", Some(18_000));
    def.display_targets = vec![DisplayTarget::DotTracker];
    let mut tracker = make_tracker(vec![(k, def)]);
    run(&mut tracker, &effect_applied_signal(12345, 1_000));
    // a reapplication only marks the refresh time
    run(&mut tracker, &effect_applied_signal(12345, 3_000));
    let e = effect_of(&tracker, "dot");
    assert_eq!(e.last_refreshed_at, 3_000);
    assert_eq!(e.expires_at, Some(19_000));
}

#[test]
fn tick_expires_then_drops_after_grace_and_fires_expiry_alert() {
    let (k, mut def) = effect_def("buff", "Buff", Some(5_000));
    def.alert_on = AlertOn::OnExpire;
    def.alert_text = Some("{target} lost buff".to_string());
    let mut tracker = make_tracker(vec![(k, def)]);
    run(
        &mut tracker,
        &Signal::EffectApplied(EffectEvent {
            effect_id: 12345,
            effect_name: String::new(),
            source: entity(1, "Healer"),
            target: entity(2, "Tank"),
            timestamp: 1_000,
            charges: None,
        }),
    );
    tracker.tick(3_000);
    assert!(tracker.take_fired_alerts().is_empty());
    tracker.tick(6_000);
    let e = effect_of(&tracker, "buff");
    assert!(e.timer_expired);
    assert!(!e.removed);
    let alerts = tracker.take_fired_alerts();
    assert_eq!(alerts.len(), 1);
    assert_eq!(alerts[0].text, "Tank lost buff");
    assert_eq!(alerts[0].timestamp, 1_000);
    // fired once only
    tracker.tick(7_000);
    assert!(tracker.take_fired_alerts().is_empty());
    // past the grace period it is gone
    tracker.tick(14_001);
    assert_eq!(tracker.active_effects().len(), 0);
}

#[test]
fn area_change_and_death_and_combat_end_clear_effects() {
    let (k1, mut keep) = effect_def("keep", "Keep", Some(60_000));
    keep.persist_past_death = true;
    keep.track_outside_combat = true;
    let (k2, mut combat) = effect_def("combat", "Combat", Some(60_000));
    combat.track_outside_combat = false;
    let mut tracker = make_tracker(vec![(k1, keep), (k2, combat)]);
    run(&mut tracker, &effect_applied_signal(12345, 1_000));
    assert_eq!(tracker.active_effects().len(), 2);
    run(&mut tracker, &Signal::EntityDeath(2));
    assert!(!effect_of(&tracker, "keep").removed);
    assert!(effect_of(&tracker, "combat").removed);
    run(&mut tracker, &Signal::CombatEnded);
    assert!(!effect_of(&tracker, "keep").removed);
    run(&mut tracker, &Signal::AreaEntered);
    assert!(effect_of(&tracker, "keep").removed);
    assert!(!tracker.has_ticking_effects());
}

#[test]
fn refresh_abilities_refresh_and_respect_removal_and_stacks() {
    let rule = make_effect("shield", "Shield", TriggerKind::EffectApplied, Some(10_000));
    let k = keys(&rule, TriggerSelectors::Effects(vec![Selector::Id(12345)]), vec![Selector::Id(777)]);
    let mut tracker = make_tracker(vec![(k, rule)]);
    run(&mut tracker, &effect_applied_signal(12345, 1_000));
    let on_cast = |_: &EffectRule| {
        Some(RefreshRule {
            trigger: RefreshTrigger::Activation,
            ignore_immune_resist: false,
            min_stacks: None,
            defer_to_first_damage: false,
        })
    };
    let cast = Signal::AbilityActivated(ability(777, 1, 2, 4_000));
    tracker.handle_signal(&cast, &any, &any, &any, &on_cast);
    assert_eq!(effect_of(&tracker, "shield").expires_at, Some(14_000));
    // a refresh needing stacks the effect lacks does nothing
    let needs_stacks = |_: &EffectRule| {
        Some(RefreshRule {
            trigger: RefreshTrigger::Activation,
            ignore_immune_resist: false,
            min_stacks: Some(2),
            defer_to_first_damage: false,
        })
    };
    let later = Signal::AbilityActivated(ability(777, 1, 2, 6_000));
    tracker.handle_signal(&later, &any, &any, &any, &needs_stacks);
    assert_eq!(effect_of(&tracker, "shield").expires_at, Some(14_000));
    // refreshes of another kind do nothing
    let on_heal = |_: &EffectRule| {
        Some(RefreshRule {
            trigger: RefreshTrigger::Heal,
            ignore_immune_resist: false,
            min_stacks: None,
            defer_to_first_damage: false,
        })
    };
    tracker.handle_signal(&later, &any, &any, &any, &on_heal);
    assert_eq!(effect_of(&tracker, "shield").expires_at, Some(14_000));
    // a removed effect is never refreshed back
    run(
        &mut tracker,
        &Signal::EffectRemoved(EffectEvent {
            effect_id: 12345,
            effect_name: String::new(),
            source: entity(1, ""),
            target: entity(2, ""),
            timestamp: 8_000,
            charges: None,
        }),
    );
    let again = Signal::AbilityActivated(ability(777, 1, 2, 9_000));
    tracker.handle_signal(&again, &any, &any, &any, &on_cast);
    assert!(effect_of(&tracker, "shield").removed);
    assert_eq!(effect_of(&tracker, "shield").expires_at, Some(14_000));
}

#[test]
fn first_damage_refresh_waits_for_the_hit() {
    let (k0, mut rule) = effect_def("dot", "Dot", Some(18_000));
    rule.display_targets = vec![DisplayTarget::DotTracker];
    let k = DefinitionKeys { refresh_abilities: vec![Selector::Id(555)], ..k0 };
    let mut tracker = make_tracker(vec![(k, rule)]);
    tracker.set_player_context(1, None);
    run(&mut tracker, &effect_applied_signal(12345, 1_000));
    let deferred = |_: &EffectRule| {
        Some(RefreshRule {
            trigger: RefreshTrigger::Activation,
            ignore_immune_resist: false,
            min_stacks: None,
            defer_to_first_damage: true,
        })
    };
    tracker.handle_signal(&Signal::AbilityActivated(ability(555, 1, 2, 5_000)), &any, &any, &any, &deferred);
    assert_eq!(effect_of(&tracker, "dot").expires_at, Some(19_000));
    // self-damage does not confirm it; the hit on the target does
    tracker.handle_signal(&Signal::DamageTaken(ability(555, 1, 1, 5_100)), &any, &any, &any, &deferred);
    assert_eq!(effect_of(&tracker, "dot").expires_at, Some(19_000));
    tracker.handle_signal(&Signal::DamageTaken(ability(555, 1, 2, 5_200)), &any, &any, &any, &deferred);
    assert_eq!(effect_of(&tracker, "dot").expires_at, Some(23_200));
}

#[test]
fn self_targeted_casts_go_to_the_current_target() {
    let rule = make_effect("mark", "Mark", TriggerKind::EffectApplied, Some(10_000));
    let k = keys(&rule, TriggerSelectors::Effects(vec![Selector::Id(12345)]), vec![Selector::Id(777)]);
    let mut raid = rule;
    raid.display_targets = vec![DisplayTarget::RaidFrames];
    let mut tracker = make_tracker(vec![(k, raid)]);
    run(&mut tracker, &Signal::TargetChanged { source_id: 1, target: entity(9, "Friend") });
    let on_cast = |_: &EffectRule| {
        Some(RefreshRule {
            trigger: RefreshTrigger::Activation,
            ignore_immune_resist: false,
            min_stacks: None,
            defer_to_first_damage: false,
        })
    };
    // a self-targeted cast late-registers the raid frame effect on the current target
    tracker.handle_signal(&Signal::AbilityActivated(ability(777, 1, 1, 2_000)), &any, &any, &any, &on_cast);
    assert_eq!(effect_of(&tracker, "mark").target_id, 9);
    let targets = tracker.take_new_targets();
    assert_eq!(targets.len(), 1);
    assert_eq!(targets[0].name, "Friend");
    run(&mut tracker, &Signal::TargetCleared(1));
    tracker.handle_signal(&Signal::AbilityActivated(ability(777, 1, 1, 3_000)), &any, &any, &any, &on_cast);
    assert!(tracker.active_effects().iter().any(|e| e.target_id == 1));
}

#[test]
fn duration_modifiers_extend_cap_and_respect_cooldown() {
    let (k, mut rule) = effect_def("buff", "Buff", Some(10_000));
    rule.modifiers = vec![DurationModifier {
        self_charges: None,
        adjust_ms: 3_000,
        refill: false,
        icd_ms: Some(1_000),
        max_duration_ms: Some(15_000),
    }];
    let mut tracker = make_tracker(vec![(k, rule)]);
    run(&mut tracker, &effect_applied_signal(12345, 1_000));
    let one = |_: &ActiveEffect, _: usize| 1usize;
    tracker.evaluate_modifiers(&one);
    assert_eq!(effect_of(&tracker, "buff").expires_at, Some(14_000));
    // within the internal cooldown nothing changes
    tracker.evaluate_modifiers(&one);
    assert_eq!(effect_of(&tracker, "buff").expires_at, Some(14_000));
    // later, capped at 15 s after application
    run(&mut tracker, &effect_applied_signal(1, 3_000));
    tracker.evaluate_modifiers(&one);
    let e = effect_of(&tracker, "buff");
    assert_eq!(e.expires_at, Some(16_000));
    assert_eq!(e.max_expires_at, Some(16_000));
}

#[test]
fn charge_changes_set_stacks_and_fire_own_modifiers() {
    let (k, mut rule) = effect_def("stacks", "Stacks", Some(10_000));
    rule.modifiers = vec![DurationModifier {
        self_charges: Some(Some(ChargeDirection::Increased)),
        adjust_ms: 2_000,
        refill: false,
        icd_ms: None,
        max_duration_ms: None,
    }];
    let mut tracker = make_tracker(vec![(k, rule)]);
    run(&mut tracker, &effect_applied_signal(12345, 1_000));
    let change = |charges: u8, ts: i64| {
        Signal::EffectChargesChanged(ChargesEvent {
            effect_id: 12345,
            effect_name: String::new(),
            source_id: 1,
            target_id: 2,
            timestamp: ts,
            charges,
        })
    };
    run(&mut tracker, &change(3, 2_000));
    let e = effect_of(&tracker, "stacks");
    assert_eq!(e.stacks, 3);
    assert_eq!(e.expires_at, Some(13_000));
    run(&mut tracker, &change(1, 3_000));
    let e = effect_of(&tracker, "stacks");
    assert_eq!(e.stacks, 1);
    assert_eq!(e.expires_at, Some(13_000));
}

#[test]
fn lookup_by_lowercase_name() {
    let mut set: DefinitionSet<&str> = DefinitionSet::new();
    let k = DefinitionKeys {
        id: "probe".to_string(),
        enabled: true,
        trigger: TriggerSelectors::Effects(vec![Selector::Name("Kolto Probe".to_string())]),
        refresh_abilities: vec![],
        is_aoe_refresh: false,
    };
    set.add_definitions(vec![(k, "probe")], false);
    let lname: Vec<char> = "kolto probe".chars().collect();
    assert_eq!(set.find_by_lowercase_name(SelectorKind::Effect, 1, &lname, false), vec![&"probe"]);
    let other: Vec<char> = "Kolto Probe".chars().collect();
    assert!(set.find_by_lowercase_name(SelectorKind::Effect, 1, &other, false).is_empty());
}

fn applied_on(target: i64, timestamp: i64) -> Signal {
    Signal::EffectApplied(EffectEvent {
        effect_id: 12345,
        effect_name: String::new(),
        source: entity(1, ""),
        target: entity(target, ""),
        timestamp,
        charges: None,
    })
}

#[test]
fn aoe_refresh_collects_targets_hit_with_the_primary() {
    let (k0, rule) = effect_def("dot", "Dot", Some(20_000));
    let k = DefinitionKeys { refresh_abilities: vec![Selector::Id(888)], is_aoe_refresh: true, ..k0 };
    let mut tracker = make_tracker(vec![(k, rule)]);
    for t in [2, 3, 4] {
        run(&mut tracker, &applied_on(t, 1_000));
    }
    run(&mut tracker, &Signal::AbilityActivated(ability(888, 1, 2, 10_000)));
    run(&mut tracker, &Signal::DamageTaken(ability(888, 1, 2, 10_005)));
    run(&mut tracker, &Signal::DamageTaken(ability(888, 1, 3, 10_012)));
    // nothing refreshed while collecting
    assert_eq!(tracker.effects_for_target(2)[0].expires_at, Some(21_000));
    // a hit outside the window ends the collection: both collected targets refresh at the anchor
    run(&mut tracker, &Signal::DamageTaken(ability(888, 1, 4, 10_100)));
    assert_eq!(tracker.effects_for_target(2)[0].expires_at, Some(30_005));
    assert_eq!(tracker.effects_for_target(3)[0].expires_at, Some(30_005));
    assert_eq!(tracker.effects_for_target(4)[0].expires_at, Some(21_000));
}

#[test]
fn immediate_aoe_refresh_on_any_hit_and_finalize_when_due() {
    let (k0, mut rule) = effect_def("dot", "Dot", Some(20_000));
    rule.aoe_refresh_immediate = true;
    let k = DefinitionKeys { refresh_abilities: vec![Selector::Id(888)], is_aoe_refresh: true, ..k0 };
    let mut tracker = make_tracker(vec![(k, rule)]);
    run(&mut tracker, &applied_on(3, 1_000));
    run(&mut tracker, &Signal::AbilityActivated(ability(888, 1, 2, 10_000)));
    run(&mut tracker, &Signal::DamageTaken(ability(888, 1, 3, 10_500)));
    assert_eq!(tracker.effects_for_target(3)[0].expires_at, Some(30_500));
    // past the pending timeout nothing more is refreshed
    run(&mut tracker, &Signal::DamageTaken(ability(888, 1, 3, 13_000)));
    assert_eq!(tracker.effects_for_target(3)[0].expires_at, Some(30_500));
    // with nothing collecting there is nothing to finalize
    tracker.finalize_aoe_if_due();
    assert_eq!(tracker.effects_for_target(3)[0].expires_at, Some(30_500));
}

#[test]
fn overlays_and_definition_reload() {
    let (k1, mut raid) = effect_def("raid", "Raid", Some(10_000));
    raid.display_targets = vec![DisplayTarget::RaidFrames];
    let (k2, mut other) = effect_def("other", "Other", Some(10_000));
    other.display_targets = vec![DisplayTarget::EffectsA];
    let mut tracker = make_tracker(vec![(k1.clone(), raid.clone()), (k2, other)]);
    run(&mut tracker, &effect_applied_signal(12345, 1_000));
    let raid_effects = tracker.effects_shown_on(DisplayTarget::RaidFrames);
    assert_eq!(raid_effects.len(), 1);
    assert_eq!(raid_effects[0].key.definition_id, "raid");
    assert_eq!(tracker.effects_shown_on(DisplayTarget::Cooldowns).len(), 0);
    // reloading without "other" drops its effect; turning on an expiry alert
    // does not fire it for running effects
    let mut set = DefinitionSet::new();
    raid.alert_on = AlertOn::OnExpire;
    raid.alert_text = Some("gone".to_string());
    set.add_definitions(vec![(k1, raid)], true);
    tracker.set_definitions(set);
    assert_eq!(tracker.active_effects().len(), 1);
    assert!(effect_of(&tracker, "raid").on_end_alert_fired);
    tracker.tick(20_000);
    assert!(tracker.take_fired_alerts().is_empty());
}

#[test]
fn effects_and_alerts_carry_display_data() {
    let (k, mut def) = effect_def("shown", "Shown Name", Some(10_000));
    def.color = Some([255, 0, 0, 255]);
    def.display_text = Some("Short".to_string());
    def.alert_on = AlertOn::OnApply;
    def.alert_text = Some("applied".to_string());
    def.icon_ability_id = Some(777);
    let mut tracker = make_tracker(vec![(k.clone(), def.clone())]);
    run(&mut tracker, &effect_applied_signal(12345, 1_000));
    let e = effect_of(&tracker, "shown");
    assert_eq!(e.name, "Shown Name");
    assert_eq!(e.display_text, "Short");
    assert_eq!(e.color, [255, 0, 0, 255]);
    assert_eq!(e.icon_ability_id, 777);
    let alerts = tracker.take_fired_alerts();
    assert_eq!(alerts.len(), 1);
    assert_eq!(alerts[0].color, Some([255, 0, 0, 255]));
    assert_eq!(alerts[0].icon_ability_id, Some(777));
    // a reload without display text, color or icon falls back to the name,
    // the default gray and the game effect ID
    let mut set = DefinitionSet::new();
    def.color = None;
    def.display_text = None;
    def.icon_ability_id = None;
    def.name = "Renamed".to_string();
    set.add_definitions(vec![(k, def)], true);
    tracker.set_definitions(set);
    let e = effect_of(&tracker, "shown");
    assert_eq!(e.name, "Renamed");
    assert_eq!(e.display_text, "Renamed");
    assert_eq!(e.color, [128, 128, 128, 255]);
    assert_eq!(e.icon_ability_id, 12345);
}

#[test]
fn definition_display_helpers() {
    let mut def = make_effect("d", "Name", TriggerKind::EffectApplied, None);
    assert_eq!(def.display_text(), "Name");
    assert_eq!(def.effective_color(), [128, 128, 128, 255]);
    def.display_text = Some("Text".to_string());
    def.color = Some([1, 2, 3, 4]);
    assert_eq!(def.display_text(), "Text");
    assert_eq!(def.effective_color(), [1, 2, 3, 4]);
}

#[test]
fn discipline_scope_and_entity_filters() {
    let (k, mut def) = effect_def("d", "D", Some(1_000));
    def.disciplines = vec![7];
    def.source_disciplines = vec![9];
    let mut tracker = make_tracker(vec![(k, def.clone())]);
    // an unknown local discipline does not hide the effect
    assert!(tracker.matches_discipline(&def));
    tracker.set_player_context(1, Some(8));
    assert!(!tracker.matches_discipline(&def));
    run(&mut tracker, &Signal::DisciplineChanged { entity_id: 1, discipline: Some(7) });
    assert!(tracker.matches_discipline(&def));
    // a source filter needs a player whose discipline has been seen
    let p = entity(5, "P");
    assert!(!tracker.matches_entity_disciplines(&def.source_disciplines, &p));
    run(&mut tracker, &Signal::DisciplineChanged { entity_id: 5, discipline: Some(9) });
    assert!(tracker.matches_entity_disciplines(&def.source_disciplines, &p));
    let npc = EntityRef { id: 5, name: "P".to_string(), is_player: false };
    assert!(!tracker.matches_entity_disciplines(&def.source_disciplines, &npc));
    assert!(tracker.admits_disciplines(&def, &p, &entity(6, "")));
    // an unknown discipline forgets the player's
    run(&mut tracker, &Signal::DisciplineChanged { entity_id: 5, discipline: None });
    assert!(!tracker.admits_disciplines(&def, &p, &entity(6, "")));
    assert!(discipline_matches(&vec![], Some(3)));
    assert!(discipline_matches(&vec![3], None));
    assert!(!discipline_matches(&vec![3], Some(4)));
}

#[test]
fn reapplying_an_effect_keeps_one_entry_per_key() {
    let mut tracker = make_tracker(vec![effect_def("dot", "Dot", Some(10_000))]);
    run(&mut tracker, &effect_applied_signal(12345, 1_000));
    run(&mut tracker, &effect_applied_signal(12345, 3_000));
    run(&mut tracker, &effect_applied_signal(12345, 5_000));
    assert_eq!(tracker.active_effects().len(), 1);
    assert_eq!(effect_of(&tracker, "dot").applied_at, 5_000);
}

#[test]
fn discipline_gates_copy_and_signal_parties() {
    let (k, mut def) = effect_def("d", "D", Some(1_000));
    def.target_disciplines = vec![4];
    let mut tracker = make_tracker(vec![(k, def.clone())]);
    tracker.set_player_context(1, Some(2));
    run(&mut tracker, &Signal::DisciplineChanged { entity_id: 9, discipline: Some(4) });
    let gates = tracker.discipline_gates();
    assert_eq!(gates.local_discipline, Some(2));
    assert_eq!(gates.player_disciplines, vec![(9, 4)]);
    assert!(gates.admits(&def, &entity(1, ""), &entity(9, "")));
    assert!(!gates.admits(&def, &entity(1, ""), &entity(8, "")));
    let sig = effect_applied_signal(12345, 1_000);
    let (source, target) = sig.parties().unwrap();
    assert_eq!((source.id, target.id), (1, 2));
    assert!(Signal::CombatEnded.parties().is_none());
}
