use baras_core::effects::engine::{ChargesEvent, EffectEvent, EntityRef, Signal};
use baras_core::effects::tracker::Selector;
use baras_core::signal_processor::counter::{check_effect_stack_counters, StackAggregation, StackCounter, StackEntry};
use baras_core::signal_processor::counter::{
    apply_counter_ops, check_counter_increments, check_counter_trigger, counter_ops, CounterChanged, CounterOp,
    CounterRule, CounterTriggerHits, CounterValues,
};

fn rule(id: &str) -> CounterRule {
    CounterRule {
        id: id.to_string(),
        enabled: true,
        tracks_effect_stacks: false,
        decrement: false,
        set_value: None,
        has_decrement_trigger: true,
        initial_value: 0,
    }
}

fn hits(increment: bool, decrement: bool, reset: bool) -> CounterTriggerHits {
    CounterTriggerHits { increment, decrement, reset }
}

#[test]
fn counter_trigger_matches_event_or_signals() {
    assert!(check_counter_trigger(true, false));
    assert!(check_counter_trigger(false, true));
    assert!(check_counter_trigger(true, true));
    assert!(!check_counter_trigger(false, false));
}

#[test]
fn counter_ops_follow_matched_triggers_in_order() {
    let mut set_rule = rule("phase_marker");
    set_rule.set_value = Some(3);
    set_rule.initial_value = 1;
    let counters = vec![rule("adds"), set_rule];
    let h = vec![hits(true, true, true), hits(true, false, false)];
    let ops = counter_ops(&counters, &h);
    assert_eq!(
        ops,
        vec![
            CounterOp::Modify { counter_id: "adds".to_string(), decrement: false, set_value: None },
            CounterOp::Modify { counter_id: "adds".to_string(), decrement: true, set_value: None },
            CounterOp::Reset { counter_id: "adds".to_string(), initial_value: 0 },
            CounterOp::Modify { counter_id: "phase_marker".to_string(), decrement: false, set_value: Some(3) },
        ]
    );
}

#[test]
fn counter_ops_skip_disabled_and_stack_counters() {
    let mut disabled = rule("off");
    disabled.enabled = false;
    let mut stacks = rule("stacks");
    stacks.tracks_effect_stacks = true;
    let mut no_dec = rule("no_dec");
    no_dec.has_decrement_trigger = false;
    no_dec.decrement = true;
    let counters = vec![disabled, stacks, no_dec];
    let h = vec![hits(true, true, true), hits(true, true, true), hits(true, true, false)];
    let ops = counter_ops(&counters, &h);
    // the counting-down increment trigger still fires; the absent decrement trigger does not
    assert_eq!(
        ops,
        vec![CounterOp::Modify { counter_id: "no_dec".to_string(), decrement: true, set_value: None }]
    );
    assert!(counter_ops(&Vec::new(), &Vec::new()).is_empty());
}

fn step(old: u32, decrement: bool, set_value: Option<u32>) -> u32 {
    match set_value {
        Some(v) => v,
        None => {
            if decrement {
                old.saturating_sub(1)
            } else {
                old.saturating_add(1)
            }
        }
    }
}

fn changed(id: &str, old_value: u32, new_value: u32, timestamp: i64) -> CounterChanged {
    CounterChanged { counter_id: id.to_string(), old_value, new_value, timestamp }
}

#[test]
fn counter_values_read_zero_until_set() {
    let mut values = CounterValues::new();
    assert_eq!(values.get("adds"), 0);
    values.set("adds".to_string(), 4);
    values.set("other".to_string(), 9);
    values.set("adds".to_string(), 5);
    assert_eq!(values.get("adds"), 5);
    assert_eq!(values.get("other"), 9);
    assert_eq!(values.get("missing"), 0);
}

#[test]
fn counter_increments_apply_and_signal_in_order() {
    let mut set_rule = rule("phase_marker");
    set_rule.set_value = Some(3);
    set_rule.initial_value = 1;
    let mut adds = rule("adds");
    adds.initial_value = 2;
    let counters = vec![adds, set_rule];
    let h = vec![hits(true, true, true), hits(true, false, false)];
    let mut values = CounterValues::new();
    values.set("adds".to_string(), 7);
    let signals = check_counter_increments(Some(&counters), &h, &mut values, 1234, step);
    // each signal's old value is the previous one's new value
    assert_eq!(
        signals,
        vec![
            changed("adds", 7, 8, 1234),
            changed("adds", 8, 7, 1234),
            changed("adds", 7, 2, 1234),
            changed("phase_marker", 0, 3, 1234),
        ]
    );
    assert_eq!(values.get("adds"), 2);
    assert_eq!(values.get("phase_marker"), 3);
}

#[test]
fn counter_reset_to_the_same_value_signals_nothing() {
    let ops = vec![
        CounterOp::Reset { counter_id: "adds".to_string(), initial_value: 0 },
        CounterOp::Modify { counter_id: "adds".to_string(), decrement: false, set_value: None },
        CounterOp::Reset { counter_id: "adds".to_string(), initial_value: 1 },
    ];
    let mut values = CounterValues::new();
    let signals = apply_counter_ops(&mut values, &ops, -5, step);
    assert_eq!(signals, vec![changed("adds", 0, 1, -5)]);
    assert_eq!(values.get("adds"), 1);
    // disabled counters change nothing
    let mut off = rule("off");
    off.enabled = false;
    let signals = check_counter_increments(Some(&vec![off]), &vec![hits(true, true, true)], &mut values, 0, step);
    assert!(signals.is_empty());
    assert_eq!(values.get("off"), 0);
}

fn on(effect_id: i64, name: &str, target: i64, charges: Option<u8>) -> EffectEvent {
    EffectEvent {
        effect_id,
        effect_name: name.to_string(),
        source: EntityRef { id: 1, name: String::new(), is_player: true },
        target: EntityRef { id: target, name: String::new(), is_player: false },
        timestamp: 0,
        charges,
    }
}

#[test]
fn effect_stack_counters_follow_stacks_across_entities() {
    let max = StackCounter {
        id: "max".to_string(),
        enabled: true,
        effects: vec![Selector::Id(50)],
        aggregation: StackAggregation::Max,
    };
    let sum = StackCounter {
        id: "sum".to_string(),
        enabled: true,
        effects: vec![Selector::Id(50)],
        aggregation: StackAggregation::Sum,
    };
    let counters = vec![max, sum];
    let mut stacks: Vec<StackEntry> = Vec::new();
    let mut values = CounterValues::new();
    let all = |_: &StackCounter, _: i64| true;
    let signals = vec![
        Signal::EffectApplied(on(50, "Burn", 7, Some(3))),
        Signal::EffectApplied(on(50, "Burn", 8, None)),
        Signal::EffectApplied(on(99, "Other", 8, Some(9))),
    ];
    let out = check_effect_stack_counters(&counters, &signals, &mut stacks, &mut values, 100, &all);
    assert_eq!(out, vec![changed("max", 0, 3, 100), changed("sum", 0, 4, 100)]);
    assert_eq!(values.get("max"), 3);
    // a charge change and a removal
    let signals = vec![
        Signal::EffectChargesChanged(ChargesEvent {
            effect_id: 50,
            effect_name: "Burn".to_string(),
            source_id: 1,
            target_id: 8,
            timestamp: 0,
            charges: 5,
        }),
        Signal::EffectRemoved(on(50, "Burn", 7, None)),
    ];
    let out = check_effect_stack_counters(&counters, &signals, &mut stacks, &mut values, 200, &all);
    assert_eq!(out, vec![changed("max", 3, 5, 200), changed("sum", 4, 5, 200)]);
    // signals of other effects change nothing
    let out = check_effect_stack_counters(
        &counters,
        &vec![Signal::EffectApplied(on(99, "Other", 7, Some(1)))],
        &mut stacks,
        &mut values,
        300,
        &all,
    );
    assert!(out.is_empty());
    // a target filter that matches no entity brings the values to 0
    let none = |_: &StackCounter, _: i64| false;
    let out = check_effect_stack_counters(
        &counters,
        &vec![Signal::EffectApplied(on(50, "burn", 9, Some(2)))],
        &mut stacks,
        &mut values,
        400,
        &none,
    );
    assert_eq!(out, vec![changed("max", 5, 0, 400), changed("sum", 5, 0, 400)]);
}

#[test]
fn counters_unchanged_without_an_active_boss() {
    let mut values = CounterValues::new();
    values.set("adds".to_string(), 4);
    let signals = check_counter_increments(None, &vec![hits(true, true, true)], &mut values, 10, step);
    assert!(signals.is_empty());
    assert_eq!(values.get("adds"), 4);
}
