use std::collections::HashMap;

use baras_core::effects::definition::{display_targets_from_list, display_targets_from_one, DisplayTarget};
use baras_core::game_data::mirror_abilities::MirrorAbility;
use baras_core::hotkey_input::{build_modifier_prefix, code_to_string, HotkeyCapture, HotkeyKey, KeydownOutcome};
use baras_core::mirror_names::{display_id, display_name, swap_for, AbilityNaming};
use baras_core::modifier_editor::ModifierTriggerType;

#[test]
fn display_targets_single_value() {
    assert_eq!(display_targets_from_one(DisplayTarget::RaidFrames), vec![DisplayTarget::RaidFrames]);
    assert!(display_targets_from_one(DisplayTarget::NoDisplay).is_empty());
}

#[test]
fn display_targets_list_drops_none_and_duplicates() {
    let list = vec![
        DisplayTarget::EffectsA,
        DisplayTarget::NoDisplay,
        DisplayTarget::RaidFrames,
        DisplayTarget::EffectsA,
        DisplayTarget::BossHealth,
        DisplayTarget::RaidFrames,
    ];
    assert_eq!(
        display_targets_from_list(&list),
        vec![DisplayTarget::EffectsA, DisplayTarget::RaidFrames, DisplayTarget::BossHealth]
    );
    assert!(display_targets_from_list(&vec![DisplayTarget::NoDisplay, DisplayTarget::NoDisplay]).is_empty());
    assert!(display_targets_from_list(&Vec::new()).is_empty());
}

fn mirrors() -> HashMap<i64, MirrorAbility> {
    let mut m = HashMap::new();
    // a Republic ability and its Imperial mirror
    m.insert(100, MirrorAbility { mirror_id: 200, mirror_name: "Force Lightning".to_string(), is_imperial: false });
    m.insert(200, MirrorAbility { mirror_id: 100, mirror_name: "Telekinetic Throw".to_string(), is_imperial: true });
    m
}

#[test]
fn mirror_naming_as_logged_keeps_everything() {
    let m = mirrors();
    assert!(swap_for(AbilityNaming::AsLogged, &m, 100).is_none());
    assert_eq!(display_id(AbilityNaming::AsLogged, &m, 100), 100);
    assert_eq!(display_name(AbilityNaming::AsLogged, &m, 100, "Telekinetic Throw"), "Telekinetic Throw");
}

#[test]
fn mirror_naming_swaps_to_wanted_faction() {
    let m = mirrors();
    // 100 is Republic: the Imperial preference shows its mirror
    assert_eq!(display_id(AbilityNaming::Imperial, &m, 100), 200);
    assert_eq!(display_name(AbilityNaming::Imperial, &m, 100, "Telekinetic Throw"), "Force Lightning");
    // already Imperial: unchanged
    assert_eq!(display_id(AbilityNaming::Imperial, &m, 200), 200);
    assert_eq!(display_name(AbilityNaming::Imperial, &m, 200, "Force Lightning"), "Force Lightning");
    // the Republic preference swaps the Imperial one
    assert_eq!(display_id(AbilityNaming::Republic, &m, 200), 100);
    assert_eq!(display_id(AbilityNaming::Republic, &m, 100), 100);
    // unknown ids keep the logged name
    assert_eq!(display_id(AbilityNaming::Republic, &m, 7), 7);
    assert_eq!(display_name(AbilityNaming::Republic, &m, 7, "Stim"), "Stim");
    // displaying a displayed id again changes nothing
    let shown = display_id(AbilityNaming::Imperial, &m, 100);
    assert_eq!(display_id(AbilityNaming::Imperial, &m, shown), shown);
}

#[test]
fn modifier_trigger_labels_round_trip() {
    for t in ModifierTriggerType::all() {
        assert_eq!(ModifierTriggerType::from_label(t.label()), Some(*t));
    }
    assert_eq!(ModifierTriggerType::from_label("Any Of (OR)"), Some(ModifierTriggerType::AnyOf));
    assert_eq!(ModifierTriggerType::from_label("Damage Dealt"), Some(ModifierTriggerType::DamageDealt));
    assert_eq!(ModifierTriggerType::from_label("damage dealt"), None);
    assert_eq!(ModifierTriggerType::all().len(), 12);
    assert_eq!(ModifierTriggerType::leaf().len(), 11);
    assert!(!ModifierTriggerType::leaf().contains(&ModifierTriggerType::AnyOf));
    assert_eq!(ModifierTriggerType::default(), ModifierTriggerType::AbilityCast);
}

#[test]
fn hotkey_code_names() {
    assert_eq!(code_to_string("KeyA").as_deref(), Some("A"));
    assert_eq!(code_to_string("Digit8").as_deref(), Some("8"));
    assert_eq!(code_to_string("Numpad8").as_deref(), Some("Numpad8"));
    assert_eq!(code_to_string("NumpadAdd"), None);
    assert_eq!(code_to_string("F5").as_deref(), Some("F5"));
    assert_eq!(code_to_string("F12").as_deref(), Some("F12"));
    assert_eq!(code_to_string("F13"), None);
    assert_eq!(code_to_string("ArrowUp").as_deref(), Some("Up"));
    assert_eq!(code_to_string("Backslash").as_deref(), Some("\\"));
    assert_eq!(code_to_string("Quote").as_deref(), Some("'"));
    assert_eq!(code_to_string("Backquote").as_deref(), Some("`"));
    assert_eq!(code_to_string("Space"), None);
    assert_eq!(code_to_string("ShiftLeft"), None);
}

#[test]
fn hotkey_modifier_prefix_order() {
    assert_eq!(build_modifier_prefix(true, true, true), vec!["Ctrl", "Shift", "Alt"]);
    assert_eq!(build_modifier_prefix(false, true, false), vec!["Shift"]);
    assert!(build_modifier_prefix(false, false, false).is_empty());
}

#[test]
fn hotkey_capture_flow() {
    let mut c = HotkeyCapture::new();
    assert_eq!(c.display_value("", "Click to set hotkey"), "Click to set hotkey");
    assert_eq!(c.input_class(""), "hotkey-input hotkey-input--empty");
    // a key outside capture mode bubbles
    let out = c.on_keydown(HotkeyKey::Other, false, false, false, "KeyA");
    assert_eq!(out, KeydownOutcome { change: None, prevent_default: false });
    assert!(!c.is_capturing);
    // Enter starts capturing
    let out = c.on_keydown(HotkeyKey::Enter, false, false, false, "Enter");
    assert_eq!(out, KeydownOutcome { change: None, prevent_default: true });
    assert!(c.is_capturing);
    assert_eq!(c.display_value("Ctrl+O", "x"), "Press a key...");
    assert_eq!(c.input_class("Ctrl+O"), "hotkey-input hotkey-input--capturing");
    // modifiers alone show a pending prefix
    let out = c.on_keydown(HotkeyKey::Shift, true, true, false, "ShiftLeft");
    assert_eq!(out.change, None);
    assert!(out.prevent_default);
    assert_eq!(c.pending_display, "Ctrl+Shift+...");
    assert_eq!(c.display_value("", "x"), "Ctrl+Shift+...");
    // a key without a token keeps waiting
    let out = c.on_keydown(HotkeyKey::Other, true, true, false, "Space");
    assert_eq!(out, KeydownOutcome { change: None, prevent_default: true });
    assert!(c.is_capturing);
    // Shift+8 reports the physical key
    let out = c.on_keydown(HotkeyKey::Other, true, true, false, "Digit8");
    assert_eq!(out, KeydownOutcome { change: Some("Ctrl+Shift+8".to_string()), prevent_default: true });
    assert!(!c.is_capturing);
    assert_eq!(c.pending_display, "");
    assert_eq!(c.display_value("Ctrl+Shift+8", "x"), "Ctrl+Shift+8");
    assert_eq!(c.input_class("Ctrl+Shift+8"), "hotkey-input");
    assert!(c.shows_clear_button("Ctrl+Shift+8"));
}

#[test]
fn hotkey_capture_cancel_and_clear() {
    let mut c = HotkeyCapture::new();
    c.on_click();
    assert!(c.is_capturing);
    assert!(!c.shows_clear_button("F5"));
    let out = c.on_keydown(HotkeyKey::Escape, false, false, false, "Escape");
    assert_eq!(out, KeydownOutcome { change: None, prevent_default: false });
    assert!(!c.is_capturing);
    c.on_click();
    // Backspace with a modifier is not a clear: it has no token, so capturing goes on
    let out = c.on_keydown(HotkeyKey::Backspace, true, false, false, "Backspace");
    assert_eq!(out, KeydownOutcome { change: None, prevent_default: true });
    let out = c.on_keydown(HotkeyKey::Delete, false, false, false, "Delete");
    assert_eq!(out, KeydownOutcome { change: Some(String::new()), prevent_default: false });
    assert!(!c.is_capturing);
    c.on_click();
    // a bare modifier key with nothing held leaves the pending text alone
    let out = c.on_keydown(HotkeyKey::Meta, false, false, false, "MetaLeft");
    assert_eq!(out, KeydownOutcome { change: None, prevent_default: true });
    assert_eq!(c.pending_display, "");
    c.on_blur();
    assert!(!c.is_capturing);
}
