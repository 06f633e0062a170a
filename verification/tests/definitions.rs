use baras_core::effects::tracker::{DefinitionKeys, DefinitionSet, Selector, TriggerSelectors};

fn keys(id: &str, trigger: TriggerSelectors) -> DefinitionKeys {
    DefinitionKeys {
        id: id.to_string(),
        enabled: true,
        trigger,
        refresh_abilities: Vec::new(),
        is_aoe_refresh: false,
    }
}

fn effects(sels: Vec<Selector>) -> TriggerSelectors {
    TriggerSelectors::Effects(sels)
}

fn name(n: &str) -> Selector {
    Selector::Name(n.to_string())
}

#[test]
fn add_get_and_duplicates() {
    let mut set: DefinitionSet<&str> = DefinitionSet::new();
    let dups = set.add_definitions(
        vec![
            (keys("kolto_probe", effects(vec![Selector::Id(1)])), "first"),
            (keys("shield", effects(vec![Selector::Id(2)])), "shield"),
            (keys("kolto_probe", effects(vec![Selector::Id(3)])), "second"),
        ],
        false,
    );
    assert_eq!(dups, vec!["kolto_probe".to_string()]);
    // the first definition is kept
    assert_eq!(set.get("kolto_probe"), Some(&"first"));
    assert_eq!(set.get("missing"), None);
    assert_eq!(set.find_matching(3, None), Vec::<&&str>::new());

    // overwrite replaces it and moves it after the others
    let dups = set.add_definitions(vec![(keys("kolto_probe", effects(vec![Selector::Id(2)])), "second")], true);
    assert_eq!(dups, vec!["kolto_probe".to_string()]);
    assert_eq!(set.get("kolto_probe"), Some(&"second"));
    assert_eq!(set.find_matching(2, None), vec![&"shield", &"second"]);
    assert_eq!(set.find_matching(1, None), Vec::<&&str>::new());
    assert_eq!(set.enabled(), vec![&"shield", &"second"]);
}

#[test]
fn find_matching_by_id_then_name() {
    let mut set: DefinitionSet<&str> = DefinitionSet::new();
    let mut disabled = keys("off", effects(vec![Selector::Id(7)]));
    disabled.enabled = false;
    set.add_definitions(
        vec![
            (keys("by_id", effects(vec![Selector::Id(7), Selector::Id(7)])), "by_id"),
            (keys("by_name", effects(vec![name("Kolto Probe"), name("KOLTO PROBE")])), "by_name"),
            (keys("both", effects(vec![Selector::Id(7), name("kolto probe")])), "both"),
            (disabled, "off"),
            (keys("cast", TriggerSelectors::Abilities(vec![Selector::Id(7)])), "cast"),
        ],
        false,
    );
    // ID matches come once per selector; name matches once, and not again
    // for definitions found by ID; disabled ones never
    assert_eq!(
        set.find_matching(7, Some("kolto PROBE")),
        vec![&"by_id", &"by_id", &"both", &"by_name"]
    );
    assert_eq!(set.find_matching(7, None), vec![&"by_id", &"by_id", &"both"]);
    assert_eq!(set.find_matching(99, Some("Kolto Probe")), vec![&"by_name", &"both"]);
    assert_eq!(set.find_ability_cast_matching(7, Some("kolto probe")), vec![&"cast"]);
    assert_eq!(set.enabled(), vec![&"by_id", &"by_name", &"both", &"cast"]);
}

#[test]
fn refresh_lookup_and_aoe_ids() {
    let mut set: DefinitionSet<&str> = DefinitionSet::new();
    let mut dot = keys("dot", TriggerSelectors::Other);
    dot.refresh_abilities = vec![Selector::Id(50), name("Affliction")];
    dot.is_aoe_refresh = true;
    let mut hot = keys("hot", TriggerSelectors::Other);
    hot.refresh_abilities = vec![name("Affliction"), name("affliction")];
    set.add_definitions(vec![(dot, "dot"), (hot, "hot")], false);

    assert!(set.has_refreshable_by(50));
    assert!(!set.has_refreshable_by(51));
    assert!(set.is_aoe_refresh(50));
    assert!(!set.is_aoe_refresh(51));
    // by name, each matching selector counts, except for definitions found by ID
    assert_eq!(set.find_refreshable_by(50, Some("AFFLICTION")), vec![&"dot", &"hot", &"hot"]);
    assert_eq!(set.find_refreshable_by(0, Some("affliction")), vec![&"dot", &"hot", &"hot"]);

    // replacing the AoE definition leaves only the IDs that the held
    // definitions mark
    let mut dot2 = keys("dot", TriggerSelectors::Other);
    dot2.refresh_abilities = vec![Selector::Id(60)];
    dot2.is_aoe_refresh = true;
    set.add_definitions(vec![(dot2, "dot2")], true);
    assert!(set.is_aoe_refresh(60));
    assert!(!set.is_aoe_refresh(50));
    assert!(!set.has_refreshable_by(50));
    // replacing it with one that is not marked for AoE refresh empties the set
    let mut dot3 = keys("dot", TriggerSelectors::Other);
    dot3.refresh_abilities = vec![Selector::Id(60)];
    set.add_definitions(vec![(dot3, "dot3")], true);
    assert!(!set.is_aoe_refresh(60));
    assert!(set.has_refreshable_by(60));
    // skipping a duplicate leaves the set as it was
    let mut dot4 = keys("dot", TriggerSelectors::Other);
    dot4.refresh_abilities = vec![Selector::Id(70)];
    dot4.is_aoe_refresh = true;
    set.add_definitions(vec![(dot4, "dot4")], false);
    assert!(!set.is_aoe_refresh(70));
}

#[test]
fn uptime_icon_falls_back_to_first_id() {
    let t = TriggerSelectors::Effects(vec![name("Guard"), Selector::Id(42), Selector::Id(43)]);
    assert_eq!(t.uptime_icon_id(Some(7)), 7);
    assert_eq!(t.uptime_icon_id(None), 42);
    assert_eq!(TriggerSelectors::Abilities(vec![Selector::Id(9)]).uptime_icon_id(None), 9);
    assert_eq!(TriggerSelectors::Abilities(vec![name("Cover")]).uptime_icon_id(None), 0);
    assert_eq!(TriggerSelectors::Other.uptime_icon_id(None), 0);
}

#[test]
fn definition_keys_match_effects_abilities_and_refreshes() {
    let mut k = keys("probe", effects(vec![Selector::Id(5), name("Kolto Probe")]));
    k.refresh_abilities = vec![Selector::Id(9), name("Kolto Wave")];
    assert!(k.matches_effect(5, None));
    assert!(k.matches_effect(1, Some("KOLTO PROBE")));
    assert!(!k.matches_effect(1, Some("Kolto")));
    assert!(!k.matches_effect(1, None));
    assert!(!k.matches_ability(5, None));
    assert!(k.can_refresh_with(9, None));
    assert!(k.can_refresh_with(0, Some("kolto wave")));
    assert!(!k.can_refresh_with(0, None));
    let empty = keys("none", effects(vec![]));
    assert!(!empty.matches_effect(5, None));
    let any_ability = keys("cast", TriggerSelectors::Abilities(vec![]));
    assert!(any_ability.matches_ability(123, None));
    let one = keys("cast", TriggerSelectors::Abilities(vec![Selector::Id(7)]));
    assert!(one.matches_ability(7, None));
    assert!(!one.matches_ability(8, Some("x")));
}
