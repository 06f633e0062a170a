use baras_core::query::death_recap::{downsample, find_or_push, MAX_HP_POINTS};
use baras_core::query::effects::source_filter_clause;
use baras_core::query::sql_escape;

#[test]
fn sql_escape_doubles_single_quotes() {
    assert_eq!(sql_escape("O'Brien"), "O''Brien");
    assert_eq!(sql_escape("''"), "''''");
    assert_eq!(sql_escape("Plain Name"), "Plain Name");
    assert_eq!(sql_escape(""), "");
}

#[test]
fn source_filter_self() {
    assert_eq!(
        source_filter_clause(Some("self"), Some("Kira")),
        "AND source_name = 'Kira'"
    );
    assert_eq!(
        source_filter_clause(Some("self"), Some("D'ar")),
        "AND source_name = 'D''ar'"
    );
    assert_eq!(source_filter_clause(Some("self"), None), "");
}

#[test]
fn source_filter_other_players() {
    assert_eq!(
        source_filter_clause(Some("other_players"), Some("Kira")),
        "AND source_entity_type IN ('Player', 'Companion') AND source_name != 'Kira'"
    );
    assert_eq!(
        source_filter_clause(Some("other_players"), None),
        "AND source_entity_type IN ('Player', 'Companion')"
    );
}

#[test]
fn source_filter_npcs_and_all() {
    assert_eq!(source_filter_clause(Some("npcs"), Some("Kira")), "AND source_entity_type = 'Npc'");
    assert_eq!(source_filter_clause(Some("npcs"), None), "AND source_entity_type = 'Npc'");
    assert_eq!(source_filter_clause(Some("all"), Some("Kira")), "");
    assert_eq!(source_filter_clause(None, Some("Kira")), "");
    // matching is exact: other spellings filter nothing
    assert_eq!(source_filter_clause(Some("Self"), Some("Kira")), "");
}

#[test]
fn find_or_push_returns_first_match() {
    let mut items: Vec<(String, u32)> = vec![
        ("Slash".to_string(), 1),
        ("Strike".to_string(), 2),
        ("Slash".to_string(), 3),
    ];
    {
        let row = find_or_push(&mut items, |a| a.0 == "Slash", || ("new".to_string(), 0));
        row.1 += 10;
    }
    assert_eq!(items.len(), 3);
    assert_eq!(items[0].1, 11);
    assert_eq!(items[2].1, 3);
}

#[test]
fn find_or_push_appends_when_absent() {
    let mut items: Vec<(String, u32)> = vec![("Slash".to_string(), 1)];
    {
        let row = find_or_push(&mut items, |a| a.0 == "Heal", || ("Heal".to_string(), 0));
        row.1 += 5;
    }
    assert_eq!(items.len(), 2);
    assert_eq!(items[1], ("Heal".to_string(), 5));
    assert_eq!(items[0], ("Slash".to_string(), 1));
}

#[test]
fn downsample_keeps_short_timelines() {
    let mut pts: Vec<u32> = (0..200).collect();
    downsample(&mut pts);
    assert_eq!(pts, (0..200).collect::<Vec<u32>>());
    let mut empty: Vec<u32> = Vec::new();
    downsample(&mut empty);
    assert!(empty.is_empty());
}

#[test]
fn downsample_strides_and_keeps_last() {
    // 201 points: the 200 before the last are strided by 2, then the last is added
    let mut pts: Vec<u32> = (0..201).collect();
    downsample(&mut pts);
    assert_eq!(pts.len(), 101);
    assert_eq!(pts[0], 0);
    assert_eq!(pts[1], 2);
    assert_eq!(pts[99], 198);
    assert_eq!(*pts.last().unwrap(), 200);

    // 202 points: stride 2 over 0..=200, then the last point 201
    let mut pts: Vec<u32> = (0..202).collect();
    downsample(&mut pts);
    assert_eq!(pts.len(), 102);
    assert_eq!(pts[100], 200);
    assert_eq!(pts[101], 201);

    // 400 points: stride 3 keeps 0, 3, ..., 396, then 399
    let mut pts: Vec<u32> = (0..400).collect();
    downsample(&mut pts);
    assert_eq!(pts.len(), 134);
    assert_eq!(pts[132], 396);
    assert_eq!(pts[133], 399);

    // 1000 points: stride 6 keeps 0, 6, ..., 996, then 999
    let mut pts: Vec<u32> = (0..1000).collect();
    downsample(&mut pts);
    assert_eq!(pts.len(), 168);
    assert_eq!(pts[166], 996);
    assert_eq!(pts[167], 999);
}

#[test]
fn downsample_never_exceeds_the_cap() {
    for n in 0u32..2500 {
        let mut pts: Vec<u32> = (0..n).collect();
        downsample(&mut pts);
        assert!(pts.len() <= MAX_HP_POINTS);
        if n > 0 {
            assert_eq!(pts[0], 0);
            assert_eq!(*pts.last().unwrap(), n - 1);
            assert!(pts.windows(2).all(|w| w[0] < w[1]));
        }
    }
}

use baras_core::query::breakdown::{
    breakdown_sql, merge_activation_counts, resolves_activation_targets, BreakdownKey, BreakdownMode, DataTab,
    DefenseIds,
};

/// The query text as the breakdown writes it, from its parts.
#[allow(clippy::too_many_arguments)]
fn expected_query(
    wrapped: bool,
    act_cte: &str,
    act_select: &str,
    act_join: &str,
    select_str: &str,
    value_col: &str,
    hit_count_expr: &str,
    miss_select: &str,
    first_hit_col: &str,
    dt_select: &str,
    filter: &str,
    group_str: &str,
) -> String {
    let extra_agg = format!(
        ", SUM(CASE WHEN is_crit THEN CAST({value_col} AS DOUBLE) ELSE 0 END) as crit_total\
         , SUM(CAST(heal_effective AS DOUBLE)) as effective_total"
    );
    if wrapped {
        format!(
            r#"{act_cte}SELECT b.*{act_select} FROM (
                SELECT {select_str},
                       SUM({value_col}) as total_value,
                       {hit_count_expr},
                       SUM(CASE WHEN is_crit THEN 1 ELSE 0 END) as crit_count,
                       MAX({value_col}) as max_hit,
                       SUM({value_col}) * 100.0 / SUM(SUM({value_col})) OVER () as percent_of_total
                       {miss_select}
                       {extra_agg}
                       {first_hit_col}
                       {dt_select}
                FROM events {filter}
                GROUP BY {group_str}
                ORDER BY total_value DESC
            ) b{act_join}"#
        )
    } else {
        format!(
            r#"SELECT {select_str},
                       SUM({value_col}) as total_value,
                       {hit_count_expr},
                       SUM(CASE WHEN is_crit THEN 1 ELSE 0 END) as crit_count,
                       MAX({value_col}) as max_hit,
                       SUM({value_col}) * 100.0 / SUM(SUM({value_col})) OVER () as percent_of_total
                       {miss_select}
                       {extra_agg}
                       {first_hit_col}
                       {dt_select}
                FROM events {filter}
                GROUP BY {group_str}
                ORDER BY total_value DESC"#
        )
    }
}

fn defense() -> DefenseIds {
    DefenseIds { misses: vec![1, 2], shield: 5 }
}

#[test]
fn breakdown_healing_by_ability_counts_activations_in_query() {
    let sql = breakdown_sql(DataTab::Healing, None, None, None, BreakdownMode::ability_only(), &defense());
    let expected = expected_query(
        true,
        "WITH activations AS (SELECT ability_id, COUNT(*) as activation_count FROM events WHERE effect_id = 836045448945479 GROUP BY ability_id) ",
        ", COALESCE(act.activation_count, 0) as activation_count",
        " LEFT JOIN activations act ON b.ability_id = act.ability_id",
        "ability_name, ability_id",
        "heal_amount",
        "COUNT(*) as hit_count",
        ", 0 as miss_count",
        "",
        "",
        "WHERE heal_amount > 0",
        "ability_name, ability_id",
    );
    assert_eq!(sql, expected);
}

#[test]
fn breakdown_damage_by_target_type_for_one_player() {
    let types = vec!["Player".to_string(), "Companion".to_string()];
    let mode = BreakdownMode { by_ability: true, by_target_type: true, by_target_instance: false };
    let sql = breakdown_sql(
        DataTab::Damage,
        Some("O'Neil"),
        Some("combat_time_secs >= 1"),
        Some(&types),
        mode,
        &defense(),
    );
    let expected = expected_query(
        true,
        "",
        ", 0 as activation_count",
        "",
        "ability_name, ability_id, target_name, target_class_id",
        "dmg_amount",
        "SUM(CASE WHEN dmg_amount > 0 THEN 1 ELSE 0 END) as hit_count",
        ", SUM(CASE WHEN defense_type_id IN (1,2) THEN 1 ELSE 0 END) as miss_count",
        "",
        ", MAX(dmg_type) as damage_type, SUM(CASE WHEN defense_type_id = 5 THEN 1 ELSE 0 END) as shield_count, SUM(CAST(dmg_absorbed AS DOUBLE)) as absorbed_total",
        "WHERE (dmg_amount > 0 OR defense_type_id IN (1,2)) AND source_id != target_id AND source_name = 'O''Neil' AND combat_time_secs >= 1 AND source_entity_type IN ('Player', 'Companion')",
        "ability_name, ability_id, target_name, target_class_id",
    );
    assert_eq!(sql, expected);
    assert!(resolves_activation_targets(DataTab::Damage, true, mode));
}

#[test]
fn breakdown_damage_taken_with_nothing_selected_groups_by_ability() {
    let mode = BreakdownMode { by_ability: false, by_target_type: false, by_target_instance: false };
    let sql = breakdown_sql(DataTab::DamageTaken, Some("Kira"), None, None, mode, &defense());
    let expected = expected_query(
        false,
        "",
        "",
        "",
        "ability_name, ability_id",
        "dmg_amount",
        "SUM(CASE WHEN dmg_amount > 0 THEN 1 ELSE 0 END) as hit_count",
        ", SUM(CASE WHEN defense_type_id IN (1,2) THEN 1 ELSE 0 END) as miss_count",
        "",
        ", MAX(dmg_type) as damage_type, SUM(CASE WHEN defense_type_id = 5 THEN 1 ELSE 0 END) as shield_count, SUM(CAST(dmg_absorbed AS DOUBLE)) as absorbed_total",
        "WHERE (dmg_amount > 0 OR defense_type_id IN (1,2)) AND target_name = 'Kira'",
        "ability_name, ability_id",
    );
    assert_eq!(sql, expected);
}

#[test]
fn breakdown_by_instance_selects_first_hit_and_source_columns() {
    let mode = BreakdownMode { by_ability: false, by_target_type: false, by_target_instance: true };
    let sql = breakdown_sql(DataTab::HealingTaken, None, None, None, mode, &defense());
    let expected = expected_query(
        false,
        "",
        "",
        "",
        "'' as ability_name, 0 as ability_id, source_name, source_id",
        "heal_amount",
        "COUNT(*) as hit_count",
        ", 0 as miss_count",
        ", MIN(combat_time_secs) as first_hit_secs",
        "",
        "WHERE heal_amount > 0",
        "source_name, source_id",
    );
    assert_eq!(sql, expected);
}

#[test]
fn activation_targets_resolved_only_for_one_outgoing_entity_by_target() {
    let by_target = BreakdownMode { by_ability: true, by_target_type: false, by_target_instance: true };
    assert!(resolves_activation_targets(DataTab::Healing, true, by_target));
    assert!(!resolves_activation_targets(DataTab::Healing, false, by_target));
    assert!(!resolves_activation_targets(DataTab::HealingTaken, true, by_target));
    assert!(!resolves_activation_targets(DataTab::Damage, true, BreakdownMode::ability_only()));
}

fn rows() -> Vec<BreakdownKey> {
    vec![
        BreakdownKey { ability_id: 10, target_name: Some("Boss".to_string()), target_log_id: Some(1), activation_count: 99 },
        BreakdownKey { ability_id: 10, target_name: Some("Boss".to_string()), target_log_id: Some(2), activation_count: 99 },
        BreakdownKey { ability_id: 20, target_name: None, target_log_id: None, activation_count: 99 },
        BreakdownKey { ability_id: 30, target_name: Some("Add".to_string()), target_log_id: Some(3), activation_count: 99 },
    ]
}

fn counts() -> Vec<((i64, String, i64), i64)> {
    vec![
        ((10, "Boss".to_string(), 1), 3),
        ((10, "Boss".to_string(), 2), 4),
        ((20, String::new(), 0), 5),
    ]
}

#[test]
fn merge_activations_by_instance() {
    let mut r = rows();
    merge_activation_counts(&mut r, &counts(), true);
    let got: Vec<i64> = r.iter().map(|x| x.activation_count).collect();
    assert_eq!(got, vec![3, 4, 5, 0]);
    assert_eq!(r[0].target_log_id, Some(1));
}

#[test]
fn merge_activations_by_type_sums_instances() {
    let mut r = rows();
    merge_activation_counts(&mut r, &counts(), false);
    let got: Vec<i64> = r.iter().map(|x| x.activation_count).collect();
    assert_eq!(got, vec![7, 7, 5, 0]);
}

use baras_core::query::overview::npc_health_sql;

fn expected_npc_health(time_filter: &str, death_time_filter: &str, targetset: i64, death_id: i64) -> String {
    format!(
        r#"
            WITH first_hp AS (
                SELECT target_id, target_name, target_max_hp,
                       ROW_NUMBER() OVER (PARTITION BY target_id ORDER BY line_number ASC) as rn
                FROM events
                WHERE target_entity_type = 'Npc' AND target_max_hp > 0
                  AND effect_id != {targetset} {time_filter}
            ),
            last_hp AS (
                SELECT target_id, target_hp,
                       ROW_NUMBER() OVER (PARTITION BY target_id ORDER BY line_number DESC) as rn
                FROM events
                WHERE target_entity_type = 'Npc' AND target_max_hp > 0
                  AND effect_id != {targetset} {death_time_filter}
            ),
            first_seen AS (
                SELECT target_id, MIN(combat_time_secs) as first_seen_secs
                FROM events
                WHERE target_entity_type = 'Npc'
                  AND effect_id != {targetset} {time_filter}
                GROUP BY target_id
            ),
            deaths AS (
                SELECT target_id, MIN(combat_time_secs) as death_time_secs
                FROM events
                WHERE target_entity_type = 'Npc' AND effect_id = {death_id} {death_time_filter}
                GROUP BY target_id
            )
            SELECT fh.target_name,
                   CAST(COALESCE(fs.first_seen_secs, 0) AS FLOAT) as first_seen_secs,
                   CAST(d.death_time_secs AS FLOAT) as death_time_secs,
                   CAST(lh.target_hp AS BIGINT) as final_hp,
                   CAST(fh.target_max_hp AS BIGINT) as max_hp
            FROM first_hp fh
            JOIN last_hp lh ON fh.target_id = lh.target_id AND lh.rn = 1
            LEFT JOIN first_seen fs ON fh.target_id = fs.target_id
            LEFT JOIN deaths d ON fh.target_id = d.target_id
            WHERE fh.rn = 1
            ORDER BY fh.target_max_hp DESC, fh.target_name ASC
            "#
    )
}

#[test]
fn npc_health_query_without_time_range() {
    assert_eq!(npc_health_sql(None, None, 11, 22), expected_npc_health("", "", 11, 22));
}

#[test]
fn npc_health_query_with_time_range() {
    let sql = npc_health_sql(Some("t >= 1"), Some("t >= 3"), 836045448953668, 836045448945493);
    assert_eq!(sql, expected_npc_health("AND t >= 1", "AND t >= 3", 836045448953668, 836045448945493));
}

use baras_core::query::breakdown::{appends_shield_rows, shield_breakdown_sql};

fn expected_shields(
    apply_effect: i64,
    remove_effect: i64,
    select_src: &str,
    inner_target_filter: &str,
    time_filter: &str,
    shield_source_filter: &str,
    group_src: &str,
) -> String {
    format!(
        r#"
            WITH shield_map AS (
                SELECT effect_id as shield_eid,
                       MIN(ability_id) as ability_id,
                       MIN(ability_name) as ability_name
                FROM events
                WHERE effect_type_id IN ({apply_effect}, {remove_effect})
                GROUP BY effect_id
            ),
            shield_totals AS (
                SELECT
                    CAST(shield['effect_id'] AS BIGINT) as shield_eid
                    {select_src},
                    SUM(CAST(dmg_absorbed AS BIGINT)) as total_absorbed,
                    COUNT(*) as hit_count
                FROM (
                    SELECT dmg_absorbed, UNNEST(active_shields) as shield
                    FROM events
                    WHERE dmg_absorbed > 0 AND cardinality(active_shields) > 0
                      {inner_target_filter}
                      {time_filter}
                )
                WHERE CAST(shield['position'] AS BIGINT) = 1
                  {shield_source_filter}
                GROUP BY shield['effect_id']{group_src}
            )
            SELECT COALESCE(sm.ability_id, st.shield_eid) as ability_id,
                   COALESCE(sm.ability_name, 'Unknown Shield') as ability_name,
                   COALESCE(st.total_absorbed, 0) as total_absorbed,
                   COALESCE(st.hit_count, 0) as hit_count,
                   st.src_id
            FROM shield_totals st
            LEFT JOIN shield_map sm ON st.shield_eid = sm.shield_eid
            WHERE st.total_absorbed > 0
            ORDER BY total_absorbed DESC
            "#,
    )
}

#[test]
fn shield_query_outgoing_credits_shields_the_entity_cast() {
    let sql = shield_breakdown_sql("O'Neil", Some("t >= 1"), false, BreakdownMode::ability_only(), 7, 8);
    let expected = expected_shields(
        7,
        8,
        ", CAST(NULL AS BIGINT) as src_id",
        "",
        "AND t >= 1",
        "AND CAST(shield['source_id'] AS BIGINT) IN (SELECT DISTINCT source_id FROM events WHERE source_name = 'O''Neil' AND t >= 1)",
        "",
    );
    assert_eq!(sql, expected);
}

#[test]
fn shield_query_incoming_by_source() {
    let mode = BreakdownMode { by_ability: true, by_target_type: true, by_target_instance: false };
    let sql = shield_breakdown_sql("Kira", None, true, mode, 7, 8);
    let expected = expected_shields(
        7,
        8,
        ", CAST(shield['source_id'] AS BIGINT) as src_id",
        "AND target_name = 'Kira'",
        "",
        "",
        ", shield['source_id']",
    );
    assert_eq!(sql, expected);
    assert!(appends_shield_rows(DataTab::Healing, true));
    assert!(appends_shield_rows(DataTab::HealingTaken, true));
    assert!(!appends_shield_rows(DataTab::Healing, false));
    assert!(!appends_shield_rows(DataTab::Damage, true));
}
