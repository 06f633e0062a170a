//! The encounter overview's query of the NPCs' final health.

use vstd::prelude::*;

use crate::query::breakdown::{decimal, push_decimal};
use crate::query::effects::opt_str_view;
use crate::text::{chars_of, extend_chars, extend_str, string_of};

verus! {

/// A time condition as the overview appends it: `AND` and the condition,
/// nothing without one.
pub open spec fn time_cond(c: Option<Seq<char>>) -> Seq<char> {
    match c {
        Some(t) => "AND "@ + t,
        None => Seq::empty(),
    }
}

fn time_cond_chars(c: Option<&str>) -> (r: Vec<char>)
    ensures
        r@ == time_cond(opt_str_view(c)),
{
    match c {
        Some(t) => {
            let mut v = chars_of("AND ");
            extend_str(&mut v, t);
            v
        },
        None => Vec::new(),
    }
}

/// The text of the NPC health query: per NPC instance, its name, first
/// seen and death times, last health and first maximum health (ignoring
/// target changes), largest first. `time_filter` limits the first health
/// and first sight, `death_time_filter` the last health and the deaths;
/// `target_set_id` and `death_id` are the effect IDs of target changes and
/// deaths.
pub open spec fn spec_npc_health_sql(
    time_filter: Option<Seq<char>>,
    death_time_filter: Option<Seq<char>>,
    target_set_id: i64,
    death_id: i64,
) -> Seq<char> {
    "\n            WITH first_hp AS (\n                SELECT target_id, target_name, target_max_hp,\n                       ROW_NUMBER() OVER (PARTITION BY target_id ORDER BY line_number ASC) as rn\n                FROM events\n                WHERE target_entity_type = 'Npc' AND target_max_hp > 0\n                  AND effect_id != "@
        + decimal(target_set_id as int)
        + " "@
        + time_cond(time_filter)
        + "\n            ),\n            last_hp AS (\n                SELECT target_id, target_hp,\n                       ROW_NUMBER() OVER (PARTITION BY target_id ORDER BY line_number DESC) as rn\n                FROM events\n                WHERE target_entity_type = 'Npc' AND target_max_hp > 0\n                  AND effect_id != "@
        + decimal(target_set_id as int)
        + " "@
        + time_cond(death_time_filter)
        + "\n            ),\n            first_seen AS (\n                SELECT target_id, MIN(combat_time_secs) as first_seen_secs\n                FROM events\n                WHERE target_entity_type = 'Npc'\n                  AND effect_id != "@
        + decimal(target_set_id as int)
        + " "@
        + time_cond(time_filter)
        + "\n                GROUP BY target_id\n            ),\n            deaths AS (\n                SELECT target_id, MIN(combat_time_secs) as death_time_secs\n                FROM events\n                WHERE target_entity_type = 'Npc' AND effect_id = "@
        + decimal(death_id as int)
        + " "@
        + time_cond(death_time_filter)
        + "\n                GROUP BY target_id\n            )\n            SELECT fh.target_name,\n                   CAST(COALESCE(fs.first_seen_secs, 0) AS FLOAT) as first_seen_secs,\n                   CAST(d.death_time_secs AS FLOAT) as death_time_secs,\n                   CAST(lh.target_hp AS BIGINT) as final_hp,\n                   CAST(fh.target_max_hp AS BIGINT) as max_hp\n            FROM first_hp fh\n            JOIN last_hp lh ON fh.target_id = lh.target_id AND lh.rn = 1\n            LEFT JOIN first_seen fs ON fh.target_id = fs.target_id\n            LEFT JOIN deaths d ON fh.target_id = d.target_id\n            WHERE fh.rn = 1\n            ORDER BY fh.target_max_hp DESC, fh.target_name ASC\n            "@
}

/// The text of the NPC health query (see `spec_npc_health_sql`). The time
/// conditions come as their SQL text.
pub fn npc_health_sql(
    time_filter: Option<&str>,
    death_time_filter: Option<&str>,
    target_set_id: i64,
    death_id: i64,
) -> (r: String)
    ensures
        r@ == spec_npc_health_sql(opt_str_view(time_filter), opt_str_view(death_time_filter), target_set_id, death_id),
{
    let tf = time_cond_chars(time_filter);
    let dtf = time_cond_chars(death_time_filter);
    let mut out: Vec<char> = Vec::new();
    extend_str(&mut out, "\n            WITH first_hp AS (\n                SELECT target_id, target_name, target_max_hp,\n                       ROW_NUMBER() OVER (PARTITION BY target_id ORDER BY line_number ASC) as rn\n                FROM events\n                WHERE target_entity_type = 'Npc' AND target_max_hp > 0\n                  AND effect_id != ");
    push_decimal(&mut out, target_set_id);
    extend_str(&mut out, " ");
    extend_chars(&mut out, &tf);
    extend_str(&mut out, "\n            ),\n            last_hp AS (\n                SELECT target_id, target_hp,\n                       ROW_NUMBER() OVER (PARTITION BY target_id ORDER BY line_number DESC) as rn\n                FROM events\n                WHERE target_entity_type = 'Npc' AND target_max_hp > 0\n                  AND effect_id != ");
    push_decimal(&mut out, target_set_id);
    extend_str(&mut out, " ");
    extend_chars(&mut out, &dtf);
    extend_str(&mut out, "\n            ),\n            first_seen AS (\n                SELECT target_id, MIN(combat_time_secs) as first_seen_secs\n                FROM events\n                WHERE target_entity_type = 'Npc'\n                  AND effect_id != ");
    push_decimal(&mut out, target_set_id);
    extend_str(&mut out, " ");
    extend_chars(&mut out, &tf);
    extend_str(&mut out, "\n                GROUP BY target_id\n            ),\n            deaths AS (\n                SELECT target_id, MIN(combat_time_secs) as death_time_secs\n                FROM events\n                WHERE target_entity_type = 'Npc' AND effect_id = ");
    push_decimal(&mut out, death_id);
    extend_str(&mut out, " ");
    extend_chars(&mut out, &dtf);
    extend_str(&mut out, "\n                GROUP BY target_id\n            )\n            SELECT fh.target_name,\n                   CAST(COALESCE(fs.first_seen_secs, 0) AS FLOAT) as first_seen_secs,\n                   CAST(d.death_time_secs AS FLOAT) as death_time_secs,\n                   CAST(lh.target_hp AS BIGINT) as final_hp,\n                   CAST(fh.target_max_hp AS BIGINT) as max_hp\n            FROM first_hp fh\n            JOIN last_hp lh ON fh.target_id = lh.target_id AND lh.rn = 1\n            LEFT JOIN first_seen fs ON fh.target_id = fs.target_id\n            LEFT JOIN deaths d ON fh.target_id = d.target_id\n            WHERE fh.rn = 1\n            ORDER BY fh.target_max_hp DESC, fh.target_name ASC\n            ");
    string_of(out.as_slice())
}

} // verus!
