//! The ability breakdown of the data explorer: the SQL text of the query,
//! and the merge of per-target activation counts into its rows.

use vstd::prelude::*;

use crate::query::effects::opt_str_view;
use crate::query::{sql_escape, sql_escaped};
use crate::text::{chars_of, extend_chars, extend_str, join_from, join_with, string_of, words_view};

verus! {

/// Which side of the combat data a breakdown shows.
#[derive(Debug, Clone, Copy, PartialEq, Eq, Structural)]
pub enum DataTab {
    Damage,
    Healing,
    DamageTaken,
    HealingTaken,
}

impl DataTab {
    /// Whether the tab shows what the entity did (not what it took).
    pub open spec fn spec_is_outgoing(self) -> bool {
        self == DataTab::Damage || self == DataTab::Healing
    }

    /// Whether the tab shows healing.
    pub open spec fn spec_is_healing(self) -> bool {
        self == DataTab::Healing || self == DataTab::HealingTaken
    }

    /// Whether the tab shows damage.
    pub open spec fn spec_is_damage(self) -> bool {
        self == DataTab::Damage || self == DataTab::DamageTaken
    }

    /// The value column the tab sums.
    pub open spec fn spec_value_column(self) -> Seq<char> {
        if self.spec_is_damage() {
            "dmg_amount"@
        } else {
            "heal_amount"@
        }
    }

    pub fn is_outgoing(self) -> (r: bool)
        ensures
            r == self.spec_is_outgoing(),
    {
        self == DataTab::Damage || self == DataTab::Healing
    }

    pub fn is_healing(self) -> (r: bool)
        ensures
            r == self.spec_is_healing(),
    {
        self == DataTab::Healing || self == DataTab::HealingTaken
    }

    pub fn value_column(self) -> (r: &'static str)
        ensures
            r@ == self.spec_value_column(),
    {
        if self == DataTab::Damage || self == DataTab::DamageTaken {
            "dmg_amount"
        } else {
            "heal_amount"
        }
    }
}

/// What a breakdown groups by.
#[derive(Debug, Clone, Copy, PartialEq, Eq, Structural)]
pub struct BreakdownMode {
    pub by_ability: bool,
    pub by_target_type: bool,
    pub by_target_instance: bool,
}

impl BreakdownMode {
    /// Grouping by ability only.
    pub fn ability_only() -> (r: Self)
        ensures
            r == (BreakdownMode { by_ability: true, by_target_type: false, by_target_instance: false }),
    {
        BreakdownMode { by_ability: true, by_target_type: false, by_target_instance: false }
    }
}

/// The defense type IDs the breakdown counts: those of avoided hits, and
/// that of shielded hits.
#[derive(Debug, Clone)]
pub struct DefenseIds {
    pub misses: Vec<i64>,
    pub shield: i64,
}

/// The ID of the ability-activation event.
pub const ABILITY_ACTIVATE: i64 = 836045448945479;

/// The decimal digit `d`.
pub open spec fn digit_char(d: int) -> char {
    if d == 0 {
        '0'
    } else if d == 1 {
        '1'
    } else if d == 2 {
        '2'
    } else if d == 3 {
        '3'
    } else if d == 4 {
        '4'
    } else if d == 5 {
        '5'
    } else if d == 6 {
        '6'
    } else if d == 7 {
        '7'
    } else if d == 8 {
        '8'
    } else {
        '9'
    }
}

/// The decimal text of a natural number.
pub open spec fn decimal_nat(n: nat) -> Seq<char>
    decreases n,
{
    if n < 10 {
        seq![digit_char(n as int)]
    } else {
        decimal_nat(n / 10) + seq![digit_char((n % 10) as int)]
    }
}

/// The decimal text of an integer, as `i64::to_string` writes it.
pub open spec fn decimal(n: int) -> Seq<char> {
    if n < 0 {
        seq!['-'] + decimal_nat((-n) as nat)
    } else {
        decimal_nat(n as nat)
    }
}

fn digit_of(d: u64) -> (c: char)
    requires
        d < 10,
    ensures
        c == digit_char(d as int),
{
    if d == 0 {
        '0'
    } else if d == 1 {
        '1'
    } else if d == 2 {
        '2'
    } else if d == 3 {
        '3'
    } else if d == 4 {
        '4'
    } else if d == 5 {
        '5'
    } else if d == 6 {
        '6'
    } else if d == 7 {
        '7'
    } else if d == 8 {
        '8'
    } else {
        '9'
    }
}

fn push_decimal_nat(out: &mut Vec<char>, m: u64)
    ensures
        final(out)@ == old(out)@ + decimal_nat(m as nat),
    decreases m,
{
    if m >= 10 {
        push_decimal_nat(out, m / 10);
    }
    out.push(digit_of(m % 10));
    proof {
        if m >= 10 {
            assert(decimal_nat(m as nat) == decimal_nat((m / 10) as nat) + seq![digit_char((m % 10) as int)]);
        }
    }
    assert(out@ =~= old(out)@ + decimal_nat(m as nat));
}

/// Appends the decimal text of `n`.
pub fn push_decimal(out: &mut Vec<char>, n: i64)
    ensures
        final(out)@ == old(out)@ + decimal(n as int),
{
    if n < 0 {
        out.push('-');
        let m: u64 = (0i128 - n as i128) as u64;
        let ghost mid = out@;
        push_decimal_nat(out, m);
        assert(out@ =~= old(out)@ + decimal(n as int));
    } else {
        push_decimal_nat(out, n as u64);
    }
}

/// The IDs as a comma-separated list.
pub open spec fn id_list(ids: Seq<i64>) -> Seq<char> {
    join_with(ids.map_values(|x: i64| decimal(x as int)), ","@)
}

/// The names as a list of SQL string literals.
pub open spec fn quoted_list(names: Seq<Seq<char>>) -> Seq<char> {
    join_with(names.map_values(|n: Seq<char>| "'"@ + sql_escaped(n) + "'"@), ", "@)
}

/// The views of a list of strings.
pub open spec fn strs_view(v: Seq<String>) -> Seq<Seq<char>> {
    v.map_values(|s: String| s@)
}

/// The view of an optional list of strings.
pub open spec fn opt_strs_view(o: Option<&Vec<String>>) -> Option<Seq<Seq<char>>> {
    match o {
        Some(v) => Some(strs_view(v@)),
        None => None,
    }
}

/// The column naming the entity the breakdown is for, and that of its type.
pub open spec fn entity_col(tab: DataTab) -> Seq<char> {
    if tab.spec_is_outgoing() {
        "source_name"@
    } else {
        "target_name"@
    }
}

pub open spec fn entity_type_col(tab: DataTab) -> Seq<char> {
    if tab.spec_is_outgoing() {
        "source_entity_type"@
    } else {
        "target_entity_type"@
    }
}

/// The columns of the other side: its name, class and instance.
pub open spec fn other_cols(tab: DataTab) -> (Seq<char>, Seq<char>, Seq<char>) {
    if tab.spec_is_outgoing() {
        ("target_name"@, "target_class_id"@, "target_id"@)
    } else {
        ("source_name"@, "source_class_id"@, "source_id"@)
    }
}

/// The conditions on the entity, the time range and the entity types.
pub open spec fn scope_conds(
    tab: DataTab,
    entity_name: Option<Seq<char>>,
    time_filter: Option<Seq<char>>,
    entity_types: Option<Seq<Seq<char>>>,
) -> Seq<Seq<char>> {
    let a: Seq<Seq<char>> = match entity_name {
        Some(n) => seq![entity_col(tab) + " = '"@ + sql_escaped(n) + "'"@],
        None => Seq::empty(),
    };
    let b: Seq<Seq<char>> = match time_filter {
        Some(t) => seq![t],
        None => Seq::empty(),
    };
    let c: Seq<Seq<char>> = match entity_types {
        Some(ts) => seq![entity_type_col(tab) + " IN ("@ + quoted_list(ts) + ")"@],
        None => Seq::empty(),
    };
    a + b + c
}

/// The WHERE conditions of the main query: a non-zero value (or, for
/// damage, an avoided hit), no self-damage on the damage tab, then the scope.
pub open spec fn main_conds(
    tab: DataTab,
    entity_name: Option<Seq<char>>,
    time_filter: Option<Seq<char>>,
    entity_types: Option<Seq<Seq<char>>>,
    misses: Seq<i64>,
) -> Seq<Seq<char>> {
    let v = tab.spec_value_column();
    let first: Seq<Seq<char>> = if tab.spec_is_damage() {
        seq!["("@ + v + " > 0 OR defense_type_id IN ("@ + id_list(misses) + "))"@]
    } else {
        seq![v + " > 0"@]
    };
    let selfless: Seq<Seq<char>> = if tab == DataTab::Damage {
        seq!["source_id != target_id"@]
    } else {
        Seq::empty()
    };
    first + selfless + scope_conds(tab, entity_name, time_filter, entity_types)
}

/// The selected columns and the grouping columns for a mode; grouping by
/// ability when nothing is chosen.
pub open spec fn breakdown_cols(tab: DataTab, mode: BreakdownMode) -> (Seq<Seq<char>>, Seq<Seq<char>>) {
    let (name_col, class_col, id_col) = other_cols(tab);
    let ab: Seq<Seq<char>> = seq!["ability_name"@, "ability_id"@];
    let sel0: Seq<Seq<char>> = if mode.by_ability {
        ab
    } else {
        seq!["'' as ability_name"@, "0 as ability_id"@]
    };
    let grp0: Seq<Seq<char>> = if mode.by_ability {
        ab
    } else {
        Seq::empty()
    };
    let n: Seq<Seq<char>> = if mode.by_target_type || mode.by_target_instance {
        seq![name_col]
    } else {
        Seq::empty()
    };
    let c: Seq<Seq<char>> = if mode.by_target_type {
        seq![class_col]
    } else {
        Seq::empty()
    };
    let i: Seq<Seq<char>> = if mode.by_target_instance {
        seq![id_col]
    } else {
        Seq::empty()
    };
    let grp = grp0 + n + c + i;
    if grp.len() == 0 {
        (ab, ab)
    } else {
        (sel0 + n + c + i, grp)
    }
}

/// Whether activations are resolved per target afterwards (target grouping
/// of an outgoing tab for one entity) instead of counted in the query.
pub open spec fn spec_resolves_activation_targets(tab: DataTab, has_entity: bool, mode: BreakdownMode) -> bool {
    mode.by_ability && (mode.by_target_type || mode.by_target_instance) && tab.spec_is_outgoing() && has_entity
}

/// The grouped body of the query.
pub open spec fn body_sql(
    select_str: Seq<char>,
    v: Seq<char>,
    hit: Seq<char>,
    miss: Seq<char>,
    extra: Seq<char>,
    first_hit: Seq<char>,
    dt: Seq<char>,
    filter: Seq<char>,
    group_str: Seq<char>,
) -> Seq<char> {
    "SELECT "@ + select_str + ",\n                       SUM("@ + v + ") as total_value,\n                       "@ + hit
        + ",\n                       SUM(CASE WHEN is_crit THEN 1 ELSE 0 END) as crit_count,\n                       MAX("@
        + v + ") as max_hit,\n                       SUM("@ + v + ") * 100.0 / SUM(SUM("@ + v
        + ")) OVER () as percent_of_total\n                       "@ + miss + "\n                       "@ + extra
        + "\n                       "@ + first_hit + "\n                       "@ + dt
        + "\n                FROM events "@ + filter + "\n                GROUP BY "@ + group_str
        + "\n                ORDER BY total_value DESC"@
}

/// The text of the breakdown query: per group the total, hit and crit
/// counts, the largest hit, the share of the total, misses (damage),
/// crit and effective totals, the first hit time (by instance), damage
/// type, shield count and absorbed total (damage), and the activation count
/// (when grouping by ability, from a counting subquery unless activations
/// are resolved per target afterwards).
pub open spec fn spec_breakdown_sql(
    tab: DataTab,
    entity_name: Option<Seq<char>>,
    time_filter: Option<Seq<char>>,
    entity_types: Option<Seq<Seq<char>>>,
    mode: BreakdownMode,
    misses: Seq<i64>,
    shield: i64,
) -> Seq<char> {
    let v = tab.spec_value_column();
    let is_damage = tab.spec_is_damage();
    let filter = "WHERE "@ + join_with(main_conds(tab, entity_name, time_filter, entity_types, misses), " AND "@);
    let (sel, grp) = breakdown_cols(tab, mode);
    let first_hit: Seq<char> = if mode.by_target_instance {
        ", MIN(combat_time_secs) as first_hit_secs"@
    } else {
        Seq::empty()
    };
    let counted_here = mode.by_ability && !spec_resolves_activation_targets(tab, entity_name is Some, mode);
    let act_filter = join_with(
        seq!["effect_id = "@ + decimal(ABILITY_ACTIVATE as int)] + scope_conds(tab, entity_name, time_filter, entity_types),
        " AND "@,
    );
    let act_cte: Seq<char> = if counted_here {
        "WITH activations AS (SELECT ability_id, COUNT(*) as activation_count FROM events WHERE "@ + act_filter
            + " GROUP BY ability_id) "@
    } else {
        Seq::empty()
    };
    let act_join: Seq<char> = if counted_here {
        " LEFT JOIN activations act ON b.ability_id = act.ability_id"@
    } else {
        Seq::empty()
    };
    let act_select: Seq<char> = if counted_here {
        ", COALESCE(act.activation_count, 0) as activation_count"@
    } else {
        ", 0 as activation_count"@
    };
    let miss: Seq<char> = if is_damage {
        ", SUM(CASE WHEN defense_type_id IN ("@ + id_list(misses) + ") THEN 1 ELSE 0 END) as miss_count"@
    } else {
        ", 0 as miss_count"@
    };
    let extra = ", SUM(CASE WHEN is_crit THEN CAST("@ + v
        + " AS DOUBLE) ELSE 0 END) as crit_total, SUM(CAST(heal_effective AS DOUBLE)) as effective_total"@;
    let dt: Seq<char> = if is_damage {
        ", MAX(dmg_type) as damage_type, SUM(CASE WHEN defense_type_id = "@ + decimal(shield as int)
            + " THEN 1 ELSE 0 END) as shield_count, SUM(CAST(dmg_absorbed AS DOUBLE)) as absorbed_total"@
    } else {
        Seq::empty()
    };
    let hit: Seq<char> = if is_damage {
        "SUM(CASE WHEN "@ + v + " > 0 THEN 1 ELSE 0 END) as hit_count"@
    } else {
        "COUNT(*) as hit_count"@
    };
    let body = body_sql(join_with(sel, ", "@), v, hit, miss, extra, first_hit, dt, filter, join_with(grp, ", "@));
    if mode.by_ability {
        act_cte + "SELECT b.*"@ + act_select + " FROM (\n                "@ + body + "\n            ) b"@ + act_join
    } else {
        body
    }
}

fn join_parts(parts: &Vec<Vec<char>>, sep: &str) -> (r: Vec<char>)
    ensures
        r@ == join_with(words_view(parts@), sep@),
{
    let s = chars_of(sep);
    let r = join_from(parts, 0, &s);
    assert(words_view(parts@).skip(0) =~= words_view(parts@));
    r
}

fn lit(s: &str) -> (r: Vec<char>)
    ensures
        r@ == s@,
{
    chars_of(s)
}

fn id_list_chars(ids: &Vec<i64>) -> (r: Vec<char>)
    ensures
        r@ == id_list(ids@),
{
    let mut parts: Vec<Vec<char>> = Vec::new();
    let mut i: usize = 0;
    while i < ids.len()
        invariant
            i <= ids.len(),
            words_view(parts@) == ids@.take(i as int).map_values(|x: i64| decimal(x as int)),
        decreases ids.len() - i,
    {
        let mut d: Vec<char> = Vec::new();
        push_decimal(&mut d, ids[i]);
        let ghost before = parts@;
        let ghost dv = d@;
        parts.push(d);
        assert(words_view(parts@) =~= words_view(before).push(dv));
        assert(ids@.take(i + 1).map_values(|x: i64| decimal(x as int)) =~= ids@.take(i as int).map_values(
            |x: i64| decimal(x as int),
        ).push(decimal(ids@[i as int] as int)));
        assert(words_view(parts@) =~= ids@.take(i + 1).map_values(|x: i64| decimal(x as int)));
        i = i + 1;
    }
    assert(ids@.take(ids.len() as int) =~= ids@);
    join_parts(&parts, ",")
}

fn quoted_list_chars(names: &Vec<String>) -> (r: Vec<char>)
    ensures
        r@ == quoted_list(strs_view(names@)),
{
    let mut parts: Vec<Vec<char>> = Vec::new();
    let mut i: usize = 0;
    while i < names.len()
        invariant
            i <= names.len(),
            words_view(parts@) == strs_view(names@).take(i as int).map_values(
                |n: Seq<char>| "'"@ + sql_escaped(n) + "'"@,
            ),
        decreases names.len() - i,
    {
        let mut q: Vec<char> = Vec::new();
        extend_str(&mut q, "'");
        let e = sql_escape(names[i].as_str());
        extend_str(&mut q, e.as_str());
        extend_str(&mut q, "'");
        let ghost before = parts@;
        let ghost qv = q@;
        parts.push(q);
        assert(words_view(parts@) =~= words_view(before).push(qv));
        assert(strs_view(names@).take(i + 1) =~= strs_view(names@).take(i as int).push(names@[i as int]@));
        assert(strs_view(names@).take(i + 1).map_values(|n: Seq<char>| "'"@ + sql_escaped(n) + "'"@)
            =~= strs_view(names@).take(i as int).map_values(|n: Seq<char>| "'"@ + sql_escaped(n) + "'"@).push(qv));
        assert(words_view(parts@) =~= strs_view(names@).take(i + 1).map_values(
            |n: Seq<char>| "'"@ + sql_escaped(n) + "'"@,
        ));
        i = i + 1;
    }
    assert(strs_view(names@).take(names.len() as int) =~= strs_view(names@));
    join_parts(&parts, ", ")
}

fn scope_parts(
    tab: DataTab,
    entity_name: Option<&str>,
    time_filter: Option<&str>,
    entity_types: Option<&Vec<String>>,
    parts: &mut Vec<Vec<char>>,
)
    ensures
        words_view(final(parts)@) == words_view(old(parts)@) + scope_conds(
            tab,
            opt_str_view(entity_name),
            opt_str_view(time_filter),
            opt_strs_view(entity_types),
        ),
{
    let outgoing = tab.is_outgoing();
    let ghost start = words_view(parts@);
    if let Some(n) = entity_name {
        let mut c = lit(if outgoing {
            "source_name"
        } else {
            "target_name"
        });
        extend_str(&mut c, " = '");
        let e = sql_escape(n);
        extend_str(&mut c, e.as_str());
        extend_str(&mut c, "'");
        parts.push(c);
    }
    let ghost mid1 = words_view(parts@);
    if let Some(t) = time_filter {
        parts.push(lit(t));
    }
    let ghost mid2 = words_view(parts@);
    if let Some(ts) = entity_types {
        let mut c = lit(if outgoing {
            "source_entity_type"
        } else {
            "target_entity_type"
        });
        extend_str(&mut c, " IN (");
        let l = quoted_list_chars(ts);
        extend_chars(&mut c, &l);
        extend_str(&mut c, ")");
        parts.push(c);
    }
    assert(words_view(parts@) =~= start + scope_conds(
        tab,
        opt_str_view(entity_name),
        opt_str_view(time_filter),
        opt_strs_view(entity_types),
    ));
}

/// Whether the activations of a breakdown are resolved per target after
/// the query (see `spec_resolves_activation_targets`).
pub fn resolves_activation_targets(tab: DataTab, has_entity: bool, mode: BreakdownMode) -> (r: bool)
    ensures
        r == spec_resolves_activation_targets(tab, has_entity, mode),
{
    mode.by_ability && (mode.by_target_type || mode.by_target_instance) && tab.is_outgoing() && has_entity
}

fn cols_of(tab: DataTab, mode: BreakdownMode) -> (r: (Vec<Vec<char>>, Vec<Vec<char>>))
    ensures
        (words_view(r.0@), words_view(r.1@)) == breakdown_cols(tab, mode),
{
    let outgoing = tab.is_outgoing();
    let name_col = if outgoing {
        "target_name"
    } else {
        "source_name"
    };
    let class_col = if outgoing {
        "target_class_id"
    } else {
        "source_class_id"
    };
    let id_col = if outgoing {
        "target_id"
    } else {
        "source_id"
    };
    let mut sel: Vec<Vec<char>> = Vec::new();
    let mut grp: Vec<Vec<char>> = Vec::new();
    if mode.by_ability {
        sel.push(lit("ability_name"));
        sel.push(lit("ability_id"));
        grp.push(lit("ability_name"));
        grp.push(lit("ability_id"));
    } else {
        sel.push(lit("'' as ability_name"));
        sel.push(lit("0 as ability_id"));
    }
    if mode.by_target_type || mode.by_target_instance {
        sel.push(lit(name_col));
        grp.push(lit(name_col));
    }
    if mode.by_target_type {
        sel.push(lit(class_col));
        grp.push(lit(class_col));
    }
    if mode.by_target_instance {
        sel.push(lit(id_col));
        grp.push(lit(id_col));
    }
    proof {
        let (nc, cc, ic) = other_cols(tab);
        assert(nc == name_col@ && cc == class_col@ && ic == id_col@);
    }
    if grp.len() == 0 {
        let mut s2: Vec<Vec<char>> = Vec::new();
        s2.push(lit("ability_name"));
        s2.push(lit("ability_id"));
        let mut g2: Vec<Vec<char>> = Vec::new();
        g2.push(lit("ability_name"));
        g2.push(lit("ability_id"));
        assert(words_view(s2@) =~= seq!["ability_name"@, "ability_id"@]);
        assert(words_view(g2@) =~= seq!["ability_name"@, "ability_id"@]);
        proof {
            let (a, b) = breakdown_cols(tab, mode);
            assert(words_view(grp@).len() == 0);
        }
        return (s2, g2);
    }
    let ghost (es, eg) = breakdown_cols(tab, mode);
    assert(words_view(sel@) =~= es);
    assert(words_view(grp@) =~= eg);
    (sel, grp)
}

/// The text of the breakdown query (see `spec_breakdown_sql`). The time
/// range comes as its SQL condition; `defense` gives the defense type IDs
/// of avoided and shielded hits.
pub fn breakdown_sql(
    tab: DataTab,
    entity_name: Option<&str>,
    time_filter: Option<&str>,
    entity_types: Option<&Vec<String>>,
    mode: BreakdownMode,
    defense: &DefenseIds,
) -> (r: String)
    ensures
        r@ == spec_breakdown_sql(
            tab,
            opt_str_view(entity_name),
            opt_str_view(time_filter),
            opt_strs_view(entity_types),
            mode,
            defense.misses@,
            defense.shield,
        ),
{
    let v = tab.value_column();
    let is_damage = tab == DataTab::Damage || tab == DataTab::DamageTaken;
    let misses = id_list_chars(&defense.misses);
    // WHERE
    let mut conds: Vec<Vec<char>> = Vec::new();
    if is_damage {
        let mut c = lit("(");
        extend_str(&mut c, v);
        extend_str(&mut c, " > 0 OR defense_type_id IN (");
        extend_chars(&mut c, &misses);
        extend_str(&mut c, "))");
        conds.push(c);
    } else {
        let mut c = lit(v);
        extend_str(&mut c, " > 0");
        conds.push(c);
    }
    if tab == DataTab::Damage {
        conds.push(lit("source_id != target_id"));
    }
    let ghost head = words_view(conds@);
    scope_parts(tab, entity_name, time_filter, entity_types, &mut conds);
    proof {
        let mc = main_conds(
            tab,
            opt_str_view(entity_name),
            opt_str_view(time_filter),
            opt_strs_view(entity_types),
            defense.misses@,
        );
        assert(words_view(conds@) =~= mc);
    }
    let mut filter = lit("WHERE ");
    let joined = join_parts(&conds, " AND ");
    extend_chars(&mut filter, &joined);
    // columns
    let (sel, grp) = cols_of(tab, mode);
    let select_str = join_parts(&sel, ", ");
    let group_str = join_parts(&grp, ", ");
    let first_hit = if mode.by_target_instance {
        lit(", MIN(combat_time_secs) as first_hit_secs")
    } else {
        Vec::new()
    };
    let counted_here = mode.by_ability && !resolves_activation_targets(tab, entity_name.is_some(), mode);
    // activation subquery
    let mut act_cte: Vec<char> = Vec::new();
    let mut act_join: Vec<char> = Vec::new();
    let mut act_select: Vec<char> = Vec::new();
    if counted_here {
        let mut act_conds: Vec<Vec<char>> = Vec::new();
        let mut first = lit("effect_id = ");
        push_decimal(&mut first, ABILITY_ACTIVATE);
        act_conds.push(first);
        let ghost h2 = words_view(act_conds@);
        scope_parts(tab, entity_name, time_filter, entity_types, &mut act_conds);
        let act_filter = join_parts(&act_conds, " AND ");
        proof {
            assert(words_view(act_conds@) =~= seq!["effect_id = "@ + decimal(ABILITY_ACTIVATE as int)] + scope_conds(
                tab,
                opt_str_view(entity_name),
                opt_str_view(time_filter),
                opt_strs_view(entity_types),
            ));
        }
        extend_str(&mut act_cte, "WITH activations AS (SELECT ability_id, COUNT(*) as activation_count FROM events WHERE ");
        extend_chars(&mut act_cte, &act_filter);
        extend_str(&mut act_cte, " GROUP BY ability_id) ");
        extend_str(&mut act_join, " LEFT JOIN activations act ON b.ability_id = act.ability_id");
        extend_str(&mut act_select, ", COALESCE(act.activation_count, 0) as activation_count");
    } else {
        extend_str(&mut act_select, ", 0 as activation_count");
    }
    let mut miss: Vec<char> = Vec::new();
    if is_damage {
        extend_str(&mut miss, ", SUM(CASE WHEN defense_type_id IN (");
        extend_chars(&mut miss, &misses);
        extend_str(&mut miss, ") THEN 1 ELSE 0 END) as miss_count");
    } else {
        extend_str(&mut miss, ", 0 as miss_count");
    }
    let mut extra = lit(", SUM(CASE WHEN is_crit THEN CAST(");
    extend_str(&mut extra, v);
    extend_str(&mut extra, " AS DOUBLE) ELSE 0 END) as crit_total, SUM(CAST(heal_effective AS DOUBLE)) as effective_total");
    let mut dt: Vec<char> = Vec::new();
    if is_damage {
        extend_str(&mut dt, ", MAX(dmg_type) as damage_type, SUM(CASE WHEN defense_type_id = ");
        push_decimal(&mut dt, defense.shield);
        extend_str(&mut dt, " THEN 1 ELSE 0 END) as shield_count, SUM(CAST(dmg_absorbed AS DOUBLE)) as absorbed_total");
    }
    let mut hit: Vec<char> = Vec::new();
    if is_damage {
        extend_str(&mut hit, "SUM(CASE WHEN ");
        extend_str(&mut hit, v);
        extend_str(&mut hit, " > 0 THEN 1 ELSE 0 END) as hit_count");
    } else {
        extend_str(&mut hit, "COUNT(*) as hit_count");
    }
    // body
    let mut body = lit("SELECT ");
    extend_chars(&mut body, &select_str);
    extend_str(&mut body, ",\n                       SUM(");
    extend_str(&mut body, v);
    extend_str(&mut body, ") as total_value,\n                       ");
    extend_chars(&mut body, &hit);
    extend_str(&mut body, ",\n                       SUM(CASE WHEN is_crit THEN 1 ELSE 0 END) as crit_count,\n                       MAX(");
    extend_str(&mut body, v);
    extend_str(&mut body, ") as max_hit,\n                       SUM(");
    extend_str(&mut body, v);
    extend_str(&mut body, ") * 100.0 / SUM(SUM(");
    extend_str(&mut body, v);
    extend_str(&mut body, ")) OVER () as percent_of_total\n                       ");
    extend_chars(&mut body, &miss);
    extend_str(&mut body, "\n                       ");
    extend_chars(&mut body, &extra);
    extend_str(&mut body, "\n                       ");
    extend_chars(&mut body, &first_hit);
    extend_str(&mut body, "\n                       ");
    extend_chars(&mut body, &dt);
    extend_str(&mut body, "\n                FROM events ");
    extend_chars(&mut body, &filter);
    extend_str(&mut body, "\n                GROUP BY ");
    extend_chars(&mut body, &group_str);
    extend_str(&mut body, "\n                ORDER BY total_value DESC");
    let ghost expected = spec_breakdown_sql(
        tab,
        opt_str_view(entity_name),
        opt_str_view(time_filter),
        opt_strs_view(entity_types),
        mode,
        defense.misses@,
        defense.shield,
    );
    if mode.by_ability {
        let mut out = act_cte;
        extend_str(&mut out, "SELECT b.*");
        extend_chars(&mut out, &act_select);
        extend_str(&mut out, " FROM (\n                ");
        extend_chars(&mut out, &body);
        extend_str(&mut out, "\n            ) b");
        extend_chars(&mut out, &act_join);
        assert(out@ =~= expected);
        string_of(out.as_slice())
    } else {
        assert(body@ =~= expected);
        string_of(body.as_slice())
    }
}

/// A breakdown row, as far as the activation merge reads and writes it.
#[derive(Debug, Clone)]
pub struct BreakdownKey {
    pub ability_id: i64,
    pub target_name: Option<String>,
    pub target_log_id: Option<i64>,
    pub activation_count: i64,
}

/// Activations resolved per target: ((ability, target name, target
/// instance), count).
pub type ActivationCount = ((i64, String, i64), i64);

/// The count of an exact (ability, target name, instance): that of the first
/// entry for it, 0 when there is none.
pub open spec fn instance_count(counts: Seq<ActivationCount>, aid: i64, name: Seq<char>, tid: i64) -> i64
    decreases counts.len(),
{
    if counts.len() == 0 {
        0
    } else if counts[0].0.0 == aid && counts[0].0.1@ == name && counts[0].0.2 == tid {
        counts[0].1
    } else {
        instance_count(counts.skip(1), aid, name, tid)
    }
}

/// The total count of an ability on all instances of a target name.
pub open spec fn type_count(counts: Seq<ActivationCount>, aid: i64, name: Seq<char>) -> int
    decreases counts.len(),
{
    if counts.len() == 0 {
        0
    } else {
        type_count(counts.drop_last(), aid, name) + if counts.last().0.0 == aid && counts.last().0.1@ == name {
            counts.last().1 as int
        } else {
            0
        }
    }
}

/// The target name of a row ("" when there is none).
pub open spec fn row_name(row: BreakdownKey) -> Seq<char> {
    match row.target_name {
        Some(s) => s@,
        None => Seq::empty(),
    }
}

/// The activation count a row takes: by instance, the exact entry for its
/// ability, target name and instance; by type, the total over the target
/// name's instances.
pub open spec fn merged_count(counts: Seq<ActivationCount>, row: BreakdownKey, by_instance: bool) -> int {
    if by_instance {
        instance_count(
            counts,
            row.ability_id,
            row_name(row),
            match row.target_log_id {
                Some(t) => t,
                None => 0,
            },
        ) as int
    } else {
        type_count(counts, row.ability_id, row_name(row))
    }
}

fn name_of(row: &BreakdownKey) -> (r: Vec<char>)
    ensures
        r@ == row_name(*row),
{
    match &row.target_name {
        Some(s) => chars_of(s.as_str()),
        None => Vec::new(),
    }
}

fn count_for_instance(counts: &Vec<ActivationCount>, aid: i64, name: &Vec<char>, tid: i64) -> (r: i64)
    ensures
        r == instance_count(counts@, aid, name@, tid),
{
    let mut i: usize = 0;
    assert(counts@.skip(0) =~= counts@);
    while i < counts.len()
        invariant
            i <= counts.len(),
            instance_count(counts@, aid, name@, tid) == instance_count(counts@.skip(i as int), aid, name@, tid),
        decreases counts.len() - i,
    {
        let e = &counts[i];
        let en = chars_of(e.0.1.as_str());
        let hit = e.0.0 == aid && e.0.2 == tid && crate::text::chars_eq(&en, name);
        proof {
            let rest = counts@.skip(i as int);
            assert(rest[0] == counts@[i as int]);
            assert(rest.skip(1) =~= counts@.skip(i + 1));
        }
        if hit {
            return e.1;
        }
        i = i + 1;
    }
    0
}

fn count_for_type(counts: &Vec<ActivationCount>, aid: i64, name: &Vec<char>) -> (r: i128)
    ensures
        r == type_count(counts@, aid, name@),
{
    let mut acc: i128 = 0;
    let mut i: usize = 0;
    assert(counts@.take(0) =~= Seq::<ActivationCount>::empty());
    while i < counts.len()
        invariant
            i <= counts.len(),
            acc == type_count(counts@.take(i as int), aid, name@),
            -(i as int) * 0x8000_0000_0000_0000 <= acc <= (i as int) * 0x8000_0000_0000_0000,
        decreases counts.len() - i,
    {
        proof {
            assert(counts@.take(i + 1).drop_last() =~= counts@.take(i as int));
        }
        let e = &counts[i];
        let en = chars_of(e.0.1.as_str());
        if e.0.0 == aid && crate::text::chars_eq(&en, name) {
            acc = acc + e.1 as i128;
        }
        i = i + 1;
    }
    assert(counts@.take(counts.len() as int) =~= counts@);
    acc
}

/// Set each row's activation count from the per-target counts (see
/// `merged_count`).
pub fn merge_activation_counts(rows: &mut Vec<BreakdownKey>, counts: &Vec<ActivationCount>, by_instance: bool)
    requires
        !by_instance ==> forall|i: int|
            0 <= i < old(rows)@.len() ==> i64::MIN <= #[trigger] merged_count(counts@, old(rows)@[i], false)
                <= i64::MAX,
    ensures
        final(rows)@.len() == old(rows)@.len(),
        forall|i: int|
            0 <= i < old(rows)@.len() ==> #[trigger] final(rows)@[i] == (BreakdownKey {
                activation_count: merged_count(counts@, old(rows)@[i], by_instance) as i64,
                ..old(rows)@[i]
            }),
{
    let mut i: usize = 0;
    while i < rows.len()
        invariant
            i <= rows.len(),
            rows@.len() == old(rows)@.len(),
            !by_instance ==> forall|k: int|
                0 <= k < old(rows)@.len() ==> i64::MIN <= #[trigger] merged_count(counts@, old(rows)@[k], false)
                    <= i64::MAX,
            forall|k: int| i <= k < rows@.len() ==> rows@[k] == old(rows)@[k],
            forall|k: int|
                0 <= k < i ==> #[trigger] rows@[k] == (BreakdownKey {
                    activation_count: merged_count(counts@, old(rows)@[k], by_instance) as i64,
                    ..old(rows)@[k]
                }),
        decreases rows.len() - i,
    {
        let name = name_of(&rows[i]);
        let aid = rows[i].ability_id;
        let c: i64 = if by_instance {
            let tid = match rows[i].target_log_id {
                Some(t) => t,
                None => 0,
            };
            count_for_instance(counts, aid, &name, tid)
        } else {
            let t = count_for_type(counts, aid, &name);
            assert(i64::MIN <= merged_count(counts@, old(rows)@[i as int], false) <= i64::MAX);
            t as i64
        };
        let old_row = BreakdownKey {
            ability_id: rows[i].ability_id,
            target_name: match &rows[i].target_name {
                Some(s) => Some(s.clone()),
                None => None,
            },
            target_log_id: rows[i].target_log_id,
            activation_count: rows[i].activation_count,
        };
        assert(old_row == old(rows)@[i as int]);
        rows.set(i, BreakdownKey { activation_count: c, ..old_row });
        i = i + 1;
    }
}


/// Whether the breakdown appends shield rows: on a healing tab for one
/// entity.
pub open spec fn spec_appends_shield_rows(tab: DataTab, has_entity: bool) -> bool {
    tab.spec_is_healing() && has_entity
}

pub fn appends_shield_rows(tab: DataTab, has_entity: bool) -> (r: bool)
    ensures
        r == spec_appends_shield_rows(tab, has_entity),
{
    tab.is_healing() && has_entity
}

/// Whether the shield rows are split by the shield's caster: incoming, with
/// a target grouping.
pub open spec fn shields_by_source(is_incoming: bool, mode: BreakdownMode) -> bool {
    is_incoming && (mode.by_target_type || mode.by_target_instance)
}

/// The text of the shield absorption query of the breakdown: per shield
/// effect (and per caster when split by source), the absorbed total and
/// hit count of the first shield on each absorbing hit, named after the
/// ability that applied the shield. Incoming counts the shields on the
/// entity; outgoing those the entity cast. `time_filter` is the time
/// range's SQL condition; `apply_effect_id` and `remove_effect_id` are the
/// effect type IDs of applied and removed effects.
pub open spec fn spec_shield_breakdown_sql(
    entity_name: Seq<char>,
    time_filter: Option<Seq<char>>,
    is_incoming: bool,
    mode: BreakdownMode,
    apply_effect_id: i64,
    remove_effect_id: i64,
) -> Seq<char> {
    let tf: Seq<char> = match time_filter {
        Some(t) => "AND "@ + t,
        None => Seq::empty(),
    };
    let esc = sql_escaped(entity_name);
    let inner: Seq<char> = if is_incoming {
        "AND target_name = '"@ + esc + "'"@
    } else {
        Seq::empty()
    };
    let src_filter: Seq<char> = if is_incoming {
        Seq::empty()
    } else {
        "AND CAST(shield['source_id'] AS BIGINT) IN (SELECT DISTINCT source_id FROM events WHERE source_name = '"@
            + esc + "' "@ + tf + ")"@
    };
    let sel_src: Seq<char> = if shields_by_source(is_incoming, mode) {
        ", CAST(shield['source_id'] AS BIGINT) as src_id"@
    } else {
        ", CAST(NULL AS BIGINT) as src_id"@
    };
    let grp_src: Seq<char> = if shields_by_source(is_incoming, mode) {
        ", shield['source_id']"@
    } else {
        Seq::empty()
    };
    "\n            WITH shield_map AS (\n                SELECT effect_id as shield_eid,\n                       MIN(ability_id) as ability_id,\n                       MIN(ability_name) as ability_name\n                FROM events\n                WHERE effect_type_id IN ("@
        + decimal(apply_effect_id as int)
        + ", "@
        + decimal(remove_effect_id as int)
        + ")\n                GROUP BY effect_id\n            ),\n            shield_totals AS (\n                SELECT\n                    CAST(shield['effect_id'] AS BIGINT) as shield_eid\n                    "@
        + sel_src
        + ",\n                    SUM(CAST(dmg_absorbed AS BIGINT)) as total_absorbed,\n                    COUNT(*) as hit_count\n                FROM (\n                    SELECT dmg_absorbed, UNNEST(active_shields) as shield\n                    FROM events\n                    WHERE dmg_absorbed > 0 AND cardinality(active_shields) > 0\n                      "@
        + inner
        + "\n                      "@
        + tf
        + "\n                )\n                WHERE CAST(shield['position'] AS BIGINT) = 1\n                  "@
        + src_filter
        + "\n                GROUP BY shield['effect_id']"@
        + grp_src
        + "\n            )\n            SELECT COALESCE(sm.ability_id, st.shield_eid) as ability_id,\n                   COALESCE(sm.ability_name, 'Unknown Shield') as ability_name,\n                   COALESCE(st.total_absorbed, 0) as total_absorbed,\n                   COALESCE(st.hit_count, 0) as hit_count,\n                   st.src_id\n            FROM shield_totals st\n            LEFT JOIN shield_map sm ON st.shield_eid = sm.shield_eid\n            WHERE st.total_absorbed > 0\n            ORDER BY total_absorbed DESC\n            "@
}

/// The text of the shield absorption query (see
/// `spec_shield_breakdown_sql`).
pub fn shield_breakdown_sql(
    entity_name: &str,
    time_filter: Option<&str>,
    is_incoming: bool,
    mode: BreakdownMode,
    apply_effect_id: i64,
    remove_effect_id: i64,
) -> (r: String)
    ensures
        r@ == spec_shield_breakdown_sql(
            entity_name@,
            opt_str_view(time_filter),
            is_incoming,
            mode,
            apply_effect_id,
            remove_effect_id,
        ),
{
    let tf: Vec<char> = match time_filter {
        Some(t) => {
            let mut v = lit("AND ");
            extend_str(&mut v, t);
            v
        },
        None => Vec::new(),
    };
    let esc = sql_escape(entity_name);
    let inner: Vec<char> = if is_incoming {
        let mut v = lit("AND target_name = '");
        extend_str(&mut v, esc.as_str());
        extend_str(&mut v, "'");
        v
    } else {
        Vec::new()
    };
    let src_filter: Vec<char> = if is_incoming {
        Vec::new()
    } else {
        let mut v = lit(
            "AND CAST(shield['source_id'] AS BIGINT) IN (SELECT DISTINCT source_id FROM events WHERE source_name = '",
        );
        extend_str(&mut v, esc.as_str());
        extend_str(&mut v, "' ");
        extend_chars(&mut v, &tf);
        extend_str(&mut v, ")");
        v
    };
    let by_source = is_incoming && (mode.by_target_type || mode.by_target_instance);
    let sel_src: &str = if by_source {
        ", CAST(shield['source_id'] AS BIGINT) as src_id"
    } else {
        ", CAST(NULL AS BIGINT) as src_id"
    };
    let grp_src: &str = if by_source {
        ", shield['source_id']"
    } else {
        ""
    };
    proof {
        reveal_strlit("");
    }
    let mut out: Vec<char> = Vec::new();
    extend_str(&mut out, "\n            WITH shield_map AS (\n                SELECT effect_id as shield_eid,\n                       MIN(ability_id) as ability_id,\n                       MIN(ability_name) as ability_name\n                FROM events\n                WHERE effect_type_id IN (");
    push_decimal(&mut out, apply_effect_id);
    extend_str(&mut out, ", ");
    push_decimal(&mut out, remove_effect_id);
    extend_str(&mut out, ")\n                GROUP BY effect_id\n            ),\n            shield_totals AS (\n                SELECT\n                    CAST(shield['effect_id'] AS BIGINT) as shield_eid\n                    ");
    extend_str(&mut out, sel_src);
    extend_str(&mut out, ",\n                    SUM(CAST(dmg_absorbed AS BIGINT)) as total_absorbed,\n                    COUNT(*) as hit_count\n                FROM (\n                    SELECT dmg_absorbed, UNNEST(active_shields) as shield\n                    FROM events\n                    WHERE dmg_absorbed > 0 AND cardinality(active_shields) > 0\n                      ");
    extend_chars(&mut out, &inner);
    extend_str(&mut out, "\n                      ");
    extend_chars(&mut out, &tf);
    extend_str(&mut out, "\n                )\n                WHERE CAST(shield['position'] AS BIGINT) = 1\n                  ");
    extend_chars(&mut out, &src_filter);
    extend_str(&mut out, "\n                GROUP BY shield['effect_id']");
    extend_str(&mut out, grp_src);
    extend_str(&mut out, "\n            )\n            SELECT COALESCE(sm.ability_id, st.shield_eid) as ability_id,\n                   COALESCE(sm.ability_name, 'Unknown Shield') as ability_name,\n                   COALESCE(st.total_absorbed, 0) as total_absorbed,\n                   COALESCE(st.hit_count, 0) as hit_count,\n                   st.src_id\n            FROM shield_totals st\n            LEFT JOIN shield_map sm ON st.shield_eid = sm.shield_eid\n            WHERE st.total_absorbed > 0\n            ORDER BY total_absorbed DESC\n            ");
    string_of(out.as_slice())
}

} // verus!
