//! The effect tracker: matches game signals against effect definitions and
//! keeps the active effects (applied, refreshed, expired, removed), the
//! alerts they fire and the targets to register on raid frames.
//!
//! Times are game times in milliseconds; durations are given in
//! milliseconds, already adjusted for alacrity and latency by the caller.

use vstd::prelude::*;

use crate::effects::definition::DisplayTarget;
use crate::effects::tracker::{
    aoe_ids_of_all, def_entry, derefs, format_effect_alert, spec_find, spec_find_refreshable, spec_format_effect_alert, DefinitionKeys,
    DefinitionSet, NewTargetInfo, SelectorKind,
};
use crate::query::effects::opt_str_view;
use crate::text::{chars_eq, chars_of};

verus! {

/// What kind of game event starts a definition's effect.
#[derive(Debug, Clone, Copy, PartialEq, Eq, Structural)]
pub enum TriggerKind {
    EffectApplied,
    EffectRemoved,
    AbilityCast,
    DamageTaken,
    HealingTaken,
    Other,
}

/// When a definition fires its alert.
#[derive(Debug, Clone, Copy, PartialEq, Eq, Structural)]
pub enum AlertOn {
    Never,
    OnApply,
    OnExpire,
    Countdown,
}

/// Which entities share one active effect of a definition.
#[derive(Debug, Clone, Copy, PartialEq, Eq, Structural)]
pub enum RefreshScope {
    /// One effect per caster and target.
    SourceAndTarget,
    /// One effect per target, whoever cast it.
    Target,
}

/// What kind of event a refresh ability refreshes on.
#[derive(Debug, Clone, Copy, PartialEq, Eq, Structural)]
pub enum RefreshTrigger {
    Activation,
    Heal,
    Damage,
}

/// The conditions of one refresh ability of a definition.
#[derive(Debug, Clone, Copy, PartialEq, Eq, Structural)]
pub struct RefreshRule {
    pub trigger: RefreshTrigger,
    /// Damage refreshes skip immune and resisted hits.
    pub ignore_immune_resist: bool,
    /// Stacks the effect must have for the refresh (None: any).
    pub min_stacks: Option<u8>,
    /// Whether the refresh waits for the ability's first damage.
    pub defer_to_first_damage: bool,
}

/// What the tracker reads of an effect definition. `id` is the
/// definition's ID, the same as that of its keys in the definition set.
#[derive(Debug, Clone)]
pub struct EffectRule {
    pub id: String,
    pub name: String,
    pub trigger: TriggerKind,
    /// Fire an alert and track nothing.
    pub is_alert: bool,
    pub alert_text: Option<String>,
    pub alert_on: AlertOn,
    pub audio_enabled: bool,
    pub audio_file: Option<String>,
    /// The effective duration in ms (None: no timer).
    pub duration_ms: Option<i64>,
    /// The ready-state tail of a cooldown, in ms, inside the duration.
    pub cooldown_ready_ms: i64,
    pub ignore_refreshes: bool,
    pub ignore_effect_removed: bool,
    pub refresh_scope: RefreshScope,
    pub display_targets: Vec<DisplayTarget>,
    pub default_charges: Option<u8>,
    pub persist_past_death: bool,
    pub track_outside_combat: bool,
    /// Whether a charge change restarts the duration.
    pub is_refreshed_on_modify: bool,
    /// For AoE refreshes: refresh on any hit of the ability, instead of only
    /// on the targets hit together with the primary target.
    pub aoe_refresh_immediate: bool,
    pub modifiers: Vec<DurationModifier>,
    /// Text shown for the effect (None: its name).
    pub display_text: Option<String>,
    /// RGBA color of the effect (None: the default gray).
    pub color: Option<[u8; 4]>,
    /// The ability whose icon the effect shows (None: the game ID that
    /// started it).
    pub icon_ability_id: Option<u64>,
    /// The disciplines of the local player the definition is for (empty:
    /// all).
    pub disciplines: Vec<i64>,
    /// The disciplines a source, or a target, must have (empty: any entity).
    pub source_disciplines: Vec<i64>,
    pub target_disciplines: Vec<i64>,
}

/// The color of an effect whose definition sets none.
pub open spec fn default_effect_color() -> [u8; 4] {
    [128u8, 128u8, 128u8, 255u8]
}

impl EffectRule {
    /// The color an effect of this definition shows.
    pub open spec fn spec_effective_color(self) -> [u8; 4] {
        match self.color {
            Some(c) => c,
            None => default_effect_color(),
        }
    }

    /// The text an effect of this definition shows: its display text, or
    /// else its name.
    pub open spec fn shown_text(self) -> String {
        match self.display_text {
            Some(t) => t,
            None => self.name,
        }
    }

    pub open spec fn spec_display_text(self) -> Seq<char> {
        self.shown_text()@
    }

    /// The definition's color, or the default gray.
    pub fn effective_color(&self) -> (r: [u8; 4])
        ensures
            r == self.spec_effective_color(),
    {
        match self.color {
            Some(c) => c,
            None => [128u8, 128u8, 128u8, 255u8],
        }
    }

    /// The definition's display text, or its name.
    pub fn display_text(&self) -> (r: &str)
        ensures
            r@ == self.spec_display_text(),
    {
        match &self.display_text {
            Some(t) => t.as_str(),
            None => self.name.as_str(),
        }
    }

    fn shown_text_owned(&self) -> (r: String)
        ensures
            r == self.shown_text(),
    {
        match &self.display_text {
            Some(t) => t.clone(),
            None => self.name.clone(),
        }
    }
}

/// Which way a stack count moved.
#[derive(Debug, Clone, Copy, PartialEq, Eq, Structural)]
pub enum ChargeDirection {
    Increased,
    Decreased,
    Neutral,
}

/// A modifier that changes the duration of a running effect when its
/// trigger fires.
#[derive(Debug, Clone, Copy, PartialEq, Eq, Structural)]
pub struct DurationModifier {
    /// For a modifier on the effect's own charges: `Some(direction)`, where
    /// `None` is any direction. `None` for modifiers on other signals.
    pub self_charges: Option<Option<ChargeDirection>>,
    /// Time added to the expiry, in ms (may be negative).
    pub adjust_ms: i64,
    /// Restart the full duration instead.
    pub refill: bool,
    /// Least time between two firings, in ms.
    pub icd_ms: Option<i64>,
    /// Longest the effect may run from its application, in ms.
    pub max_duration_ms: Option<i64>,
}

/// An entity of an event.
#[derive(Debug, Clone)]
pub struct EntityRef {
    pub id: i64,
    pub name: String,
    pub is_player: bool,
}

/// An effect applied to, or removed from, an entity.
#[derive(Debug, Clone)]
pub struct EffectEvent {
    pub effect_id: i64,
    pub effect_name: String,
    pub source: EntityRef,
    pub target: EntityRef,
    pub timestamp: i64,
    pub charges: Option<u8>,
}

/// An ability activated, or damage or healing done with an ability.
#[derive(Debug, Clone)]
pub struct AbilityEvent {
    pub ability_id: i64,
    pub ability_name: String,
    pub source: EntityRef,
    pub target: EntityRef,
    pub timestamp: i64,
    /// For damage: whether the hit was immune or resisted.
    pub immune_or_resist: bool,
}

/// The key of an active effect.
#[derive(Debug, Clone)]
pub struct EffectKey {
    pub definition_id: String,
    /// The caster, for definitions scoped by caster and target.
    pub source_id: Option<i64>,
    pub target_id: i64,
}

/// A tracked effect on an entity.
#[derive(Debug)]
pub struct ActiveEffect {
    pub key: EffectKey,
    pub game_effect_id: u64,
    pub source_id: i64,
    pub source_name: String,
    pub target_id: i64,
    pub target_name: String,
    pub is_from_local: bool,
    pub applied_at: i64,
    pub last_refreshed_at: i64,
    pub duration_ms: Option<i64>,
    pub expires_at: Option<i64>,
    pub cooldown_ready_ms: i64,
    pub stacks: u8,
    /// Removed by the game (or by death, combat end or zoning).
    pub removed: bool,
    /// Our timer ran out; the effect may still be revived by a refresh.
    pub timer_expired: bool,
    pub on_end_alert_fired: bool,
    pub alert_on_expire: bool,
    /// The cap that a modifier's maximum duration set on the expiry.
    pub max_expires_at: Option<i64>,
    /// When each duration modifier of the definition last fired.
    pub modifier_procs: ProcList,
    /// The definition's name, display text, color and icon.
    pub name: String,
    pub display_text: String,
    pub color: [u8; 4],
    pub icon_ability_id: u64,
}

/// When duration modifiers last fired, by the modifier's position.
#[derive(Debug)]
pub enum ProcList {
    Empty,
    Proc(usize, i64, Box<ProcList>),
}

/// When modifier `j` last fired.
pub open spec fn last_proc(p: ProcList, j: usize) -> Option<i64>
    decreases p,
{
    match p {
        ProcList::Empty => None,
        ProcList::Proc(k, t, rest) => if k == j {
            Some(t)
        } else {
            last_proc(*rest, j)
        },
    }
}

/// The list after modifier `j` fires at `t`.
pub open spec fn set_proc(p: ProcList, j: usize, t: i64) -> ProcList {
    ProcList::Proc(j, t, Box::new(p))
}

fn proc_of(p: &ProcList, j: usize) -> (r: Option<i64>)
    ensures
        r == last_proc(*p, j),
    decreases p,
{
    match p {
        ProcList::Empty => None,
        ProcList::Proc(k, t, rest) => if *k == j {
            Some(*t)
        } else {
            proc_of(rest, j)
        },
    }
}

fn copy_procs(p: &ProcList) -> (r: ProcList)
    ensures
        r == *p,
    decreases p,
{
    match p {
        ProcList::Empty => ProcList::Empty,
        ProcList::Proc(k, t, rest) => ProcList::Proc(*k, *t, Box::new(copy_procs(rest))),
    }
}

/// An alert fired by an effect.
#[derive(Debug, Clone)]
pub struct FiredAlert {
    pub id: String,
    pub name: String,
    pub text: String,
    pub timestamp: i64,
    pub alert_text_enabled: bool,
    pub audio_enabled: bool,
    pub audio_file: Option<String>,
    pub color: Option<[u8; 4]>,
    pub icon_ability_id: Option<u64>,
}

/// The value of a [`FiredAlert`].
pub struct AlertView {
    pub id: Seq<char>,
    pub name: Seq<char>,
    pub text: Seq<char>,
    pub timestamp: i64,
    pub alert_text_enabled: bool,
    pub audio_enabled: bool,
    pub audio_file: Option<Seq<char>>,
    pub color: Option<[u8; 4]>,
    pub icon_ability_id: Option<u64>,
}

/// The view of an optional string.
pub open spec fn opt_view(o: Option<String>) -> Option<Seq<char>> {
    match o {
        Some(s) => Some(s@),
        None => None,
    }
}

impl View for FiredAlert {
    type V = AlertView;

    open spec fn view(&self) -> AlertView {
        AlertView {
            id: self.id@,
            name: self.name@,
            text: self.text@,
            timestamp: self.timestamp,
            alert_text_enabled: self.alert_text_enabled,
            audio_enabled: self.audio_enabled,
            audio_file: opt_view(self.audio_file),
            color: self.color,
            icon_ability_id: self.icon_ability_id,
        }
    }
}

/// The views of a list of alerts.
pub open spec fn alert_views(s: Seq<FiredAlert>) -> Seq<AlertView> {
    s.map_values(|a: FiredAlert| a@)
}

/// A refresh deferred to the first damage of the ability.
#[derive(Debug, Clone, Copy, PartialEq, Eq, Structural)]
pub struct PendingDotRefresh {
    pub ability_id: i64,
    pub source_id: i64,
    pub timestamp: i64,
}

/// An AoE refresh waiting for the ability's damage on its primary target.
#[derive(Debug, Clone, Copy, PartialEq, Eq, Structural)]
pub struct PendingAoeRefresh {
    pub ability_id: i64,
    pub source_id: i64,
    pub timestamp: i64,
    pub primary_target: i64,
}

/// The targets an AoE hit together with its primary target.
#[derive(Debug)]
pub struct AoeCollecting {
    pub ability_id: i64,
    pub source_id: i64,
    /// When the primary target was hit.
    pub anchor: i64,
    pub targets: Vec<i64>,
}

/// The value of an [`AoeCollecting`].
pub struct AoeView {
    pub ability_id: i64,
    pub source_id: i64,
    pub anchor: i64,
    pub targets: Seq<i64>,
}

/// The view of an optional collection.
pub open spec fn aoe_view(c: Option<AoeCollecting>) -> Option<AoeView> {
    match c {
        Some(x) => Some(AoeView { ability_id: x.ability_id, source_id: x.source_id, anchor: x.anchor, targets: x.targets@ }),
        None => None,
    }
}

/// How far from the primary hit other hits count as the same AoE.
pub const COLLECT_WINDOW_MS: i64 = 10;

/// How long a deferred refresh waits for its damage.
pub const PENDING_TIMEOUT_MS: i64 = 2000;

/// How long after the last refresh a removal is taken as stale.
pub const STALE_REMOVAL_MS: i64 = 1000;

/// `a + b`, held to the `i64` range.
pub open spec fn sat_add(a: i64, b: i64) -> i64 {
    if a + b > i64::MAX {
        i64::MAX
    } else if a + b < i64::MIN {
        i64::MIN
    } else {
        (a + b) as i64
    }
}

/// `a - b`, held to the `i64` range.
pub open spec fn sat_sub(a: i64, b: i64) -> i64 {
    if a - b > i64::MAX {
        i64::MAX
    } else if a - b < i64::MIN {
        i64::MIN
    } else {
        (a - b) as i64
    }
}

fn add_ms(a: i64, b: i64) -> (r: i64)
    ensures
        r == sat_add(a, b),
{
    let s: i128 = a as i128 + b as i128;
    if s > i64::MAX as i128 {
        i64::MAX
    } else if s < i64::MIN as i128 {
        i64::MIN
    } else {
        s as i64
    }
}

fn sub_ms(a: i64, b: i64) -> (r: i64)
    ensures
        r == sat_sub(a, b),
{
    let s: i128 = a as i128 - b as i128;
    if s > i64::MAX as i128 {
        i64::MAX
    } else if s < i64::MIN as i128 {
        i64::MIN
    } else {
        s as i64
    }
}

/// The key of a definition's effect for a caster and a target.
pub open spec fn key_for(r: EffectRule, source_id: i64, target_id: i64) -> EffectKey {
    EffectKey {
        definition_id: r.id,
        source_id: match r.refresh_scope {
            RefreshScope::SourceAndTarget => Some(source_id),
            RefreshScope::Target => None,
        },
        target_id,
    }
}

fn make_key(r: &EffectRule, source_id: i64, target_id: i64) -> (k: EffectKey)
    ensures
        k == key_for(*r, source_id, target_id),
{
    EffectKey {
        definition_id: r.id.clone(),
        source_id: match r.refresh_scope {
            RefreshScope::SourceAndTarget => Some(source_id),
            RefreshScope::Target => None,
        },
        target_id,
    }
}

/// Two keys name the same effect.
pub open spec fn same_key(a: EffectKey, b: EffectKey) -> bool {
    a.definition_id@ == b.definition_id@ && a.source_id == b.source_id && a.target_id == b.target_id
}

/// The position of the first effect with key `k`.
pub open spec fn find_key(s: Seq<ActiveEffect>, k: EffectKey) -> Option<int> {
    if exists|i: int| 0 <= i < s.len() && same_key(#[trigger] s[i].key, k) {
        Some(
            choose|i: int|
                0 <= i < s.len() && same_key(#[trigger] s[i].key, k) && forall|j: int|
                    0 <= j < i ==> !same_key(s[j].key, k),
        )
    } else {
        None
    }
}

/// The position of the first live effect of definition `id` on `target`,
/// whoever cast it.
pub open spec fn find_on_target(s: Seq<ActiveEffect>, id: Seq<char>, target: i64) -> Option<int> {
    if exists|i: int| 0 <= i < s.len() && #[trigger] s[i].key.definition_id@ == id && s[i].target_id == target {
        Some(
            choose|i: int|
                0 <= i < s.len() && #[trigger] s[i].key.definition_id@ == id && s[i].target_id == target
                    && forall|j: int| 0 <= j < i ==> !(s[j].key.definition_id@ == id && s[j].target_id == target),
        )
    } else {
        None
    }
}

fn str_eq(a: &str, b: &str) -> (r: bool)
    ensures
        r == (a@ == b@),
{
    let x = chars_of(a);
    let y = chars_of(b);
    chars_eq(&x, &y)
}

fn keys_match(a: &EffectKey, b: &EffectKey) -> (r: bool)
    ensures
        r == same_key(*a, *b),
{
    a.source_id == b.source_id && a.target_id == b.target_id && str_eq(
        a.definition_id.as_str(),
        b.definition_id.as_str(),
    )
}

fn position_of_key(s: &Vec<ActiveEffect>, k: &EffectKey) -> (r: Option<usize>)
    ensures
        match r {
            Some(i) => find_key(s@, *k) == Some(i as int) && i < s.len(),
            None => find_key(s@, *k) is None,
        },
{
    let mut i: usize = 0;
    while i < s.len()
        invariant
            i <= s.len(),
            forall|j: int| 0 <= j < i ==> !same_key(s@[j].key, *k),
        decreases s.len() - i,
    {
        if keys_match(&s[i].key, k) {
            proof {
                let c = choose|c: int|
                    0 <= c < s@.len() && same_key(#[trigger] s@[c].key, *k) && forall|j: int|
                        0 <= j < c ==> !same_key(s@[j].key, *k);
                assert(same_key(s@[i as int].key, *k));
                if c < i {
                } else if c > i {
                    assert(!same_key(s@[i as int].key, *k));
                }
            }
            return Some(i);
        }
        i = i + 1;
    }
    None
}

fn position_on_target(s: &Vec<ActiveEffect>, id: &str, target: i64) -> (r: Option<usize>)
    ensures
        match r {
            Some(i) => find_on_target(s@, id@, target) == Some(i as int) && i < s.len(),
            None => find_on_target(s@, id@, target) is None,
        },
{
    let mut i: usize = 0;
    while i < s.len()
        invariant
            i <= s.len(),
            forall|j: int| 0 <= j < i ==> !(s@[j].key.definition_id@ == id@ && s@[j].target_id == target),
        decreases s.len() - i,
    {
        if s[i].target_id == target && str_eq(s[i].key.definition_id.as_str(), id) {
            proof {
                let c = choose|c: int|
                    0 <= c < s@.len() && #[trigger] s@[c].key.definition_id@ == id@ && s@[c].target_id == target
                        && forall|j: int|
                        0 <= j < c ==> !(s@[j].key.definition_id@ == id@ && s@[j].target_id == target);
                if c > i {
                    assert(!(s@[i as int].key.definition_id@ == id@ && s@[i as int].target_id == target));
                }
            }
            return Some(i);
        }
        i = i + 1;
    }
    None
}

fn shows_on(v: &Vec<DisplayTarget>, t: DisplayTarget) -> (r: bool)
    ensures
        r == v@.contains(t),
{
    let mut i: usize = 0;
    while i < v.len()
        invariant
            i <= v.len(),
            forall|j: int| 0 <= j < i ==> v@[j] != t,
        decreases v.len() - i,
    {
        if v[i] == t {
            assert(v@[i as int] == t);
            return true;
        }
        i = i + 1;
    }
    false
}

/// When an effect's timer ends, from a start time and a duration.
pub open spec fn expiry(ts: i64, duration_ms: Option<i64>) -> Option<i64> {
    match duration_ms {
        Some(d) => Some(sat_add(ts, d)),
        None => None,
    }
}

fn expiry_of(ts: i64, duration_ms: Option<i64>) -> (r: Option<i64>)
    ensures
        r == expiry(ts, duration_ms),
{
    match duration_ms {
        Some(d) => Some(add_ms(ts, d)),
        None => None,
    }
}

/// A new effect of definition `r`, applied at `ts` by `source` to `target`.
pub open spec fn new_effect(
    r: EffectRule,
    key: EffectKey,
    game_id: u64,
    source: EntityRef,
    target: EntityRef,
    from_local: bool,
    ts: i64,
) -> ActiveEffect {
    ActiveEffect {
        key,
        game_effect_id: game_id,
        source_id: source.id,
        source_name: source.name,
        target_id: target.id,
        target_name: target.name,
        is_from_local: from_local,
        applied_at: ts,
        last_refreshed_at: ts,
        duration_ms: r.duration_ms,
        expires_at: expiry(ts, r.duration_ms),
        cooldown_ready_ms: r.cooldown_ready_ms,
        stacks: 0,
        removed: false,
        timer_expired: false,
        on_end_alert_fired: false,
        alert_on_expire: r.alert_on == AlertOn::OnExpire,
        max_expires_at: None,
        modifier_procs: ProcList::Empty,
        name: r.name,
        display_text: r.shown_text(),
        color: r.spec_effective_color(),
        icon_ability_id: match r.icon_ability_id {
            Some(i) => i,
            None => game_id,
        },
    }
}

fn make_effect(
    r: &EffectRule,
    key: EffectKey,
    game_id: u64,
    source: &EntityRef,
    target: &EntityRef,
    from_local: bool,
    ts: i64,
) -> (e: ActiveEffect)
    ensures
        e == new_effect(*r, key, game_id, *source, *target, from_local, ts),
{
    ActiveEffect {
        key,
        game_effect_id: game_id,
        source_id: source.id,
        source_name: source.name.clone(),
        target_id: target.id,
        target_name: target.name.clone(),
        is_from_local: from_local,
        applied_at: ts,
        last_refreshed_at: ts,
        duration_ms: r.duration_ms,
        expires_at: expiry_of(ts, r.duration_ms),
        cooldown_ready_ms: r.cooldown_ready_ms,
        stacks: 0,
        removed: false,
        timer_expired: false,
        on_end_alert_fired: false,
        alert_on_expire: r.alert_on == AlertOn::OnExpire,
        max_expires_at: None,
        modifier_procs: ProcList::Empty,
        name: r.name.clone(),
        display_text: r.shown_text_owned(),
        color: r.effective_color(),
        icon_ability_id: match r.icon_ability_id {
            Some(i) => i,
            None => game_id,
        },
    }
}

/// An effect restarted at `ts` with a new duration: live again, timer
/// running from `ts`.
pub open spec fn refreshed(e: ActiveEffect, ts: i64, duration_ms: Option<i64>) -> ActiveEffect {
    ActiveEffect {
        applied_at: ts,
        last_refreshed_at: ts,
        duration_ms,
        expires_at: expiry(ts, duration_ms),
        removed: false,
        timer_expired: false,
        on_end_alert_fired: false,
        ..e
    }
}

fn refresh_effect(e: ActiveEffect, ts: i64, duration_ms: Option<i64>) -> (r: ActiveEffect)
    ensures
        r == refreshed(e, ts, duration_ms),
{
    ActiveEffect {
        applied_at: ts,
        last_refreshed_at: ts,
        duration_ms,
        expires_at: expiry_of(ts, duration_ms),
        removed: false,
        timer_expired: false,
        on_end_alert_fired: false,
        ..e
    }
}

/// The stack count after an event that may carry charges.
pub open spec fn with_charges(e: ActiveEffect, charges: Option<u8>) -> ActiveEffect {
    match charges {
        Some(c) => ActiveEffect { stacks: c, ..e },
        None => e,
    }
}

fn set_charges(e: ActiveEffect, charges: Option<u8>) -> (r: ActiveEffect)
    ensures
        r == with_charges(e, charges),
{
    match charges {
        Some(c) => ActiveEffect { stacks: c, ..e },
        None => e,
    }
}

/// Whether the effect is still within its base duration at `ts` (before the
/// ready-state tail of a cooldown; an effect without a timer always is).
pub open spec fn in_base_duration(e: ActiveEffect, ts: i64) -> bool {
    match e.expires_at {
        Some(x) => ts < sat_sub(x, e.cooldown_ready_ms),
        None => true,
    }
}

fn is_in_base_duration(e: &ActiveEffect, ts: i64) -> (r: bool)
    ensures
        r == in_base_duration(*e, ts),
{
    match e.expires_at {
        Some(x) => ts < sub_ms(x, e.cooldown_ready_ms),
        None => true,
    }
}

/// The state of the tracker.
pub struct TrackerView {
    pub effects: Seq<ActiveEffect>,
    pub alerts: Seq<AlertView>,
    pub new_targets: Seq<NewTargetInfo>,
    /// How many effects are live and running their timer.
    pub ticking: u64,
    /// The latest game time seen.
    pub game_time: Option<i64>,
    pub local_player_id: Option<i64>,
    pub pending_dot: Option<PendingDotRefresh>,
    pub pending_aoe: Option<PendingAoeRefresh>,
    pub aoe_collecting: Option<AoeView>,
    /// Each entity's current target, as the last target change set it.
    pub current_targets: Seq<(i64, EntityRef)>,
    /// The local player's discipline, when known.
    pub local_discipline: Option<i64>,
    /// Each player's last seen discipline.
    pub player_disciplines: Seq<(i64, i64)>,
}

/// One more, held to the `u64` range.
pub open spec fn inc(n: u64) -> u64 {
    if n < u64::MAX {
        (n + 1) as u64
    } else {
        n
    }
}

/// One less, not below zero.
pub open spec fn dec(n: u64) -> u64 {
    if n > 0 {
        (n - 1) as u64
    } else {
        0
    }
}

/// The game time after an event at `ts`: it never goes back.
pub open spec fn advanced(t: Option<i64>, ts: i64) -> Option<i64> {
    match t {
        Some(g) => Some(if ts > g { ts } else { g }),
        None => Some(ts),
    }
}

/// The alert of an instant-alert definition: its alert text (or else its
/// name, for the audio only) with the names filled in.
pub open spec fn instant_alert(r: EffectRule, ts: i64, source_name: Seq<char>, target_name: Seq<char>) -> AlertView {
    AlertView {
        id: r.id@,
        name: r.name@,
        text: spec_format_effect_alert(
            match r.alert_text {
                Some(t) => t@,
                None => r.name@,
            },
            source_name,
            target_name,
        ),
        timestamp: ts,
        alert_text_enabled: r.alert_text is Some,
        audio_enabled: r.audio_enabled,
        audio_file: opt_view(r.audio_file),
        color: r.color,
        icon_ability_id: r.icon_ability_id,
    }
}

/// The alert that starting or refreshing an effect fires: its alert text,
/// for definitions that alert on apply and have one.
pub open spec fn on_apply_alerts(r: EffectRule, ts: i64) -> Seq<AlertView> {
    if r.alert_on == AlertOn::OnApply && r.alert_text is Some {
        seq![
            AlertView {
                id: r.id@,
                name: r.name@,
                text: r.alert_text->0@,
                timestamp: ts,
                alert_text_enabled: true,
                audio_enabled: false,
                audio_file: None,
                color: r.color,
                icon_ability_id: r.icon_ability_id,
            },
        ]
    } else {
        Seq::empty()
    }
}

/// The definition whose effect another player's cast of `id` merges into.
pub open spec fn dominant_of(id: Seq<char>) -> Option<Seq<char>> {
    if id == "kolto_shell_others"@ {
        Some("kolto_shell"@)
    } else if id == "trauma_probe_others"@ {
        Some("trauma_probe"@)
    } else {
        None
    }
}

/// The target of an event as a raid frame registration.
pub open spec fn target_info(t: EntityRef) -> NewTargetInfo {
    NewTargetInfo { entity_id: t.id, name: t.name }
}

/// One matching definition's part of an `EffectApplied`: the state after,
/// and whether an effect was started or refreshed. `ok` is whether the
/// definition triggers on applied effects and its filters pass.
pub open spec fn applied_step(st: TrackerView, r: EffectRule, ok: bool, ev: EffectEvent) -> (TrackerView, bool) {
    let ts = ev.timestamp;
    if !ok {
        (st, false)
    } else if r.is_alert {
        (
            TrackerView {
                alerts: st.alerts.push(instant_alert(r, ts, ev.source.name@, ev.target.name@)),
                ..st
            },
            false,
        )
    } else {
        let dom = match dominant_of(r.id@) {
            Some(d) => find_on_target(st.effects, d, ev.target.id),
            None => None,
        };
        if dom is Some && !st.effects[dom->0].removed {
            let i = dom->0;
            (
                TrackerView {
                    effects: st.effects.update(
                        i,
                        with_charges(refreshed(st.effects[i], ts, r.duration_ms), ev.charges),
                    ),
                    new_targets: if ev.target.is_player {
                        st.new_targets.push(target_info(ev.target))
                    } else {
                        st.new_targets
                    },
                    ..st
                },
                false,
            )
        } else {
            applied_own(st, r, ev)
        }
    }
}

/// A definition's own effect on an `EffectApplied`: a DOT-tracker effect
/// is revived when removed, else only marked as just refreshed (its damage
/// confirms the refresh); a duplicate log line only updates the stacks; an
/// effect that ignores refreshes keeps running in its base duration; else
/// the effect is refreshed, or started when there is none.
pub open spec fn applied_own(st: TrackerView, r: EffectRule, ev: EffectEvent) -> (TrackerView, bool) {
    let ts = ev.timestamp;
    let key = key_for(r, ev.source.id, ev.target.id);
    match find_key(st.effects, key) {
        Some(i) => {
            let e = st.effects[i];
            if r.display_targets@.contains(DisplayTarget::DotTracker) {
                if e.removed {
                    (
                        TrackerView {
                            effects: st.effects.update(i, refreshed(e, ts, r.duration_ms)),
                            ticking: inc(st.ticking),
                            ..st
                        },
                        false,
                    )
                } else {
                    (
                        TrackerView {
                            effects: st.effects.update(
                                i,
                                with_charges(ActiveEffect { last_refreshed_at: ts, ..e }, ev.charges),
                            ),
                            ..st
                        },
                        false,
                    )
                }
            } else if e.last_refreshed_at == ts {
                (TrackerView { effects: st.effects.update(i, with_charges(e, ev.charges)), ..st }, false)
            } else if r.ignore_refreshes && in_base_duration(e, ts) {
                (st, false)
            } else {
                (
                    TrackerView {
                        effects: st.effects.update(
                            i,
                            with_charges(refreshed(e, ts, r.duration_ms), ev.charges),
                        ),
                        alerts: st.alerts + on_apply_alerts(r, ts),
                        ..st
                    },
                    true,
                )
            }
        },
        None => (
            TrackerView {
                effects: st.effects.push(
                    with_charges(
                        new_effect(
                            r,
                            key,
                            ev.effect_id as u64,
                            ev.source,
                            ev.target,
                            st.local_player_id == Some(ev.source.id),
                            ts,
                        ),
                        ev.charges,
                    ),
                ),
                ticking: inc(st.ticking),
                alerts: st.alerts + on_apply_alerts(r, ts),
                ..st
            },
            true,
        ),
    }
}

/// Whether the filters of definition `r` pass for the event at hand, as
/// `passes` decides them.
pub open spec fn verdict<F: Fn(&EffectRule) -> bool>(passes: F, r: EffectRule) -> bool {
    passes.ensures((&r,), true)
}

/// `passes` gives one answer per definition.
pub open spec fn decides<F: Fn(&EffectRule) -> bool>(passes: F) -> bool {
    &&& forall|r: EffectRule| passes.requires((&r,))
    &&& forall|r: EffectRule, a: bool, b: bool| passes.ensures((&r,), a) && passes.ensures((&r,), b) ==> a == b
}

/// The matching definitions' parts of an `EffectApplied`, in order.
pub open spec fn applied_fold<F: Fn(&EffectRule) -> bool>(st: TrackerView, rules: Seq<EffectRule>, ev: EffectEvent, passes: F) -> (TrackerView, bool)
    decreases rules.len(),
{
    if rules.len() == 0 {
        (st, false)
    } else {
        let prev = applied_fold(st, rules.drop_last(), ev, passes);
        let r = rules.last();
        let step = applied_step(prev.0, r, r.trigger == TriggerKind::EffectApplied && verdict(passes, r), ev);
        (step.0, prev.1 || step.1)
    }
}

/// The tracker after an `EffectApplied`: the game time advances; each
/// definition that matches the effect by ID or name, triggers on applied
/// effects and passes its filters fires its instant alert, refreshes the
/// effect it merges into, or starts or refreshes its own effect; and the
/// target is queued for raid frames when the local player started or
/// refreshed an effect on a player.
pub open spec fn spec_effect_applied<F: Fn(&EffectRule) -> bool>(
    st: TrackerView,
    defs: Seq<(DefinitionKeys, EffectRule)>,
    ev: EffectEvent,
    passes: F,
) -> TrackerView {
    let rules = spec_find(defs, SelectorKind::Effect, ev.effect_id as u64, Some(ev.effect_name@));
    let st0 = TrackerView { game_time: advanced(st.game_time, ev.timestamp), ..st };
    let (st1, register) = applied_fold(st0, rules, ev, passes);
    if register && st.local_player_id == Some(ev.source.id) && ev.target.is_player {
        TrackerView { new_targets: st1.new_targets.push(target_info(ev.target)), ..st1 }
    } else {
        st1
    }
}

/// The mutable state of the tracker.
pub struct TrackerCore {
    effects: Vec<ActiveEffect>,
    alerts: Vec<FiredAlert>,
    new_targets: Vec<NewTargetInfo>,
    ticking: u64,
    game_time: Option<i64>,
    local_player_id: Option<i64>,
    pending_dot: Option<PendingDotRefresh>,
    pending_aoe: Option<PendingAoeRefresh>,
    aoe_collecting: Option<AoeCollecting>,
    current_targets: Vec<(i64, EntityRef)>,
    local_discipline: Option<i64>,
    player_disciplines: Vec<(i64, i64)>,
}

impl View for TrackerCore {
    type V = TrackerView;

    closed spec fn view(&self) -> TrackerView {
        TrackerView {
            effects: self.effects@,
            alerts: alert_views(self.alerts@),
            new_targets: self.new_targets@,
            ticking: self.ticking,
            game_time: self.game_time,
            local_player_id: self.local_player_id,
            pending_dot: self.pending_dot,
            pending_aoe: self.pending_aoe,
            aoe_collecting: aoe_view(self.aoe_collecting),
            current_targets: self.current_targets@,
            local_discipline: self.local_discipline,
            player_disciplines: self.player_disciplines@,
        }
    }
}

fn clone_opt(o: &Option<String>) -> (r: Option<String>)
    ensures
        r == *o,
{
    match o {
        Some(s) => Some(s.clone()),
        None => None,
    }
}

fn copy_effect(e: &ActiveEffect) -> (r: ActiveEffect)
    ensures
        r == *e,
{
    ActiveEffect {
        key: EffectKey {
            definition_id: e.key.definition_id.clone(),
            source_id: e.key.source_id,
            target_id: e.key.target_id,
        },
        game_effect_id: e.game_effect_id,
        source_id: e.source_id,
        source_name: e.source_name.clone(),
        target_id: e.target_id,
        target_name: e.target_name.clone(),
        is_from_local: e.is_from_local,
        applied_at: e.applied_at,
        last_refreshed_at: e.last_refreshed_at,
        duration_ms: e.duration_ms,
        expires_at: e.expires_at,
        cooldown_ready_ms: e.cooldown_ready_ms,
        stacks: e.stacks,
        removed: e.removed,
        timer_expired: e.timer_expired,
        on_end_alert_fired: e.on_end_alert_fired,
        alert_on_expire: e.alert_on_expire,
        max_expires_at: e.max_expires_at,
        modifier_procs: copy_procs(&e.modifier_procs),
        name: e.name.clone(),
        display_text: e.display_text.clone(),
        color: e.color,
        icon_ability_id: e.icon_ability_id,
    }
}

fn clone_entity(e: &EntityRef) -> (r: EntityRef)
    ensures
        r == *e,
{
    EntityRef { id: e.id, name: e.name.clone(), is_player: e.is_player }
}

fn is_dominated(id: &str) -> (r: Option<&'static str>)
    ensures
        opt_str_view(r) == dominant_of(id@),
{
    proof {
        reveal_strlit("kolto_shell_others");
        reveal_strlit("trauma_probe_others");
        reveal_strlit("kolto_shell");
        reveal_strlit("trauma_probe");
    }
    if str_eq(id, "kolto_shell_others") {
        Some("kolto_shell")
    } else if str_eq(id, "trauma_probe_others") {
        Some("trauma_probe")
    } else {
        None
    }
}

impl TrackerCore {
    fn new() -> (r: Self)
        ensures
            r@ == (TrackerView {
                effects: Seq::empty(),
                alerts: Seq::empty(),
                new_targets: Seq::empty(),
                ticking: 0,
                game_time: None,
                local_player_id: None,
                pending_dot: None,
                pending_aoe: None,
                aoe_collecting: None,
                current_targets: Seq::empty(),
                local_discipline: None,
                player_disciplines: Seq::empty(),
            }),
    {
        let r = TrackerCore {
            effects: Vec::new(),
            alerts: Vec::new(),
            new_targets: Vec::new(),
            ticking: 0,
            game_time: None,
            local_player_id: None,
            pending_dot: None,
            pending_aoe: None,
            aoe_collecting: None,
            current_targets: Vec::new(),
            local_discipline: None,
            player_disciplines: Vec::new(),
        };
        assert(alert_views(r.alerts@) =~= Seq::<AlertView>::empty());
        r
    }

    fn push_alert(&mut self, a: FiredAlert)
        ensures
            final(self)@ == (TrackerView { alerts: old(self)@.alerts.push(a@), ..old(self)@ }),
    {
        let ghost before = self.alerts@;
        self.alerts.push(a);
        assert(alert_views(self.alerts@) =~= alert_views(before).push(a@));
    }

    fn push_on_apply(&mut self, r: &EffectRule, ts: i64)
        ensures
            final(self)@ == (TrackerView { alerts: old(self)@.alerts + on_apply_alerts(*r, ts), ..old(self)@ }),
    {
        if r.alert_on == AlertOn::OnApply {
            if let Some(text) = &r.alert_text {
                let a = FiredAlert {
                    id: r.id.clone(),
                    name: r.name.clone(),
                    text: text.clone(),
                    timestamp: ts,
                    alert_text_enabled: true,
                    audio_enabled: false,
                    audio_file: None,
                    color: r.color,
                    icon_ability_id: r.icon_ability_id,
                };
                let ghost before = self@.alerts;
                self.push_alert(a);
                assert(before.push(a@) =~= before + on_apply_alerts(*r, ts));
                return;
            }
        }
        assert(self@.alerts + on_apply_alerts(*r, ts) =~= self@.alerts);
    }

    fn push_instant(&mut self, r: &EffectRule, ts: i64, source_name: &str, target_name: &str)
        ensures
            final(self)@ == (TrackerView {
                alerts: old(self)@.alerts.push(instant_alert(*r, ts, source_name@, target_name@)),
                ..old(self)@
            }),
    {
        let raw: &str = match &r.alert_text {
            Some(t) => t.as_str(),
            None => r.name.as_str(),
        };
        let text = format_effect_alert(raw, source_name, target_name);
        self.push_alert(
            FiredAlert {
                id: r.id.clone(),
                name: r.name.clone(),
                text,
                timestamp: ts,
                alert_text_enabled: r.alert_text.is_some(),
                audio_enabled: r.audio_enabled,
                audio_file: clone_opt(&r.audio_file),
                color: r.color,
                icon_ability_id: r.icon_ability_id,
            },
        );
    }

    fn replace_effect(&mut self, i: usize, e: ActiveEffect)
        requires
            i < old(self)@.effects.len(),
        ensures
            final(self)@ == (TrackerView { effects: old(self)@.effects.update(i as int, e), ..old(self)@ }),
    {
        let ghost before = self.effects@;
        self.effects.set(i, e);
        assert(self.effects@ =~= before.update(i as int, e));
    }

    fn take_effect(&self, i: usize) -> (e: ActiveEffect)
        requires
            i < self@.effects.len(),
        ensures
            e == self@.effects[i as int],
    {
        copy_effect(&self.effects[i])
    }

    fn advance(&mut self, ts: i64)
        ensures
            final(self)@ == (TrackerView { game_time: advanced(old(self)@.game_time, ts), ..old(self)@ }),
    {
        self.game_time = match self.game_time {
            Some(g) => Some(if ts > g { ts } else { g }),
            None => Some(ts),
        };
    }

    fn push_target(&mut self, t: &EntityRef)
        ensures
            final(self)@ == (TrackerView { new_targets: old(self)@.new_targets.push(target_info(*t)), ..old(self)@ }),
    {
        self.new_targets.push(NewTargetInfo { entity_id: t.id, name: t.name.clone() });
    }

    /// One matching definition's part of an `EffectApplied` (see `applied_step`).
    #[verifier::rlimit(40)]
    fn apply_one(&mut self, r: &EffectRule, ok: bool, ev: &EffectEvent) -> (reg: bool)
        ensures
            (final(self)@, reg) == applied_step(old(self)@, *r, ok, *ev),
    {
        let ts = ev.timestamp;
        if !ok {
            return false;
        }
        if r.is_alert {
            self.push_instant(r, ts, ev.source.name.as_str(), ev.target.name.as_str());
            return false;
        }
        let dom = match is_dominated(r.id.as_str()) {
            Some(d) => position_on_target(&self.effects, d, ev.target.id),
            None => None,
        };
        if let Some(i) = dom {
            if !self.effects[i].removed {
                let e = self.take_effect(i);
                let e2 = set_charges(refresh_effect(e, ts, r.duration_ms), ev.charges);
                self.replace_effect(i, e2);
                if ev.target.is_player {
                    self.push_target(&ev.target);
                }
                return false;
            }
        }
        self.apply_own(r, ev)
    }
}

impl TrackerCore {
    /// A definition's own effect on an `EffectApplied` (see `applied_own`).
    #[verifier::rlimit(40)]
    fn apply_own(&mut self, r: &EffectRule, ev: &EffectEvent) -> (reg: bool)
        ensures
            (final(self)@, reg) == applied_own(old(self)@, *r, *ev),
    {
        let ts = ev.timestamp;
        let key = make_key(r, ev.source.id, ev.target.id);
        match position_of_key(&self.effects, &key) {
            Some(i) => {
                let e = self.take_effect(i);
                if shows_on(&r.display_targets, DisplayTarget::DotTracker) {
                    if e.removed {
                        self.replace_effect(i, refresh_effect(e, ts, r.duration_ms));
                        self.ticking = self.ticking.saturating_add(1);
                    } else {
                        let e2 = set_charges(ActiveEffect { last_refreshed_at: ts, ..e }, ev.charges);
                        self.replace_effect(i, e2);
                    }
                    false
                } else if e.last_refreshed_at == ts {
                    self.replace_effect(i, set_charges(e, ev.charges));
                    false
                } else if r.ignore_refreshes && is_in_base_duration(&e, ts) {
                    false
                } else {
                    self.replace_effect(i, set_charges(refresh_effect(e, ts, r.duration_ms), ev.charges));
                    self.push_on_apply(r, ts);
                    true
                }
            },
            None => {
                let from_local = self.local_player_id == Some(ev.source.id);
                let e = make_effect(
                    r,
                    key,
                    ev.effect_id as u64,
                    &ev.source,
                    &ev.target,
                    from_local,
                    ts,
                );
                self.effects.push(set_charges(e, ev.charges));
                self.ticking = self.ticking.saturating_add(1);
                self.push_on_apply(r, ts);
                true
            },
        }
    }
}

/// One matching definition's part of an ability cast. `source_ok`: the
/// definition triggers on casts and its discipline and source checks pass;
/// `target_ok`: its target checks pass. The effect is tracked on the caster.
pub open spec fn cast_step(st: TrackerView, r: EffectRule, source_ok: bool, target_ok: bool, ev: AbilityEvent) -> TrackerView {
    let ts = ev.timestamp;
    if !source_ok {
        st
    } else if r.is_alert {
        TrackerView { alerts: st.alerts.push(instant_alert(r, ts, ev.source.name@, ev.target.name@)), ..st }
    } else if !target_ok {
        st
    } else {
        started_or_refreshed(st, r, key_for(r, ev.source.id, ev.source.id), ev.ability_id as u64, ev.source, ev.source, ts)
    }
}

/// A timed effect started, or restarted unless it ignores refreshes while
/// in its base duration, with the definition's apply alert.
pub open spec fn started_or_refreshed(
    st: TrackerView,
    r: EffectRule,
    key: EffectKey,
    game_id: u64,
    source: EntityRef,
    target: EntityRef,
    ts: i64,
) -> TrackerView {
    match find_key(st.effects, key) {
        Some(i) => if r.ignore_refreshes && in_base_duration(st.effects[i], ts) {
            st
        } else {
            TrackerView {
                effects: st.effects.update(i, refreshed(st.effects[i], ts, r.duration_ms)),
                alerts: st.alerts + on_apply_alerts(r, ts),
                ..st
            }
        },
        None => TrackerView {
            effects: st.effects.push(
                new_effect(r, key, game_id, source, target, st.local_player_id == Some(source.id), ts),
            ),
            ticking: inc(st.ticking),
            alerts: st.alerts + on_apply_alerts(r, ts),
            ..st
        },
    }
}

/// The matching definitions' parts of an ability cast, in order.
pub open spec fn cast_fold<F: Fn(&EffectRule) -> bool, G: Fn(&EffectRule) -> bool>(
    st: TrackerView,
    rules: Seq<EffectRule>,
    ev: AbilityEvent,
    source_passes: F,
    target_passes: G,
) -> TrackerView
    decreases rules.len(),
{
    if rules.len() == 0 {
        st
    } else {
        let prev = cast_fold(st, rules.drop_last(), ev, source_passes, target_passes);
        let r = rules.last();
        cast_step(
            prev,
            r,
            r.trigger == TriggerKind::AbilityCast && verdict(source_passes, r),
            verdict(target_passes, r),
            ev,
        )
    }
}

/// The tracker after an ability cast: each definition that matches the
/// ability by ID or name, triggers on casts and passes its checks fires its
/// instant alert, or starts or restarts its effect on the caster.
pub open spec fn spec_ability_cast<F: Fn(&EffectRule) -> bool, G: Fn(&EffectRule) -> bool>(
    st: TrackerView,
    defs: Seq<(DefinitionKeys, EffectRule)>,
    ev: AbilityEvent,
    source_passes: F,
    target_passes: G,
) -> TrackerView {
    cast_fold(
        st,
        spec_find(defs, SelectorKind::Ability, ev.ability_id as u64, Some(ev.ability_name@)),
        ev,
        source_passes,
        target_passes,
    )
}

/// One matching definition's part of damage or healing taken, for
/// definitions that trigger on `kind`: an instant alert, or a timed effect
/// started or restarted on the target.
pub open spec fn taken_step(st: TrackerView, r: EffectRule, ok: bool, ev: AbilityEvent) -> TrackerView {
    let ts = ev.timestamp;
    if !ok {
        st
    } else if r.is_alert {
        TrackerView { alerts: st.alerts.push(instant_alert(r, ts, ev.source.name@, ev.target.name@)), ..st }
    } else {
        started_or_refreshed(st, r, key_for(r, ev.source.id, ev.target.id), ev.ability_id as u64, ev.source, ev.target, ts)
    }
}

/// The matching definitions' parts of damage or healing taken, in order.
pub open spec fn taken_fold<F: Fn(&EffectRule) -> bool>(
    st: TrackerView,
    rules: Seq<EffectRule>,
    kind: TriggerKind,
    ev: AbilityEvent,
    passes: F,
) -> TrackerView
    decreases rules.len(),
{
    if rules.len() == 0 {
        st
    } else {
        let prev = taken_fold(st, rules.drop_last(), kind, ev, passes);
        let r = rules.last();
        taken_step(prev, r, r.trigger == kind && verdict(passes, r), ev)
    }
}

/// The tracker after damage or healing taken with an ability, for the
/// definitions that trigger on `kind`.
pub open spec fn spec_ability_taken<F: Fn(&EffectRule) -> bool>(
    st: TrackerView,
    defs: Seq<(DefinitionKeys, EffectRule)>,
    kind: TriggerKind,
    ev: AbilityEvent,
    passes: F,
) -> TrackerView {
    taken_fold(
        TrackerView { game_time: advanced(st.game_time, ev.timestamp), ..st },
        spec_find(defs, SelectorKind::Ability, ev.ability_id as u64, Some(ev.ability_name@)),
        kind,
        ev,
        passes,
    )
}

/// The refresh ability of `r` that `refresh_for` resolves for the event.
pub open spec fn chosen_refresh<G: Fn(&EffectRule) -> Option<RefreshRule>>(refresh_for: G, r: EffectRule) -> Option<RefreshRule> {
    choose|o: Option<RefreshRule>| refresh_for.ensures((&r,), o)
}

/// `refresh_for` gives one answer per definition.
pub open spec fn resolves<G: Fn(&EffectRule) -> Option<RefreshRule>>(refresh_for: G) -> bool {
    &&& forall|r: EffectRule| refresh_for.requires((&r,))
    &&& forall|r: EffectRule, a: Option<RefreshRule>, b: Option<RefreshRule>|
        refresh_for.ensures((&r,), a) && refresh_for.ensures((&r,), b) ==> a == b
}

/// Whether a refresh ability applies to an event of kind `trigger`.
pub open spec fn refresh_applies(rr: Option<RefreshRule>, trigger: RefreshTrigger, immune_or_resist: bool) -> bool {
    rr matches Some(x) && x.trigger == trigger && !(immune_or_resist && x.ignore_immune_resist)
}

/// One refreshable definition's part of a refresh by an action. A refresh
/// that waits for the first damage is set pending; else the effect on the
/// target (or, for a non-player target, on the caster) is refreshed unless
/// removed or short of the required stacks; a missing raid-frame effect is
/// created, unless stacks are required.
pub open spec fn refresh_step(st: TrackerView, r: EffectRule, rr: RefreshRule, trigger: RefreshTrigger, ev: AbilityEvent) -> TrackerView {
    let ts = ev.timestamp;
    let raid = r.display_targets@.contains(DisplayTarget::RaidFrames);
    if trigger == RefreshTrigger::Activation && rr.defer_to_first_damage {
        TrackerView {
            pending_dot: Some(PendingDotRefresh { ability_id: ev.ability_id, source_id: ev.source.id, timestamp: ts }),
            ..st
        }
    } else {
        let key = key_for(r, ev.source.id, ev.target.id);
        let fallback = key_for(r, ev.source.id, ev.source.id);
        let matched = if find_key(st.effects, key) is Some {
            find_key(st.effects, key)
        } else if ev.target.id != ev.source.id && !ev.target.is_player {
            find_key(st.effects, fallback)
        } else {
            None
        };
        match matched {
            Some(i) => {
                let e = st.effects[i];
                if e.removed || (rr.min_stacks matches Some(m) && e.stacks < m) {
                    st
                } else {
                    TrackerView {
                        effects: st.effects.update(i, refreshed(e, ts, r.duration_ms)),
                        new_targets: if raid && ev.target.is_player {
                            st.new_targets.push(target_info(ev.target))
                        } else {
                            st.new_targets
                        },
                        ..st
                    }
                }
            },
            None => if raid && rr.min_stacks is None {
                let e = new_effect(
                    r,
                    key,
                    ev.ability_id as u64,
                    ev.source,
                    ev.target,
                    st.local_player_id == Some(ev.source.id),
                    ts,
                );
                TrackerView {
                    effects: st.effects.push(with_charges(e, r.default_charges)),
                    ticking: inc(st.ticking),
                    new_targets: if ev.target.is_player {
                        st.new_targets.push(target_info(ev.target))
                    } else {
                        st.new_targets
                    },
                    ..st
                }
            } else {
                st
            },
        }
    }
}

/// The refreshable definitions' parts of a refresh by an action, in order.
pub open spec fn refresh_fold<F: Fn(&EffectRule) -> bool, G: Fn(&EffectRule) -> Option<RefreshRule>>(
    st: TrackerView,
    rules: Seq<EffectRule>,
    trigger: RefreshTrigger,
    ev: AbilityEvent,
    passes: F,
    refresh_for: G,
) -> TrackerView
    decreases rules.len(),
{
    if rules.len() == 0 {
        st
    } else {
        let prev = refresh_fold(st, rules.drop_last(), trigger, ev, passes, refresh_for);
        let r = rules.last();
        let rr = chosen_refresh(refresh_for, r);
        if verdict(passes, r) && refresh_applies(rr, trigger, ev.immune_or_resist) {
            refresh_step(prev, r, rr->0, trigger, ev)
        } else {
            prev
        }
    }
}

/// The tracker after an action that can refresh effects (an activation, a
/// heal or a damage hit, as `trigger` says): nothing for an untargeted
/// action; else each definition that the action can refresh, whose checks
/// pass and whose refresh ability applies, takes its part.
pub open spec fn spec_refresh_by_action<F: Fn(&EffectRule) -> bool, G: Fn(&EffectRule) -> Option<RefreshRule>>(
    st: TrackerView,
    defs: Seq<(DefinitionKeys, EffectRule)>,
    trigger: RefreshTrigger,
    ev: AbilityEvent,
    passes: F,
    refresh_for: G,
) -> TrackerView {
    if ev.target.id == 0 {
        st
    } else {
        refresh_fold(
            st,
            spec_find_refreshable(defs, ev.ability_id as u64, Some(ev.ability_name@)),
            trigger,
            ev,
            passes,
            refresh_for,
        )
    }
}

impl TrackerCore {
    fn start_or_refresh(
        &mut self,
        r: &EffectRule,
        key: EffectKey,
        game_id: u64,
        source: &EntityRef,
        target: &EntityRef,
        ts: i64,
    )
        ensures
            final(self)@ == started_or_refreshed(old(self)@, *r, key, game_id, *source, *target, ts),
    {
        match position_of_key(&self.effects, &key) {
            Some(i) => {
                let e = self.take_effect(i);
                if r.ignore_refreshes && is_in_base_duration(&e, ts) {
                    return;
                }
                self.replace_effect(i, refresh_effect(e, ts, r.duration_ms));
                self.push_on_apply(r, ts);
            },
            None => {
                let from_local = self.local_player_id == Some(source.id);
                let e = make_effect(r, key, game_id, source, target, from_local, ts);
                self.effects.push(e);
                self.ticking = self.ticking.saturating_add(1);
                self.push_on_apply(r, ts);
            },
        }
    }

    fn cast_one(&mut self, r: &EffectRule, source_ok: bool, target_ok: bool, ev: &AbilityEvent)
        ensures
            final(self)@ == cast_step(old(self)@, *r, source_ok, target_ok, *ev),
    {
        if !source_ok {
            return;
        }
        if r.is_alert {
            self.push_instant(r, ev.timestamp, ev.source.name.as_str(), ev.target.name.as_str());
            return;
        }
        if !target_ok {
            return;
        }
        let key = make_key(r, ev.source.id, ev.source.id);
        self.start_or_refresh(r, key, ev.ability_id as u64, &ev.source, &ev.source, ev.timestamp);
    }

    fn taken_one(&mut self, r: &EffectRule, ok: bool, ev: &AbilityEvent)
        ensures
            final(self)@ == taken_step(old(self)@, *r, ok, *ev),
    {
        if !ok {
            return;
        }
        if r.is_alert {
            self.push_instant(r, ev.timestamp, ev.source.name.as_str(), ev.target.name.as_str());
            return;
        }
        let key = make_key(r, ev.source.id, ev.target.id);
        self.start_or_refresh(r, key, ev.ability_id as u64, &ev.source, &ev.target, ev.timestamp);
    }

    #[verifier::rlimit(40)]
    fn refresh_one(&mut self, r: &EffectRule, rr: RefreshRule, trigger: RefreshTrigger, ev: &AbilityEvent)
        ensures
            final(self)@ == refresh_step(old(self)@, *r, rr, trigger, *ev),
    {
        let ts = ev.timestamp;
        if trigger == RefreshTrigger::Activation && rr.defer_to_first_damage {
            self.pending_dot = Some(PendingDotRefresh { ability_id: ev.ability_id, source_id: ev.source.id, timestamp: ts });
            return;
        }
        let raid = shows_on(&r.display_targets, DisplayTarget::RaidFrames);
        let key = make_key(r, ev.source.id, ev.target.id);
        let fallback = make_key(r, ev.source.id, ev.source.id);
        let matched = match position_of_key(&self.effects, &key) {
            Some(i) => Some(i),
            None => if ev.target.id != ev.source.id && !ev.target.is_player {
                position_of_key(&self.effects, &fallback)
            } else {
                None
            },
        };
        match matched {
            Some(i) => {
                let e = self.take_effect(i);
                let short = match rr.min_stacks {
                    Some(m) => e.stacks < m,
                    None => false,
                };
                if e.removed || short {
                    return;
                }
                self.replace_effect(i, refresh_effect(e, ts, r.duration_ms));
                if raid && ev.target.is_player {
                    self.push_target(&ev.target);
                }
            },
            None => {
                if raid && rr.min_stacks.is_none() {
                    let from_local = self.local_player_id == Some(ev.source.id);
                    let e = make_effect(r, key, ev.ability_id as u64, &ev.source, &ev.target, from_local, ts);
                    self.effects.push(set_charges(e, r.default_charges));
                    self.ticking = self.ticking.saturating_add(1);
                    if ev.target.is_player {
                        self.push_target(&ev.target);
                    }
                }
            },
        }
    }
}

/// The effect at `i` marked removed; the live count drops when it was
/// live and its timer still running.
pub open spec fn mark_removed_at(st: TrackerView, i: int) -> TrackerView {
    let e = st.effects[i];
    if e.removed {
        st
    } else {
        TrackerView {
            effects: st.effects.update(i, ActiveEffect { removed: true, ..e }),
            ticking: if !e.timer_expired {
                dec(st.ticking)
            } else {
                st.ticking
            },
            ..st
        }
    }
}

/// One matching definition's part of an `EffectRemoved`. A definition that
/// tracks the applied effect marks it removed, unless it ignores removals,
/// is a cooldown, or was refreshed within the last second (a stale removal
/// of a reapplied effect). A definition that triggers on the removal (and
/// passes its filters) fires its instant alert or starts its effect.
pub open spec fn removed_step(st: TrackerView, r: EffectRule, ok: bool, ev: EffectEvent) -> TrackerView {
    let ts = ev.timestamp;
    let key = key_for(r, ev.source.id, ev.target.id);
    if r.trigger == TriggerKind::EffectApplied {
        match find_key(st.effects, key) {
            Some(i) => if !r.ignore_effect_removed && !r.display_targets@.contains(DisplayTarget::Cooldowns)
                && sat_sub(ts, st.effects[i].last_refreshed_at) > STALE_REMOVAL_MS {
                mark_removed_at(st, i)
            } else {
                st
            },
            None => st,
        }
    } else if r.trigger == TriggerKind::EffectRemoved && ok {
        if r.is_alert {
            TrackerView { alerts: st.alerts.push(instant_alert(r, ts, ev.source.name@, ev.target.name@)), ..st }
        } else {
            let e = new_effect(
                r,
                key,
                ev.effect_id as u64,
                ev.source,
                ev.target,
                st.local_player_id == Some(ev.source.id),
                ts,
            );
            TrackerView {
                effects: match find_key(st.effects, key) {
                    Some(i) => st.effects.update(i, e),
                    None => st.effects.push(e),
                },
                ticking: inc(st.ticking),
                alerts: st.alerts + on_apply_alerts(r, ts),
                ..st
            }
        }
    } else {
        st
    }
}

/// The matching definitions' parts of an `EffectRemoved`, in order.
pub open spec fn removed_fold<F: Fn(&EffectRule) -> bool>(st: TrackerView, rules: Seq<EffectRule>, ev: EffectEvent, passes: F) -> TrackerView
    decreases rules.len(),
{
    if rules.len() == 0 {
        st
    } else {
        let prev = removed_fold(st, rules.drop_last(), ev, passes);
        let r = rules.last();
        removed_step(prev, r, verdict(passes, r), ev)
    }
}

/// The tracker after an `EffectRemoved`: the game time advances and each
/// definition that matches the effect by ID or name takes its part.
pub open spec fn spec_effect_removed<F: Fn(&EffectRule) -> bool>(
    st: TrackerView,
    defs: Seq<(DefinitionKeys, EffectRule)>,
    ev: EffectEvent,
    passes: F,
) -> TrackerView {
    removed_fold(
        TrackerView { game_time: advanced(st.game_time, ev.timestamp), ..st },
        spec_find(defs, SelectorKind::Effect, ev.effect_id as u64, Some(ev.effect_name@)),
        ev,
        passes,
    )
}

/// Whether the effect's definition keeps it past its target's death.
pub open spec fn persists(defs: Seq<(DefinitionKeys, EffectRule)>, e: ActiveEffect) -> bool {
    def_entry(defs, e.key.definition_id@) matches Some(d) && d.1.persist_past_death
}

/// Whether the effect's definition is enabled and tracks outside combat.
pub open spec fn tracks_outside_combat(defs: Seq<(DefinitionKeys, EffectRule)>, e: ActiveEffect) -> bool {
    def_entry(defs, e.key.definition_id@) matches Some(d) && d.0.enabled && d.1.track_outside_combat
}

/// Why effects are cleared in bulk.
#[derive(Debug, Clone, Copy, PartialEq, Eq, Structural)]
pub enum Clearing {
    /// An entity died: its effects end unless they persist past death.
    Death(i64),
    /// Combat ended: effects that don't track outside combat end.
    CombatEnd,
    /// The player changed area: every effect ends.
    AreaChange,
}

/// Whether a clearing ends the effect.
pub open spec fn clears(defs: Seq<(DefinitionKeys, EffectRule)>, c: Clearing, e: ActiveEffect) -> bool {
    match c {
        Clearing::Death(id) => e.target_id == id && !persists(defs, e),
        Clearing::CombatEnd => !tracks_outside_combat(defs, e),
        Clearing::AreaChange => true,
    }
}

/// The first `n` effects cleared as `c` says.
pub open spec fn clear_fold(st: TrackerView, defs: Seq<(DefinitionKeys, EffectRule)>, c: Clearing, n: nat) -> TrackerView
    decreases n,
{
    if n == 0 {
        st
    } else {
        let prev = clear_fold(st, defs, c, (n - 1) as nat);
        if (n - 1) < prev.effects.len() && clears(defs, c, prev.effects[n - 1]) {
            mark_removed_at(prev, n - 1)
        } else {
            prev
        }
    }
}

/// The tracker after a death, a combat end or an area change: the effects
/// that it ends are marked removed; combat end and area change also drop
/// pending refreshes.
pub open spec fn spec_clear(st: TrackerView, defs: Seq<(DefinitionKeys, EffectRule)>, c: Clearing) -> TrackerView {
    let st0 = match c {
        Clearing::Death(_) => st,
        _ => TrackerView { pending_dot: None, pending_aoe: None, aoe_collecting: None, ..st },
    };
    clear_fold(st0, defs, c, st.effects.len())
}

/// One definition's part of a confirmed first-damage refresh: the effect of
/// the pending caster on the damaged target is refreshed, if live.
pub open spec fn dot_step(st: TrackerView, r: EffectRule, rr: Option<RefreshRule>, source_id: i64, ev: AbilityEvent) -> TrackerView {
    if rr matches Some(x) && x.defer_to_first_damage {
        match find_key(st.effects, key_for(r, source_id, ev.target.id)) {
            Some(i) => if !st.effects[i].removed {
                TrackerView {
                    effects: st.effects.update(i, refreshed(st.effects[i], ev.timestamp, r.duration_ms)),
                    ..st
                }
            } else {
                st
            },
            None => st,
        }
    } else {
        st
    }
}

/// The definitions' parts of a confirmed first-damage refresh, in order.
pub open spec fn dot_fold<G: Fn(&EffectRule) -> Option<RefreshRule>>(
    st: TrackerView,
    rules: Seq<EffectRule>,
    source_id: i64,
    ev: AbilityEvent,
    refresh_for: G,
) -> TrackerView
    decreases rules.len(),
{
    if rules.len() == 0 {
        st
    } else {
        let prev = dot_fold(st, rules.drop_last(), source_id, ev, refresh_for);
        let r = rules.last();
        dot_step(prev, r, chosen_refresh(refresh_for, r), source_id, ev)
    }
}

/// The tracker after damage from an ability that a refresh waits for: the
/// first hit on another entity than the local player, within the timeout,
/// consumes the pending refresh and refreshes the effects of the
/// definitions that wait for it on the damaged target; past the timeout
/// the pending refresh is dropped.
pub open spec fn spec_dot_refresh<G: Fn(&EffectRule) -> Option<RefreshRule>>(
    st: TrackerView,
    defs: Seq<(DefinitionKeys, EffectRule)>,
    ev: AbilityEvent,
    refresh_for: G,
) -> TrackerView {
    match st.pending_dot {
        None => st,
        Some(p) => if p.ability_id != ev.ability_id || st.local_player_id == Some(ev.target.id) {
            st
        } else if sat_sub(ev.timestamp, p.timestamp) > PENDING_TIMEOUT_MS {
            TrackerView { pending_dot: None, ..st }
        } else {
            dot_fold(
                TrackerView { pending_dot: None, ..st },
                spec_find_refreshable(defs, ev.ability_id as u64, None),
                p.source_id,
                ev,
                refresh_for,
            )
        },
    }
}

impl TrackerCore {
    fn mark_removed(&mut self, i: usize)
        requires
            i < old(self)@.effects.len(),
        ensures
            final(self)@ == mark_removed_at(old(self)@, i as int),
    {
        let e = self.take_effect(i);
        if e.removed {
            return;
        }
        let expired = e.timer_expired;
        self.replace_effect(i, ActiveEffect { removed: true, ..e });
        if !expired {
            self.ticking = self.ticking.saturating_sub(1);
        }
    }

    #[verifier::rlimit(40)]
    fn removed_one(&mut self, r: &EffectRule, ok: bool, ev: &EffectEvent)
        ensures
            final(self)@ == removed_step(old(self)@, *r, ok, *ev),
    {
        let ts = ev.timestamp;
        let key = make_key(r, ev.source.id, ev.target.id);
        if r.trigger == TriggerKind::EffectApplied {
            match position_of_key(&self.effects, &key) {
                Some(i) => {
                    if !r.ignore_effect_removed && !shows_on(&r.display_targets, DisplayTarget::Cooldowns)
                        && sub_ms(ts, self.effects[i].last_refreshed_at) > STALE_REMOVAL_MS {
                        self.mark_removed(i);
                    }
                },
                None => {},
            }
        } else if r.trigger == TriggerKind::EffectRemoved && ok {
            if r.is_alert {
                self.push_instant(r, ts, ev.source.name.as_str(), ev.target.name.as_str());
                return;
            }
            let from_local = self.local_player_id == Some(ev.source.id);
            let pos = position_of_key(&self.effects, &key);
            let e = make_effect(r, key, ev.effect_id as u64, &ev.source, &ev.target, from_local, ts);
            match pos {
                Some(i) => self.replace_effect(i, e),
                None => self.effects.push(e),
            }
            self.ticking = self.ticking.saturating_add(1);
            self.push_on_apply(r, ts);
        }
    }

    fn dot_one(&mut self, r: &EffectRule, rr: Option<RefreshRule>, source_id: i64, ev: &AbilityEvent)
        ensures
            final(self)@ == dot_step(old(self)@, *r, rr, source_id, *ev),
    {
        if let Some(x) = rr {
            if x.defer_to_first_damage {
                let key = make_key(r, source_id, ev.target.id);
                if let Some(i) = position_of_key(&self.effects, &key) {
                    let e = self.take_effect(i);
                    if !e.removed {
                        self.replace_effect(i, refresh_effect(e, ev.timestamp, r.duration_ms));
                    }
                }
            }
        }
    }
}

/// How long after its timer ran out an unrefreshed effect is dropped.
pub const TIMER_EXPIRY_GRACE_MS: i64 = 8000;

/// Whether the effect's base duration is over at `now`: at most its
/// ready-state tail remains (an effect without a timer has none left).
pub open spec fn base_ended(e: ActiveEffect, now: i64) -> bool {
    let remaining = match e.expires_at {
        Some(x) => sat_sub(x, now),
        None => 0,
    };
    remaining <= e.cooldown_ready_ms
}

/// One effect at a tick: a live effect whose timer ran out is marked
/// expired (and removed past the grace period); an effect that ended its
/// base duration, or was removed, has its end alert due once. Also whether
/// its timer newly ran out, and whether its end alert is due now.
pub open spec fn tick_one(e: ActiveEffect, now: i64) -> (ActiveEffect, bool, bool) {
    let (e1, newly) = if !e.removed && (e.expires_at matches Some(x) && now >= x) {
        let x = e.expires_at->0;
        let t = ActiveEffect { timer_expired: true, ..e };
        (if sat_sub(now, x) > TIMER_EXPIRY_GRACE_MS {
            ActiveEffect { removed: true, ..t }
        } else {
            t
        }, !e.timer_expired)
    } else {
        (e, false)
    };
    if !e1.on_end_alert_fired && (base_ended(e1, now) || e1.removed) {
        (ActiveEffect { on_end_alert_fired: true, ..e1 }, newly, true)
    } else {
        (e1, newly, false)
    }
}

/// The alert of an ended effect whose definition alerts on expiry with a
/// text: the text with the effect's names filled in, at game time `ts`.
pub open spec fn expire_alerts(defs: Seq<(DefinitionKeys, EffectRule)>, e: ActiveEffect, ts: i64) -> Seq<AlertView> {
    match def_entry(defs, e.key.definition_id@) {
        Some(d) => if d.1.alert_on == AlertOn::OnExpire && d.1.alert_text is Some {
            seq![
                AlertView {
                    id: e.key.definition_id@,
                    name: d.1.name@,
                    text: spec_format_effect_alert(d.1.alert_text->0@, e.source_name@, e.target_name@),
                    timestamp: ts,
                    alert_text_enabled: true,
                    audio_enabled: false,
                    audio_file: None,
                    color: d.1.color,
                    icon_ability_id: d.1.icon_ability_id,
                },
            ]
        } else {
            Seq::empty()
        },
        None => Seq::empty(),
    }
}

/// The first `n` effects ticked at `now`, end alerts stamped `ts`.
pub open spec fn tick_fold(st: TrackerView, defs: Seq<(DefinitionKeys, EffectRule)>, now: i64, ts: i64, n: nat) -> TrackerView
    decreases n,
{
    if n == 0 {
        st
    } else {
        let prev = tick_fold(st, defs, now, ts, (n - 1) as nat);
        if n - 1 < prev.effects.len() {
            let (e, newly, ended) = tick_one(prev.effects[n - 1], now);
            TrackerView {
                effects: prev.effects.update(n - 1, e),
                ticking: if newly {
                    dec(prev.ticking)
                } else {
                    prev.ticking
                },
                alerts: if ended {
                    prev.alerts + expire_alerts(defs, e, ts)
                } else {
                    prev.alerts
                },
                ..prev
            }
        } else {
            prev
        }
    }
}

/// The effects not removed, in order.
pub open spec fn live_effects(s: Seq<ActiveEffect>) -> Seq<ActiveEffect>
    decreases s.len(),
{
    if s.len() == 0 {
        s
    } else if s.last().removed {
        live_effects(s.drop_last())
    } else {
        live_effects(s.drop_last()).push(s.last())
    }
}

/// The tracker after a tick at `now` (the game time interpolated to the
/// moment): nothing before the first event; else each effect is ticked in
/// order, the end alerts fire at the latest game time, and removed effects
/// are dropped.
pub open spec fn spec_tick(st: TrackerView, defs: Seq<(DefinitionKeys, EffectRule)>, now: i64) -> TrackerView {
    match st.game_time {
        None => st,
        Some(g) => {
            let t = tick_fold(st, defs, now, g, st.effects.len());
            TrackerView { effects: live_effects(t.effects), ..t }
        },
    }
}

/// The current target of entity `source`: that of its last entry.
pub open spec fn target_of(ct: Seq<(i64, EntityRef)>, source: i64) -> Option<EntityRef>
    decreases ct.len(),
{
    if ct.len() == 0 {
        None
    } else if ct.last().0 == source {
        Some(ct.last().1)
    } else {
        target_of(ct.drop_last(), source)
    }
}

/// The current targets without those of entity `source`.
pub open spec fn without_target(ct: Seq<(i64, EntityRef)>, source: i64) -> Seq<(i64, EntityRef)>
    decreases ct.len(),
{
    if ct.len() == 0 {
        ct
    } else if ct.last().0 == source {
        without_target(ct.drop_last(), source)
    } else {
        without_target(ct.drop_last(), source).push(ct.last())
    }
}

/// The current targets after entity `source` targets `t`.
pub open spec fn with_target(ct: Seq<(i64, EntityRef)>, source: i64, t: EntityRef) -> Seq<(i64, EntityRef)> {
    without_target(ct, source).push((source, t))
}

/// A player's last seen discipline.
pub open spec fn discipline_of(pd: Seq<(i64, i64)>, id: i64) -> Option<i64>
    decreases pd.len(),
{
    if pd.len() == 0 {
        None
    } else if pd.last().0 == id {
        Some(pd.last().1)
    } else {
        discipline_of(pd.drop_last(), id)
    }
}

/// The players' disciplines without that of player `id`.
pub open spec fn without_discipline(pd: Seq<(i64, i64)>, id: i64) -> Seq<(i64, i64)>
    decreases pd.len(),
{
    if pd.len() == 0 {
        pd
    } else if pd.last().0 == id {
        without_discipline(pd.drop_last(), id)
    } else {
        without_discipline(pd.drop_last(), id).push(pd.last())
    }
}

/// The tracker after player `id` changed to discipline `d` (None: not a
/// known discipline, which forgets the player's): the player's entry, and
/// the local player's discipline when `id` is the local player.
pub open spec fn spec_discipline_changed(st: TrackerView, id: i64, d: Option<i64>) -> TrackerView {
    TrackerView {
        player_disciplines: match d {
            Some(x) => without_discipline(st.player_disciplines, id).push((id, x)),
            None => without_discipline(st.player_disciplines, id),
        },
        local_discipline: if st.local_player_id == Some(id) {
            d
        } else {
            st.local_discipline
        },
        ..st
    }
}

/// A definition's discipline scope: no disciplines listed, an unknown
/// discipline, or one of those listed.
pub open spec fn discipline_admits(disciplines: Seq<i64>, d: Option<i64>) -> bool {
    disciplines.len() == 0 || d is None || disciplines.contains(d->0)
}

/// A source or target discipline filter: none listed, or a player whose
/// discipline is known and listed.
pub open spec fn entity_disciplines_admit(pd: Seq<(i64, i64)>, filters: Seq<i64>, e: EntityRef) -> bool {
    filters.len() == 0 || (e.is_player && (discipline_of(pd, e.id) matches Some(x) && filters.contains(x)))
}

fn contains_id(v: &Vec<i64>, x: i64) -> (r: bool)
    ensures
        r == v@.contains(x),
{
    let mut i: usize = 0;
    while i < v.len()
        invariant
            i <= v.len(),
            forall|k: int| 0 <= k < i ==> v@[k] != x,
        decreases v.len() - i,
    {
        if v[i] == x {
            return true;
        }
        i = i + 1;
    }
    false
}

/// A player's last seen discipline in a table of disciplines.
fn lookup_discipline(pd: &Vec<(i64, i64)>, id: i64) -> (r: Option<i64>)
    ensures
        r == discipline_of(pd@, id),
{
    let mut i: usize = pd.len();
    assert(pd@.take(i as int) =~= pd@);
    while i > 0
        invariant
            i <= pd.len(),
            discipline_of(pd@, id) == discipline_of(pd@.take(i as int), id),
        decreases i,
    {
        proof {
            assert(pd@.take(i as int).drop_last() =~= pd@.take(i - 1));
        }
        if pd[i - 1].0 == id {
            return Some(pd[i - 1].1);
        }
        i = i - 1;
    }
    None
}

/// Whether an entity passes a discipline filter, by a table of disciplines.
fn entity_passes(pd: &Vec<(i64, i64)>, filters: &Vec<i64>, entity: &EntityRef) -> (r: bool)
    ensures
        r == entity_disciplines_admit(pd@, filters@, *entity),
{
    if filters.len() == 0 {
        return true;
    }
    if !entity.is_player {
        return false;
    }
    match lookup_discipline(pd, entity.id) {
        Some(d) => contains_id(filters, d),
        None => false,
    }
}

/// What the discipline gates read: the local player's discipline and each
/// player's last seen discipline.
#[derive(Debug, Clone)]
pub struct DisciplineGates {
    pub local_discipline: Option<i64>,
    pub player_disciplines: Vec<(i64, i64)>,
}

impl DisciplineGates {
    /// The discipline checks of a definition for a source and a target: its
    /// discipline scope, then its source and target discipline filters.
    pub fn admits(&self, rule: &EffectRule, source: &EntityRef, target: &EntityRef) -> (r: bool)
        ensures
            r == (discipline_admits(rule.disciplines@, self.local_discipline) && entity_disciplines_admit(
                self.player_disciplines@,
                rule.source_disciplines@,
                *source,
            ) && entity_disciplines_admit(self.player_disciplines@, rule.target_disciplines@, *target)),
    {
        discipline_matches(&rule.disciplines, self.local_discipline) && entity_passes(
            &self.player_disciplines,
            &rule.source_disciplines,
            source,
        ) && entity_passes(&self.player_disciplines, &rule.target_disciplines, target)
    }
}

/// Whether a discipline scope admits discipline `d`.
pub fn discipline_matches(disciplines: &Vec<i64>, d: Option<i64>) -> (r: bool)
    ensures
        r == discipline_admits(disciplines@, d),
{
    if disciplines.len() == 0 {
        return true;
    }
    match d {
        Some(x) => contains_id(disciplines, x),
        None => true,
    }
}

impl TrackerCore {
    fn tick_at(&mut self, i: usize, now: i64, ts: i64, defs: &DefinitionSet<EffectRule>)
        requires
            i < old(self)@.effects.len(),
        ensures
            final(self)@ == ({
                let (e, newly, ended) = tick_one(old(self)@.effects[i as int], now);
                TrackerView {
                    effects: old(self)@.effects.update(i as int, e),
                    ticking: if newly {
                        dec(old(self)@.ticking)
                    } else {
                        old(self)@.ticking
                    },
                    alerts: if ended {
                        old(self)@.alerts + expire_alerts(defs.defs(), e, ts)
                    } else {
                        old(self)@.alerts
                    },
                    ..old(self)@
                }
            }),
    {
        let mut e = self.take_effect(i);
        let mut newly = false;
        if !e.removed {
            if let Some(x) = e.expires_at {
                if now >= x {
                    newly = !e.timer_expired;
                    e = ActiveEffect { timer_expired: true, ..e };
                    if sub_ms(now, x) > TIMER_EXPIRY_GRACE_MS {
                        e = ActiveEffect { removed: true, ..e };
                    }
                }
            }
        }
        let remaining = match e.expires_at {
            Some(x) => sub_ms(x, now),
            None => 0,
        };
        let ended = !e.on_end_alert_fired && (remaining <= e.cooldown_ready_ms || e.removed);
        if ended {
            e = ActiveEffect { on_end_alert_fired: true, ..e };
        }
        let ghost fin = e;
        if ended {
            let entry = defs.get_entry(e.key.definition_id.as_str());
            let ghost before = self@.alerts;
            match entry {
                Some(d) => {
                    if d.1.alert_on == AlertOn::OnExpire {
                        if let Some(t) = &d.1.alert_text {
                            let text = format_effect_alert(t.as_str(), e.source_name.as_str(), e.target_name.as_str());
                            let a = FiredAlert {
                                id: e.key.definition_id.clone(),
                                name: d.1.name.clone(),
                                text,
                                timestamp: ts,
                                alert_text_enabled: true,
                                audio_enabled: false,
                                audio_file: None,
                                color: d.1.color,
                                icon_ability_id: d.1.icon_ability_id,
                            };
                            self.push_alert(a);
                            assert(before.push(a@) =~= before + expire_alerts(defs.defs(), fin, ts));
                        } else {
                            assert(before =~= before + expire_alerts(defs.defs(), fin, ts));
                        }
                    } else {
                        assert(before =~= before + expire_alerts(defs.defs(), fin, ts));
                    }
                },
                None => {
                    assert(before =~= before + expire_alerts(defs.defs(), fin, ts));
                },
            }
        }
        if newly {
            self.ticking = self.ticking.saturating_sub(1);
        }
        self.replace_effect(i, e);
    }

    fn drop_removed(&mut self)
        ensures
            final(self)@ == (TrackerView { effects: live_effects(old(self)@.effects), ..old(self)@ }),
    {
        let mut kept: Vec<ActiveEffect> = Vec::new();
        let mut i: usize = 0;
        assert(self.effects@.take(0) =~= Seq::<ActiveEffect>::empty());
        while i < self.effects.len()
            invariant
                i <= self.effects.len(),
                self@ == old(self)@,
                kept@ == live_effects(self.effects@.take(i as int)),
            decreases self.effects.len() - i,
        {
            proof {
                assert(self.effects@.take(i + 1).drop_last() =~= self.effects@.take(i as int));
            }
            if !self.effects[i].removed {
                kept.push(copy_effect(&self.effects[i]));
            }
            i = i + 1;
        }
        assert(self.effects@.take(self.effects.len() as int) =~= self.effects@);
        self.effects = kept;
    }

    fn clear_target(&mut self, source: i64)
        ensures
            final(self)@ == (TrackerView {
                current_targets: without_target(old(self)@.current_targets, source),
                ..old(self)@
            }),
    {
        let mut kept: Vec<(i64, EntityRef)> = Vec::new();
        let mut i: usize = 0;
        assert(self.current_targets@.take(0) =~= Seq::<(i64, EntityRef)>::empty());
        while i < self.current_targets.len()
            invariant
                i <= self.current_targets.len(),
                self@ == old(self)@,
                kept@ == without_target(self.current_targets@.take(i as int), source),
            decreases self.current_targets.len() - i,
        {
            proof {
                assert(self.current_targets@.take(i + 1).drop_last() =~= self.current_targets@.take(i as int));
            }
            if self.current_targets[i].0 != source {
                let entry = (self.current_targets[i].0, clone_entity(&self.current_targets[i].1));
                kept.push(entry);
            }
            i = i + 1;
        }
        assert(self.current_targets@.take(self.current_targets.len() as int) =~= self.current_targets@);
        self.current_targets = kept;
    }

    fn set_target(&mut self, source: i64, target: EntityRef)
        ensures
            final(self)@ == (TrackerView {
                current_targets: with_target(old(self)@.current_targets, source, target),
                ..old(self)@
            }),
    {
        self.clear_target(source);
        self.current_targets.push((source, target));
    }

    fn discipline_of(&self, id: i64) -> (r: Option<i64>)
        ensures
            r == discipline_of(self@.player_disciplines, id),
    {
        lookup_discipline(&self.player_disciplines, id)
    }

    fn entity_passes(&self, filters: &Vec<i64>, entity: &EntityRef) -> (r: bool)
        ensures
            r == entity_disciplines_admit(self@.player_disciplines, filters@, *entity),
    {
        entity_passes(&self.player_disciplines, filters, entity)
    }

    fn gates(&self) -> (r: DisciplineGates)
        ensures
            r.local_discipline == self@.local_discipline,
            r.player_disciplines@ == self@.player_disciplines,
    {
        let mut v: Vec<(i64, i64)> = Vec::new();
        let mut i: usize = 0;
        while i < self.player_disciplines.len()
            invariant
                i <= self.player_disciplines.len(),
                v@ == self.player_disciplines@.take(i as int),
            decreases self.player_disciplines.len() - i,
        {
            v.push(self.player_disciplines[i]);
            proof {
                assert(v@ =~= self.player_disciplines@.take(i + 1));
            }
            i = i + 1;
        }
        assert(self.player_disciplines@.take(self.player_disciplines.len() as int) =~= self.player_disciplines@);
        DisciplineGates { local_discipline: self.local_discipline, player_disciplines: v }
    }

    fn discipline_changed(&mut self, id: i64, d: Option<i64>)
        ensures
            final(self)@ == spec_discipline_changed(old(self)@, id, d),
    {
        let mut kept: Vec<(i64, i64)> = Vec::new();
        let mut i: usize = 0;
        assert(self.player_disciplines@.take(0) =~= Seq::<(i64, i64)>::empty());
        while i < self.player_disciplines.len()
            invariant
                i <= self.player_disciplines.len(),
                self@ == old(self)@,
                kept@ == without_discipline(self.player_disciplines@.take(i as int), id),
            decreases self.player_disciplines.len() - i,
        {
            proof {
                assert(self.player_disciplines@.take(i + 1).drop_last() =~= self.player_disciplines@.take(i as int));
            }
            if self.player_disciplines[i].0 != id {
                kept.push(self.player_disciplines[i]);
            }
            i = i + 1;
        }
        assert(self.player_disciplines@.take(self.player_disciplines.len() as int) =~= self.player_disciplines@);
        if let Some(x) = d {
            kept.push((id, x));
        }
        self.player_disciplines = kept;
        if self.local_player_id == Some(id) {
            self.local_discipline = d;
        }
    }
}

/// The effect after duration modifier `j` (at position `j` of its
/// definition) fires at `now`. Within its internal cooldown nothing
/// changes; else the firing is recorded and, for a timed effect, the expiry
/// moves: restarted to `now + refill` (when the modifier refills and a
/// duration is known), or shifted by the modifier's adjustment; capped at
/// the maximum duration from application, and never before `now`. An
/// extension re-arms the end alert; with `revive`, an effect whose timer had
/// run out and is extended past `now` is live again.
pub open spec fn modified(e: ActiveEffect, m: DurationModifier, j: usize, now: i64, refill: Option<i64>, revive: bool) -> ActiveEffect {
    if m.icd_ms matches Some(icd) && (last_proc(e.modifier_procs, j) matches Some(t) && sat_sub(now, t) < icd) {
        e
    } else {
        let e1 = ActiveEffect { modifier_procs: set_proc(e.modifier_procs, j, now), ..e };
        let target = match e1.expires_at {
            None => None,
            Some(x) => if m.refill {
                match refill {
                    Some(d) => Some(sat_add(now, d)),
                    None => None,
                }
            } else if m.adjust_ms != 0 {
                Some(sat_add(x, m.adjust_ms))
            } else {
                None
            },
        };
        match target {
            None => e1,
            Some(nx) => {
                let capped = match m.max_duration_ms {
                    Some(mm) => {
                        let cap = sat_add(e1.applied_at, mm);
                        if nx < cap {
                            nx
                        } else {
                            cap
                        }
                    },
                    None => nx,
                };
                let max_at = match m.max_duration_ms {
                    Some(mm) => if e1.max_expires_at is None {
                        Some(sat_add(e1.applied_at, mm))
                    } else {
                        e1.max_expires_at
                    },
                    None => e1.max_expires_at,
                };
                let fin = if capped > now {
                    capped
                } else {
                    now
                };
                let e2 = ActiveEffect { expires_at: Some(fin), max_expires_at: max_at, ..e1 };
                let e3 = if m.refill || m.adjust_ms > 0 {
                    ActiveEffect { on_end_alert_fired: false, ..e2 }
                } else {
                    e2
                };
                if revive && e3.timer_expired && fin > now {
                    ActiveEffect { timer_expired: false, removed: false, ..e3 }
                } else {
                    e3
                }
            },
        }
    }
}

/// The firings that the signals of a batch give modifier `j` of an effect,
/// as `hits` counts them.
pub open spec fn chosen_hits<H: Fn(&ActiveEffect, usize) -> usize>(hits: H, e: ActiveEffect, j: usize) -> usize {
    choose|n: usize| hits.ensures((&e, j), n)
}

/// `hits` gives one count per effect and modifier.
pub open spec fn counts<H: Fn(&ActiveEffect, usize) -> usize>(hits: H) -> bool {
    &&& forall|e: ActiveEffect, j: usize| hits.requires((&e, j))
    &&& forall|e: ActiveEffect, j: usize, a: usize, b: usize| hits.ensures((&e, j), a) && hits.ensures((&e, j), b) ==> a == b
}

/// `n` copies of `x`.
pub open spec fn copies<T>(x: T, n: nat) -> Seq<T> {
    Seq::new(n, |_k: int| x)
}

/// The firings of the first `k` modifiers of an effect: each modifier on
/// other signals than the effect's own charges, once per hit.
pub open spec fn modifier_firings<H: Fn(&ActiveEffect, usize) -> usize>(
    e: ActiveEffect,
    mods: Seq<DurationModifier>,
    k: nat,
    hits: H,
) -> Seq<(EffectKey, usize)>
    decreases k,
{
    if k == 0 {
        Seq::empty()
    } else {
        let prev = modifier_firings(e, mods, (k - 1) as nat, hits);
        let j = (k - 1) as usize;
        if k - 1 < mods.len() && mods[k - 1].self_charges is None {
            prev + copies((e.key, j), chosen_hits(hits, e, j) as nat)
        } else {
            prev
        }
    }
}

/// The firings of a batch, effect by effect: only live effects whose timer
/// still runs take part.
pub open spec fn batch_firings<H: Fn(&ActiveEffect, usize) -> usize>(
    effects: Seq<ActiveEffect>,
    defs: Seq<(DefinitionKeys, EffectRule)>,
    hits: H,
) -> Seq<(EffectKey, usize)>
    decreases effects.len(),
{
    if effects.len() == 0 {
        Seq::empty()
    } else {
        let prev = batch_firings(effects.drop_last(), defs, hits);
        let e = effects.last();
        match def_entry(defs, e.key.definition_id@) {
            Some(d) => if !e.removed && !e.timer_expired {
                prev + modifier_firings(e, d.1.modifiers@, d.1.modifiers@.len(), hits)
            } else {
                prev
            },
            None => prev,
        }
    }
}

/// One firing applied to the effect with its key, at game time `now`.
pub open spec fn apply_firing(st: TrackerView, defs: Seq<(DefinitionKeys, EffectRule)>, f: (EffectKey, usize), now: i64) -> TrackerView {
    match find_key(st.effects, f.0) {
        Some(i) => match def_entry(defs, f.0.definition_id@) {
            Some(d) => if f.1 < d.1.modifiers@.len() {
                let m = d.1.modifiers@[f.1 as int];
                let refill = if m.refill {
                    d.1.duration_ms
                } else {
                    None
                };
                TrackerView { effects: st.effects.update(i, modified(st.effects[i], m, f.1, now, refill, true)), ..st }
            } else {
                st
            },
            None => st,
        },
        None => st,
    }
}

/// The firings applied in order.
pub open spec fn apply_firings(st: TrackerView, defs: Seq<(DefinitionKeys, EffectRule)>, fs: Seq<(EffectKey, usize)>, now: i64) -> TrackerView
    decreases fs.len(),
{
    if fs.len() == 0 {
        st
    } else {
        apply_firing(apply_firings(st, defs, fs.drop_last(), now), defs, fs.last(), now)
    }
}

/// The tracker after the duration modifiers of a batch of signals: nothing
/// before the first event; else the firings that `hits` counts for the live
/// effects are collected, then applied in order at the latest game time.
pub open spec fn spec_evaluate_modifiers<H: Fn(&ActiveEffect, usize) -> usize>(
    st: TrackerView,
    defs: Seq<(DefinitionKeys, EffectRule)>,
    hits: H,
) -> TrackerView {
    match st.game_time {
        None => st,
        Some(g) => apply_firings(st, defs, batch_firings(st.effects, defs, hits), g),
    }
}

/// A change of an effect's stack count.
#[derive(Debug, Clone)]
pub struct ChargesEvent {
    pub effect_id: i64,
    pub effect_name: String,
    pub source_id: i64,
    pub target_id: i64,
    pub timestamp: i64,
    pub charges: u8,
}

/// Whether a charge change from `old` to `new` goes the given way.
pub open spec fn goes(dir: Option<ChargeDirection>, old: u8, new: u8) -> bool {
    match dir {
        Some(ChargeDirection::Increased) => new > old,
        Some(ChargeDirection::Decreased) => new < old,
        Some(ChargeDirection::Neutral) => new == old,
        None => true,
    }
}

/// The effect after the modifiers on its own charges, of the first `k`
/// modifiers, fire for a change from `old` to `new` stacks.
pub open spec fn self_modified(
    e: ActiveEffect,
    mods: Seq<DurationModifier>,
    k: nat,
    old: u8,
    new: u8,
    now: i64,
    refill: Option<i64>,
) -> ActiveEffect
    decreases k,
{
    if k == 0 {
        e
    } else {
        let prev = self_modified(e, mods, (k - 1) as nat, old, new, now, refill);
        if k - 1 < mods.len() && (mods[k - 1].self_charges matches Some(dir) && goes(dir, old, new)) {
            modified(prev, mods[k - 1], (k - 1) as usize, now, refill, false)
        } else {
            prev
        }
    }
}

/// One matching definition's part of a charge change: its effect takes the
/// new stack count, restarts its duration when the definition says so, and
/// its own-charge modifiers fire.
pub open spec fn charges_step(st: TrackerView, r: EffectRule, ev: ChargesEvent) -> TrackerView {
    let refill = if r.is_refreshed_on_modify {
        r.duration_ms
    } else {
        None
    };
    match find_key(st.effects, key_for(r, ev.source_id, ev.target_id)) {
        Some(i) => {
            let e = st.effects[i];
            let e1 = ActiveEffect { stacks: ev.charges, ..e };
            let e2 = match refill {
                Some(d) => ActiveEffect { duration_ms: Some(d), expires_at: Some(sat_add(ev.timestamp, d)), ..e1 },
                None => e1,
            };
            TrackerView {
                effects: st.effects.update(
                    i,
                    self_modified(e2, r.modifiers@, r.modifiers@.len(), e.stacks, ev.charges, ev.timestamp, refill),
                ),
                ..st
            }
        },
        None => st,
    }
}

/// The matching definitions' parts of a charge change, in order.
pub open spec fn charges_fold(st: TrackerView, rules: Seq<EffectRule>, ev: ChargesEvent) -> TrackerView
    decreases rules.len(),
{
    if rules.len() == 0 {
        st
    } else {
        charges_step(charges_fold(st, rules.drop_last(), ev), rules.last(), ev)
    }
}

/// The tracker after a charge change: the game time advances and each
/// definition that matches the effect by ID or name takes its part.
pub open spec fn spec_charges_changed(st: TrackerView, defs: Seq<(DefinitionKeys, EffectRule)>, ev: ChargesEvent) -> TrackerView {
    charges_fold(
        TrackerView { game_time: advanced(st.game_time, ev.timestamp), ..st },
        spec_find(defs, SelectorKind::Effect, ev.effect_id as u64, Some(ev.effect_name@)),
        ev,
    )
}

fn apply_modifier(e: ActiveEffect, m: DurationModifier, j: usize, now: i64, refill: Option<i64>, revive: bool) -> (r: ActiveEffect)
    ensures
        r == modified(e, m, j, now, refill, revive),
{
    if let Some(icd) = m.icd_ms {
        if let Some(t) = proc_of(&e.modifier_procs, j) {
            if sub_ms(now, t) < icd {
                return e;
            }
        }
    }
    let e1 = ActiveEffect { modifier_procs: ProcList::Proc(j, now, Box::new(e.modifier_procs)), ..e };
    let target = match e1.expires_at {
        None => None,
        Some(x) => if m.refill {
            match refill {
                Some(d) => Some(add_ms(now, d)),
                None => None,
            }
        } else if m.adjust_ms != 0 {
            Some(add_ms(x, m.adjust_ms))
        } else {
            None
        },
    };
    match target {
        None => e1,
        Some(nx) => {
            let capped = match m.max_duration_ms {
                Some(mm) => {
                    let cap = add_ms(e1.applied_at, mm);
                    if nx < cap {
                        nx
                    } else {
                        cap
                    }
                },
                None => nx,
            };
            let max_at = match m.max_duration_ms {
                Some(mm) => if e1.max_expires_at.is_none() {
                    Some(add_ms(e1.applied_at, mm))
                } else {
                    e1.max_expires_at
                },
                None => e1.max_expires_at,
            };
            let fin = if capped > now {
                capped
            } else {
                now
            };
            let e2 = ActiveEffect { expires_at: Some(fin), max_expires_at: max_at, ..e1 };
            let e3 = if m.refill || m.adjust_ms > 0 {
                ActiveEffect { on_end_alert_fired: false, ..e2 }
            } else {
                e2
            };
            if revive && e3.timer_expired && fin > now {
                ActiveEffect { timer_expired: false, removed: false, ..e3 }
            } else {
                e3
            }
        },
    }
}

fn apply_self_modifiers(
    e: ActiveEffect,
    mods: &Vec<DurationModifier>,
    old: u8,
    new: u8,
    now: i64,
    refill: Option<i64>,
) -> (r: ActiveEffect)
    ensures
        r == self_modified(e, mods@, mods@.len(), old, new, now, refill),
{
    let mut cur = e;
    let mut k: usize = 0;
    while k < mods.len()
        invariant
            k <= mods.len(),
            cur == self_modified(e, mods@, k as nat, old, new, now, refill),
        decreases mods.len() - k,
    {
        let m = mods[k];
        let fires = match m.self_charges {
            Some(dir) => match dir {
                Some(ChargeDirection::Increased) => new > old,
                Some(ChargeDirection::Decreased) => new < old,
                Some(ChargeDirection::Neutral) => new == old,
                None => true,
            },
            None => false,
        };
        if fires {
            cur = apply_modifier(cur, m, k, now, refill, false);
        }
        k = k + 1;
    }
    cur
}

impl TrackerCore {
    fn charges_one(&mut self, r: &EffectRule, ev: &ChargesEvent)
        ensures
            final(self)@ == charges_step(old(self)@, *r, *ev),
    {
        let refill = if r.is_refreshed_on_modify {
            r.duration_ms
        } else {
            None
        };
        let key = make_key(r, ev.source_id, ev.target_id);
        if let Some(i) = position_of_key(&self.effects, &key) {
            let e = self.take_effect(i);
            let old = e.stacks;
            let e1 = ActiveEffect { stacks: ev.charges, ..e };
            let e2 = match refill {
                Some(d) => ActiveEffect { duration_ms: Some(d), expires_at: Some(add_ms(ev.timestamp, d)), ..e1 },
                None => e1,
            };
            let e3 = apply_self_modifiers(e2, &r.modifiers, old, ev.charges, ev.timestamp, refill);
            self.replace_effect(i, e3);
        }
    }

    fn fire(&mut self, f: &(EffectKey, usize), now: i64, defs: &DefinitionSet<EffectRule>)
        ensures
            final(self)@ == apply_firing(old(self)@, defs.defs(), *f, now),
    {
        if let Some(i) = position_of_key(&self.effects, &f.0) {
            if let Some(d) = defs.get_entry(f.0.definition_id.as_str()) {
                if f.1 < d.1.modifiers.len() {
                    let m = d.1.modifiers[f.1];
                    let refill = if m.refill {
                        d.1.duration_ms
                    } else {
                        None
                    };
                    let e = self.take_effect(i);
                    self.replace_effect(i, apply_modifier(e, m, f.1, now, refill, true));
                }
            }
        }
    }
}

fn copy_key(k: &EffectKey) -> (r: EffectKey)
    ensures
        r == *k,
{
    EffectKey { definition_id: k.definition_id.clone(), source_id: k.source_id, target_id: k.target_id }
}

fn push_firings<H: Fn(&ActiveEffect, usize) -> usize>(
    out: &mut Vec<(EffectKey, usize)>,
    e: &ActiveEffect,
    mods: &Vec<DurationModifier>,
    hits: &H,
)
    requires
        counts(*hits),
    ensures
        final(out)@ == old(out)@ + modifier_firings(*e, mods@, mods@.len(), *hits),
{
    let ghost start = out@;
    let mut k: usize = 0;
    while k < mods.len()
        invariant
            k <= mods.len(),
            counts(*hits),
            out@ == start + modifier_firings(*e, mods@, k as nat, *hits),
        decreases mods.len() - k,
    {
        if mods[k].self_charges.is_none() {
            let n = hits(e, k);
            proof {
                assert(n == chosen_hits(*hits, *e, k));
            }
            let ghost before = out@;
            let mut c: usize = 0;
            while c < n
                invariant
                    c <= n,
                    out@ == before + copies((e.key, k), c as nat),
                decreases n - c,
            {
                out.push((copy_key(&e.key), k));
                assert(copies((e.key, k), (c + 1) as nat) =~= copies((e.key, k), c as nat).push((e.key, k)));
                c = c + 1;
            }
            assert(start + modifier_firings(*e, mods@, (k + 1) as nat, *hits) =~= before + copies((e.key, k), n as nat));
        }
        k = k + 1;
    }
}

/// An instant-alert definition only fires its alert: an applied effect or
/// a cast that it matches leaves the tracked effects as they were.
pub proof fn law_instant_alerts_track_nothing(st: TrackerView, r: EffectRule, ok: bool, ev: EffectEvent, cast: AbilityEvent)
    requires
        r.is_alert,
    ensures
        applied_step(st, r, ok, ev).0.effects == st.effects,
        ok ==> applied_step(st, r, ok, ev).0.alerts == st.alerts.push(
            instant_alert(r, ev.timestamp, ev.source.name@, ev.target.name@),
        ),
        cast_step(st, r, ok, true, cast).effects == st.effects,
{
}

/// A duration modifier never sets an expiry in the past, and with a maximum
/// duration never past that maximum from the application (unless the
/// maximum itself is already past, when the expiry is `now`).
pub proof fn law_modifier_expiry_bounds(e: ActiveEffect, m: DurationModifier, j: usize, now: i64, refill: Option<i64>, revive: bool)
    ensures
        ({
            let r = modified(e, m, j, now, refill, revive);
            r.expires_at != e.expires_at ==> {
                &&& r.expires_at matches Some(x) && x >= now
                &&& m.max_duration_ms matches Some(mm) ==> r.expires_at->0 <= if sat_add(e.applied_at, mm) > now {
                    sat_add(e.applied_at, mm)
                } else {
                    now
                }
            }
        }),
{
}

/// A refresh never brings back an effect that the game removed.
pub proof fn law_refresh_keeps_removed_effects_removed(
    st: TrackerView,
    r: EffectRule,
    rr: RefreshRule,
    trigger: RefreshTrigger,
    ev: AbilityEvent,
)
    requires
        find_key(st.effects, key_for(r, ev.source.id, ev.target.id)) matches Some(i) && st.effects[i].removed,
    ensures
        refresh_step(st, r, rr, trigger, ev).effects == st.effects,
{
}

/// A definition that ignores refreshes keeps its running effect unchanged
/// while the effect is within its base duration.
pub proof fn law_ignore_refreshes_in_base_duration(st: TrackerView, r: EffectRule, ev: EffectEvent)
    requires
        r.ignore_refreshes,
        !r.display_targets@.contains(DisplayTarget::DotTracker),
        find_key(st.effects, key_for(r, ev.source.id, ev.target.id)) matches Some(i) && in_base_duration(
            st.effects[i],
            ev.timestamp,
        ) && st.effects[i].last_refreshed_at != ev.timestamp,
    ensures
        applied_own(st, r, ev) == (st, false),
{
}

proof fn lemma_clear_area(st: TrackerView, defs: Seq<(DefinitionKeys, EffectRule)>, n: nat)
    requires
        n <= st.effects.len(),
    ensures
        clear_fold(st, defs, Clearing::AreaChange, n).effects.len() == st.effects.len(),
        forall|i: int| 0 <= i < n ==> (#[trigger] clear_fold(st, defs, Clearing::AreaChange, n).effects[i]).removed,
        forall|i: int|
            n <= i < st.effects.len() ==> #[trigger] clear_fold(st, defs, Clearing::AreaChange, n).effects[i]
                == st.effects[i],
    decreases n,
{
    if n > 0 {
        lemma_clear_area(st, defs, (n - 1) as nat);
    }
}

proof fn lemma_clear_death(st: TrackerView, defs: Seq<(DefinitionKeys, EffectRule)>, id: i64, n: nat)
    requires
        n <= st.effects.len(),
    ensures
        clear_fold(st, defs, Clearing::Death(id), n).effects.len() == st.effects.len(),
        forall|i: int|
            0 <= i < st.effects.len() && (i >= n || st.effects[i].target_id != id || (def_entry(
                defs,
                st.effects[i].key.definition_id@,
            ) matches Some(d) && d.1.persist_past_death)) ==> #[trigger] clear_fold(
                st,
                defs,
                Clearing::Death(id),
                n,
            ).effects[i] == st.effects[i],
        forall|i: int|
            0 <= i < n && st.effects[i].target_id == id && !(def_entry(defs, st.effects[i].key.definition_id@) matches Some(
                d,
            ) && d.1.persist_past_death) ==> (#[trigger] clear_fold(st, defs, Clearing::Death(id), n).effects[i]).removed,
    decreases n,
{
    if n > 0 {
        lemma_clear_death(st, defs, id, (n - 1) as nat);
    }
}

/// A death ends only the effects on the dead entity, and of those only the
/// ones whose definition does not keep them past death: every other effect,
/// whoever cast it, stays as it was.
pub proof fn law_death_ends_only_effects_on_the_dead(st: TrackerView, defs: Seq<(DefinitionKeys, EffectRule)>, id: i64)
    ensures
        spec_clear(st, defs, Clearing::Death(id)).effects.len() == st.effects.len(),
        forall|i: int|
            0 <= i < st.effects.len() && st.effects[i].target_id != id ==> #[trigger] spec_clear(
                st,
                defs,
                Clearing::Death(id),
            ).effects[i] == st.effects[i],
        forall|i: int|
            0 <= i < st.effects.len() && st.effects[i].target_id == id && !(def_entry(
                defs,
                st.effects[i].key.definition_id@,
            ) matches Some(d) && d.1.persist_past_death) ==> (#[trigger] spec_clear(
                st,
                defs,
                Clearing::Death(id),
            ).effects[i]).removed,
{
    lemma_clear_death(st, defs, id, st.effects.len());
}

/// Zoning into another area ends every tracked effect.
pub proof fn law_area_change_ends_every_effect(st: TrackerView, defs: Seq<(DefinitionKeys, EffectRule)>)
    ensures
        spec_clear(st, defs, Clearing::AreaChange).effects.len() == st.effects.len(),
        forall|i: int|
            0 <= i < st.effects.len() ==> (#[trigger] spec_clear(st, defs, Clearing::AreaChange).effects[i]).removed,
        spec_clear(st, defs, Clearing::AreaChange).pending_dot is None,
        spec_clear(st, defs, Clearing::AreaChange).pending_aoe is None,
{
    let st0 = TrackerView { pending_dot: None, pending_aoe: None, aoe_collecting: None, ..st };
    lemma_clear_area(st0, defs, st.effects.len());
    lemma_clear_keeps_pending(st0, defs, Clearing::AreaChange, st.effects.len());
}

proof fn lemma_clear_keeps_pending(st: TrackerView, defs: Seq<(DefinitionKeys, EffectRule)>, c: Clearing, n: nat)
    ensures
        clear_fold(st, defs, c, n).pending_dot == st.pending_dot,
        clear_fold(st, defs, c, n).pending_aoe == st.pending_aoe,
    decreases n,
{
    if n > 0 {
        lemma_clear_keeps_pending(st, defs, c, (n - 1) as nat);
    }
}

proof fn lemma_live_effects(s: Seq<ActiveEffect>)
    ensures
        forall|i: int| 0 <= i < live_effects(s).len() ==> !(#[trigger] live_effects(s)[i]).removed,
        live_effects(s).len() <= s.len(),
    decreases s.len(),
{
    if s.len() > 0 {
        lemma_live_effects(s.drop_last());
    }
}

/// After a tick no removed effect is left.
pub proof fn law_tick_leaves_no_removed_effect(st: TrackerView, defs: Seq<(DefinitionKeys, EffectRule)>, now: i64)
    requires
        st.game_time is Some,
    ensures
        forall|i: int|
            0 <= i < spec_tick(st, defs, now).effects.len() ==> !(#[trigger] spec_tick(st, defs, now).effects[i]).removed,
{
    let g = st.game_time->0;
    lemma_live_effects(tick_fold(st, defs, now, g, st.effects.len()).effects);
}

/// The tracker after an activation that may start an AoE refresh: an
/// ability that some definition refreshes by AoE damage correlation waits
/// for its damage on the primary target.
pub open spec fn spec_setup_aoe(
    st: TrackerView,
    defs: Seq<(DefinitionKeys, EffectRule)>,
    ability_id: i64,
    source_id: i64,
    ts: i64,
    primary_target: i64,
) -> TrackerView {
    if aoe_ids_of_all(defs).contains(ability_id as u64) {
        TrackerView {
            pending_aoe: Some(PendingAoeRefresh { ability_id, source_id, timestamp: ts, primary_target }),
            aoe_collecting: None,
            ..st
        }
    } else {
        st
    }
}

/// The definition's effect of `source` on `target`, restarted at `ts` if
/// there is one.
pub open spec fn refresh_present(st: TrackerView, r: EffectRule, source: i64, target: i64, ts: i64) -> TrackerView {
    match find_key(st.effects, key_for(r, source, target)) {
        Some(i) => TrackerView { effects: st.effects.update(i, refreshed(st.effects[i], ts, r.duration_ms)), ..st },
        None => st,
    }
}

/// The refreshes of the definitions (of the first `n`) whose AoE mode is
/// `immediate`, on one target.
pub open spec fn aoe_rules_fold(st: TrackerView, rules: Seq<EffectRule>, immediate: bool, source: i64, target: i64, ts: i64, n: nat) -> TrackerView
    decreases n,
{
    if n == 0 {
        st
    } else {
        let prev = aoe_rules_fold(st, rules, immediate, source, target, ts, (n - 1) as nat);
        if n - 1 < rules.len() && rules[n - 1].aoe_refresh_immediate == immediate {
            refresh_present(prev, rules[n - 1], source, target, ts)
        } else {
            prev
        }
    }
}

/// The collected targets' refreshes, target by target (of the first `n`).
pub open spec fn aoe_targets_fold(st: TrackerView, rules: Seq<EffectRule>, c: AoeView, n: nat) -> TrackerView
    decreases n,
{
    if n == 0 {
        st
    } else {
        let prev = aoe_targets_fold(st, rules, c, (n - 1) as nat);
        if n - 1 < c.targets.len() {
            aoe_rules_fold(prev, rules, false, c.source_id, c.targets[n - 1], c.anchor, rules.len())
        } else {
            prev
        }
    }
}

/// The tracker after an AoE collection ends: the effects of the strict AoE
/// definitions of the caster are restarted, at the primary hit's time, on
/// every target collected.
pub open spec fn spec_finalize_aoe(st: TrackerView, defs: Seq<(DefinitionKeys, EffectRule)>) -> TrackerView {
    match st.aoe_collecting {
        None => st,
        Some(c) => aoe_targets_fold(
            TrackerView { aoe_collecting: None, ..st },
            spec_find_refreshable(defs, c.ability_id as u64, None),
            c,
            c.targets.len(),
        ),
    }
}

/// Whether two times are within the AoE collection window of each other.
pub open spec fn within_window(a: i64, b: i64) -> bool {
    -COLLECT_WINDOW_MS <= a - b <= COLLECT_WINDOW_MS
}

/// The tracker after damage from an ability, for AoE refresh correlation.
/// While collecting for the ability, a hit within the window adds its
/// target; a later one ends the collection. A pending AoE refresh of the
/// ability times out after its timeout; else the hit refreshes the
/// immediate AoE definitions' effects on its target, and a hit on the
/// primary target starts collecting.
pub open spec fn spec_aoe_damage(st: TrackerView, defs: Seq<(DefinitionKeys, EffectRule)>, ev: AbilityEvent) -> TrackerView {
    let ts = ev.timestamp;
    if st.aoe_collecting matches Some(c) && c.ability_id == ev.ability_id && within_window(ts, c.anchor) {
        let c = st.aoe_collecting->0;
        TrackerView {
            aoe_collecting: Some(
                AoeView {
                    targets: if c.targets.contains(ev.target.id) {
                        c.targets
                    } else {
                        c.targets.push(ev.target.id)
                    },
                    ..c
                },
            ),
            ..st
        }
    } else {
        let st1 = if st.aoe_collecting matches Some(c) && c.ability_id == ev.ability_id {
            spec_finalize_aoe(st, defs)
        } else {
            st
        };
        match st1.pending_aoe {
            Some(p) => if p.ability_id != ev.ability_id {
                st1
            } else if sat_sub(ts, p.timestamp) > PENDING_TIMEOUT_MS {
                TrackerView { pending_aoe: None, ..st1 }
            } else {
                let rules = spec_find_refreshable(defs, ev.ability_id as u64, None);
                let st2 = aoe_rules_fold(st1, rules, true, p.source_id, ev.target.id, ts, rules.len());
                if ev.target.id == p.primary_target {
                    TrackerView {
                        aoe_collecting: Some(
                            AoeView { ability_id: ev.ability_id, source_id: p.source_id, anchor: ts, targets: seq![ev.target.id] },
                        ),
                        pending_aoe: None,
                        ..st2
                    }
                } else {
                    st2
                }
            },
            None => st1,
        }
    }
}

/// The tracker when a batch is done: an AoE collection whose window has
/// passed at the latest game time ends.
pub open spec fn spec_finalize_aoe_if_due(st: TrackerView, defs: Seq<(DefinitionKeys, EffectRule)>) -> TrackerView {
    if st.aoe_collecting matches Some(c) && (st.game_time matches Some(g) && g - c.anchor > COLLECT_WINDOW_MS) {
        spec_finalize_aoe(st, defs)
    } else {
        st
    }
}

impl TrackerCore {
    fn refresh_if_present(&mut self, r: &EffectRule, source: i64, target: i64, ts: i64)
        ensures
            final(self)@ == refresh_present(old(self)@, *r, source, target, ts),
    {
        let key = make_key(r, source, target);
        if let Some(i) = position_of_key(&self.effects, &key) {
            let e = self.take_effect(i);
            self.replace_effect(i, refresh_effect(e, ts, r.duration_ms));
        }
    }

    fn aoe_rules(&mut self, rules: &Vec<&EffectRule>, immediate: bool, source: i64, target: i64, ts: i64)
        ensures
            final(self)@ == aoe_rules_fold(old(self)@, derefs(rules@), immediate, source, target, ts, rules@.len()),
    {
        let ghost rs = derefs(rules@);
        let mut k: usize = 0;
        while k < rules.len()
            invariant
                k <= rules.len(),
                rs == derefs(rules@),
                rs.len() == rules@.len(),
                self@ == aoe_rules_fold(old(self)@, rs, immediate, source, target, ts, k as nat),
            decreases rules.len() - k,
        {
            let r = rules[k];
            assert(rs[k as int] == *r);
            if r.aoe_refresh_immediate == immediate {
                self.refresh_if_present(r, source, target, ts);
            }
            k = k + 1;
        }
    }
}

/// The effect after its definition is replaced by `d`: the definition's
/// name, display text (or name), color (or the default) and icon (or the
/// game ID), the new ready-state tail and expiry alert setting; an expiry alert newly turned on counts as
/// already fired, so running effects don't alert unexpectedly.
pub open spec fn updated_for(e: ActiveEffect, d: EffectRule) -> ActiveEffect {
    let on_expire = d.alert_on == AlertOn::OnExpire;
    ActiveEffect {
        name: d.name,
        display_text: d.shown_text(),
        color: d.spec_effective_color(),
        icon_ability_id: match d.icon_ability_id {
            Some(i) => i,
            None => e.game_effect_id,
        },
        cooldown_ready_ms: d.cooldown_ready_ms,
        alert_on_expire: on_expire,
        on_end_alert_fired: if on_expire && !e.alert_on_expire {
            true
        } else {
            e.on_end_alert_fired
        },
        ..e
    }
}

/// The effects kept under new definitions: those whose definition is there
/// and enabled, updated from it.
pub open spec fn kept_effects(s: Seq<ActiveEffect>, defs: Seq<(DefinitionKeys, EffectRule)>) -> Seq<ActiveEffect>
    decreases s.len(),
{
    if s.len() == 0 {
        s
    } else {
        let prev = kept_effects(s.drop_last(), defs);
        match def_entry(defs, s.last().key.definition_id@) {
            Some(d) => if d.0.enabled {
                prev.push(updated_for(s.last(), d.1))
            } else {
                prev
            },
            None => prev,
        }
    }
}

/// Whether an effect shows on an overlay: it is live, its timer still runs,
/// and its definition displays on that overlay.
pub open spec fn shown_on(defs: Seq<(DefinitionKeys, EffectRule)>, e: ActiveEffect, t: DisplayTarget) -> bool {
    &&& !e.removed
    &&& !e.timer_expired
    &&& def_entry(defs, e.key.definition_id@) matches Some(d) && d.1.display_targets@.contains(t)
}

/// The effects on an overlay, in order.
pub open spec fn effects_shown(s: Seq<ActiveEffect>, defs: Seq<(DefinitionKeys, EffectRule)>, t: DisplayTarget) -> Seq<ActiveEffect>
    decreases s.len(),
{
    if s.len() == 0 {
        s
    } else if shown_on(defs, s.last(), t) {
        effects_shown(s.drop_last(), defs, t).push(s.last())
    } else {
        effects_shown(s.drop_last(), defs, t)
    }
}

/// The effects on a target entity, in order.
pub open spec fn effects_on(s: Seq<ActiveEffect>, target: i64) -> Seq<ActiveEffect>
    decreases s.len(),
{
    if s.len() == 0 {
        s
    } else if s.last().target_id == target {
        effects_on(s.drop_last(), target).push(s.last())
    } else {
        effects_on(s.drop_last(), target)
    }
}

/// The references' targets.
pub open spec fn effect_refs(s: Seq<&ActiveEffect>) -> Seq<ActiveEffect> {
    s.map_values(|x: &ActiveEffect| *x)
}

/// A game signal that the tracker handles.
#[derive(Debug, Clone)]
pub enum Signal {
    EffectApplied(EffectEvent),
    EffectRemoved(EffectEvent),
    EffectChargesChanged(ChargesEvent),
    AbilityActivated(AbilityEvent),
    DamageTaken(AbilityEvent),
    HealingDone(AbilityEvent),
    EntityDeath(i64),
    CombatEnded,
    AreaEntered,
    TargetChanged { source_id: i64, target: EntityRef },
    TargetCleared(i64),
    /// A player's discipline changed (None: not a known discipline).
    DisciplineChanged { entity_id: i64, discipline: Option<i64> },
    /// A signal the tracker has no part in.
    Other,
}

/// The source and target of a signal that names both: effects applied or
/// removed, abilities activated, damage and healing.
pub open spec fn signal_parties(sig: Signal) -> Option<(EntityRef, EntityRef)> {
    match sig {
        Signal::EffectApplied(e) => Some((e.source, e.target)),
        Signal::EffectRemoved(e) => Some((e.source, e.target)),
        Signal::AbilityActivated(e) => Some((e.source, e.target)),
        Signal::DamageTaken(e) => Some((e.source, e.target)),
        Signal::HealingDone(e) => Some((e.source, e.target)),
        _ => None,
    }
}

impl Signal {
    /// The signal's source and target (see `signal_parties`).
    pub fn parties(&self) -> (r: Option<(EntityRef, EntityRef)>)
        ensures
            r == signal_parties(*self),
    {
        match self {
            Signal::EffectApplied(e) => Some((clone_entity(&e.source), clone_entity(&e.target))),
            Signal::EffectRemoved(e) => Some((clone_entity(&e.source), clone_entity(&e.target))),
            Signal::AbilityActivated(e) => Some((clone_entity(&e.source), clone_entity(&e.target))),
            Signal::DamageTaken(e) => Some((clone_entity(&e.source), clone_entity(&e.target))),
            Signal::HealingDone(e) => Some((clone_entity(&e.source), clone_entity(&e.target))),
            _ => None,
        }
    }
}

/// The target of an activation: a self-targeted or untargeted cast goes to
/// the caster's current target when one is known, else to the caster.
pub open spec fn resolved_target(ct: Seq<(i64, EntityRef)>, ev: AbilityEvent) -> AbilityEvent {
    if ev.target.id == 0 || ev.target.id == ev.source.id {
        match target_of(ct, ev.source.id) {
            Some(t) => AbilityEvent { target: t, ..ev },
            None => AbilityEvent { target: ev.source, ..ev },
        }
    } else {
        ev
    }
}

/// The tracker after one signal. `passes` decides a definition's checks,
/// `source_passes` and `target_passes` its source and target checks for
/// ability casts, and `refresh_for` resolves its refresh ability, all for
/// the signal at hand.
pub open spec fn spec_handle_signal<
    F: Fn(&EffectRule) -> bool,
    F2: Fn(&EffectRule) -> bool,
    F3: Fn(&EffectRule) -> bool,
    G: Fn(&EffectRule) -> Option<RefreshRule>,
>(
    st: TrackerView,
    defs: Seq<(DefinitionKeys, EffectRule)>,
    sig: Signal,
    passes: F,
    source_passes: F2,
    target_passes: F3,
    refresh_for: G,
) -> TrackerView {
    match sig {
        Signal::EffectApplied(e) => spec_effect_applied(st, defs, e, passes),
        Signal::EffectRemoved(e) => spec_effect_removed(st, defs, e, passes),
        Signal::EffectChargesChanged(e) => spec_charges_changed(st, defs, e),
        Signal::AbilityActivated(e) => {
            let st1 = TrackerView { game_time: advanced(st.game_time, e.timestamp), ..st };
            let ev = AbilityEvent { immune_or_resist: false, ..resolved_target(st.current_targets, e) };
            let st2 = spec_ability_cast(st1, defs, ev, source_passes, target_passes);
            let st3 = spec_refresh_by_action(st2, defs, RefreshTrigger::Activation, ev, passes, refresh_for);
            spec_setup_aoe(st3, defs, ev.ability_id, ev.source.id, ev.timestamp, ev.target.id)
        },
        Signal::DamageTaken(e) => {
            let st0 = spec_aoe_damage(st, defs, e);
            let st1 = spec_dot_refresh(st0, defs, e, refresh_for);
            let st2 = spec_refresh_by_action(st1, defs, RefreshTrigger::Damage, e, passes, refresh_for);
            spec_ability_taken(st2, defs, TriggerKind::DamageTaken, e, passes)
        },
        Signal::HealingDone(e) => {
            let ev = AbilityEvent { immune_or_resist: false, ..e };
            let st1 = spec_refresh_by_action(st, defs, RefreshTrigger::Heal, ev, passes, refresh_for);
            spec_ability_taken(st1, defs, TriggerKind::HealingTaken, ev, passes)
        },
        Signal::EntityDeath(id) => spec_clear(st, defs, Clearing::Death(id)),
        Signal::CombatEnded => spec_clear(st, defs, Clearing::CombatEnd),
        Signal::AreaEntered => spec_clear(st, defs, Clearing::AreaChange),
        Signal::TargetChanged { source_id, target } => TrackerView {
            current_targets: with_target(st.current_targets, source_id, target),
            ..st
        },
        Signal::TargetCleared(source_id) => TrackerView {
            current_targets: without_target(st.current_targets, source_id),
            ..st
        },
        Signal::DisciplineChanged { entity_id, discipline } => spec_discipline_changed(st, entity_id, discipline),
        Signal::Other => st,
    }
}

fn resolve_target(ct: &Vec<(i64, EntityRef)>, ev: &AbilityEvent) -> (r: AbilityEvent)
    ensures
        r == (AbilityEvent { immune_or_resist: false, ..resolved_target(ct@, *ev) }),
{
    let source = clone_entity(&ev.source);
    let target = if ev.target.id == 0 || ev.target.id == ev.source.id {
        let mut found: Option<EntityRef> = None;
        let mut i: usize = 0;
        assert(ct@.take(0) =~= Seq::<(i64, EntityRef)>::empty());
        while i < ct.len()
            invariant
                i <= ct.len(),
                found == target_of(ct@.take(i as int), ev.source.id),
            decreases ct.len() - i,
        {
            proof {
                assert(ct@.take(i + 1).drop_last() =~= ct@.take(i as int));
            }
            if ct[i].0 == ev.source.id {
                found = Some(clone_entity(&ct[i].1));
            }
            i = i + 1;
        }
        assert(ct@.take(ct.len() as int) =~= ct@);
        match found {
            Some(t) => t,
            None => clone_entity(&ev.source),
        }
    } else {
        clone_entity(&ev.target)
    };
    AbilityEvent {
        ability_id: ev.ability_id,
        ability_name: ev.ability_name.clone(),
        source,
        target,
        timestamp: ev.timestamp,
        immune_or_resist: false,
    }
}

/// Tracks active effects for overlay display: matches game signals against
/// effect definitions and keeps the effects they start.
pub struct EffectTracker {
    definitions: DefinitionSet<EffectRule>,
    core: TrackerCore,
}

impl EffectTracker {
    /// The state of the tracker.
    pub closed spec fn state(&self) -> TrackerView {
        self.core@
    }

    /// The definitions, in order.
    pub closed spec fn defs(&self) -> Seq<(DefinitionKeys, EffectRule)> {
        self.definitions.defs()
    }

    /// A tracker with the given definitions and nothing tracked.
    pub fn new(definitions: DefinitionSet<EffectRule>) -> (r: Self)
        ensures
            r.defs() == definitions.defs(),
            r.state() == (TrackerView {
                effects: Seq::empty(),
                alerts: Seq::empty(),
                new_targets: Seq::empty(),
                ticking: 0,
                game_time: None,
                local_player_id: None,
                pending_dot: None,
                pending_aoe: None,
                aoe_collecting: None,
                current_targets: Seq::empty(),
                local_discipline: None,
                player_disciplines: Seq::empty(),
            }),
    {
        EffectTracker { definitions, core: TrackerCore::new() }
    }

    /// Set the local player and its discipline (None: not a known
    /// discipline).
    pub fn set_player_context(&mut self, player_id: i64, discipline: Option<i64>)
        ensures
            final(self).defs() == old(self).defs(),
            final(self).state() == (TrackerView {
                local_player_id: Some(player_id),
                local_discipline: discipline,
                ..old(self).state()
            }),
    {
        self.core.local_player_id = Some(player_id);
        self.core.local_discipline = discipline;
    }

    /// Whether a definition's discipline scope admits the local player's
    /// discipline (see `discipline_admits`).
    pub fn matches_discipline(&self, rule: &EffectRule) -> (r: bool)
        ensures
            r == discipline_admits(rule.disciplines@, self.state().local_discipline),
    {
        discipline_matches(&rule.disciplines, self.core.local_discipline)
    }

    /// Whether an entity passes a source or target discipline filter (see
    /// `entity_disciplines_admit`).
    pub fn matches_entity_disciplines(&self, filters: &Vec<i64>, entity: &EntityRef) -> (r: bool)
        ensures
            r == entity_disciplines_admit(self.state().player_disciplines, filters@, *entity),
    {
        self.core.entity_passes(filters, entity)
    }

    /// A copy of what the discipline gates read, for deciding a signal's
    /// definitions while the tracker handles it.
    pub fn discipline_gates(&self) -> (r: DisciplineGates)
        ensures
            r.local_discipline == self.state().local_discipline,
            r.player_disciplines@ == self.state().player_disciplines,
    {
        self.core.gates()
    }

    /// The discipline checks of a definition for a source and a target: its
    /// discipline scope, then its source and target discipline filters.
    pub fn admits_disciplines(&self, rule: &EffectRule, source: &EntityRef, target: &EntityRef) -> (r: bool)
        ensures
            r == (discipline_admits(rule.disciplines@, self.state().local_discipline)
                && entity_disciplines_admit(self.state().player_disciplines, rule.source_disciplines@, *source)
                && entity_disciplines_admit(self.state().player_disciplines, rule.target_disciplines@, *target)),
    {
        self.matches_discipline(rule) && self.matches_entity_disciplines(&rule.source_disciplines, source)
            && self.matches_entity_disciplines(&rule.target_disciplines, target)
    }

    /// Take the fired alerts (drains the queue).
    pub fn take_fired_alerts(&mut self) -> (r: Vec<FiredAlert>)
        ensures
            final(self).defs() == old(self).defs(),
            alert_views(r@) == old(self).state().alerts,
            final(self).state() == (TrackerView { alerts: Seq::empty(), ..old(self).state() }),
    {
        let mut out: Vec<FiredAlert> = Vec::new();
        std::mem::swap(&mut out, &mut self.core.alerts);
        assert(alert_views(self.core.alerts@) =~= Seq::<AlertView>::empty());
        out
    }

    /// Take the targets queued for raid frame registration (drains the
    /// queue).
    pub fn take_new_targets(&mut self) -> (r: Vec<NewTargetInfo>)
        ensures
            final(self).defs() == old(self).defs(),
            r@ == old(self).state().new_targets,
            final(self).state() == (TrackerView { new_targets: Seq::empty(), ..old(self).state() }),
    {
        let mut out: Vec<NewTargetInfo> = Vec::new();
        std::mem::swap(&mut out, &mut self.core.new_targets);
        out
    }

    /// The tracked effects.
    pub fn active_effects(&self) -> (r: &Vec<ActiveEffect>)
        ensures
            r@ == self.state().effects,
    {
        &self.core.effects
    }

    /// Whether any effect is tracked.
    pub fn has_active_effects(&self) -> (r: bool)
        ensures
            r == (self.state().effects.len() > 0),
    {
        self.core.effects.len() > 0
    }

    /// Whether any effect is still running its timer.
    pub fn has_ticking_effects(&self) -> (r: bool)
        ensures
            r == (self.state().ticking > 0),
    {
        self.core.ticking > 0
    }

    /// Whether there is anything to render or register.
    pub fn has_pending_work(&self) -> (r: bool)
        ensures
            r == (self.state().ticking > 0 || self.state().new_targets.len() > 0),
    {
        self.core.ticking > 0 || self.core.new_targets.len() > 0
    }

    /// The latest game time seen.
    pub fn current_game_time(&self) -> (r: Option<i64>)
        ensures
            r == self.state().game_time,
    {
        self.core.game_time
    }

    /// Replace the definitions (after a configuration reload): effects whose
    /// definition is gone or disabled are dropped, the others take the new
    /// settings (see `kept_effects`).
    pub fn set_definitions(&mut self, definitions: DefinitionSet<EffectRule>)
        ensures
            final(self).defs() == definitions.defs(),
            final(self).state() == (TrackerView {
                effects: kept_effects(old(self).state().effects, definitions.defs()),
                ..old(self).state()
            }),
    {
        let mut kept: Vec<ActiveEffect> = Vec::new();
        let mut i: usize = 0;
        assert(self.core.effects@.take(0) =~= Seq::<ActiveEffect>::empty());
        while i < self.core.effects.len()
            invariant
                i <= self.core.effects.len(),
                self.core@ == old(self).state(),
                kept@ == kept_effects(self.core.effects@.take(i as int), definitions.defs()),
            decreases self.core.effects.len() - i,
        {
            proof {
                assert(self.core.effects@.take(i + 1).drop_last() =~= self.core.effects@.take(i as int));
            }
            let e = &self.core.effects[i];
            if let Some(d) = definitions.get_entry(e.key.definition_id.as_str()) {
                if d.0.enabled {
                    let on_expire = d.1.alert_on == AlertOn::OnExpire;
                    let fired = if on_expire && !e.alert_on_expire {
                        true
                    } else {
                        e.on_end_alert_fired
                    };
                    let c = copy_effect(e);
                    let icon = match d.1.icon_ability_id {
                        Some(i) => i,
                        None => c.game_effect_id,
                    };
                    kept.push(
                        ActiveEffect {
                            name: d.1.name.clone(),
                            display_text: d.1.shown_text_owned(),
                            color: d.1.effective_color(),
                            icon_ability_id: icon,
                            cooldown_ready_ms: d.1.cooldown_ready_ms,
                            alert_on_expire: on_expire,
                            on_end_alert_fired: fired,
                            ..c
                        },
                    );
                }
            }
            i = i + 1;
        }
        assert(self.core.effects@.take(self.core.effects.len() as int) =~= self.core.effects@);
        self.core.effects = kept;
        self.definitions = definitions;
    }

    /// The effects destined for an overlay (raid frames, effects A or B,
    /// cooldowns, DOT tracker, boss health, ...).
    pub fn effects_shown_on(&self, t: DisplayTarget) -> (r: Vec<&ActiveEffect>)
        ensures
            effect_refs(r@) == effects_shown(self.state().effects, self.defs(), t),
    {
        let mut out: Vec<&ActiveEffect> = Vec::new();
        let mut i: usize = 0;
        assert(self.core.effects@.take(0) =~= Seq::<ActiveEffect>::empty());
        assert(effect_refs(out@) =~= Seq::<ActiveEffect>::empty());
        while i < self.core.effects.len()
            invariant
                i <= self.core.effects.len(),
                effect_refs(out@) == effects_shown(self.core.effects@.take(i as int), self.defs(), t),
            decreases self.core.effects.len() - i,
        {
            proof {
                assert(self.core.effects@.take(i + 1).drop_last() =~= self.core.effects@.take(i as int));
            }
            let e = &self.core.effects[i];
            let shown = !e.removed && !e.timer_expired && match self.definitions.get_entry(e.key.definition_id.as_str()) {
                Some(d) => shows_on(&d.1.display_targets, t),
                None => false,
            };
            if shown {
                let ghost before = out@;
                out.push(e);
                assert(effect_refs(out@) =~= effect_refs(before).push(*e));
            }
            i = i + 1;
        }
        assert(self.core.effects@.take(self.core.effects.len() as int) =~= self.core.effects@);
        out
    }

    /// The effects on a target entity.
    pub fn effects_for_target(&self, target_id: i64) -> (r: Vec<&ActiveEffect>)
        ensures
            effect_refs(r@) == effects_on(self.state().effects, target_id),
    {
        let mut out: Vec<&ActiveEffect> = Vec::new();
        let mut i: usize = 0;
        assert(self.core.effects@.take(0) =~= Seq::<ActiveEffect>::empty());
        assert(effect_refs(out@) =~= Seq::<ActiveEffect>::empty());
        while i < self.core.effects.len()
            invariant
                i <= self.core.effects.len(),
                effect_refs(out@) == effects_on(self.core.effects@.take(i as int), target_id),
            decreases self.core.effects.len() - i,
        {
            proof {
                assert(self.core.effects@.take(i + 1).drop_last() =~= self.core.effects@.take(i as int));
            }
            let e = &self.core.effects[i];
            if e.target_id == target_id {
                let ghost before = out@;
                out.push(e);
                assert(effect_refs(out@) =~= effect_refs(before).push(*e));
            }
            i = i + 1;
        }
        assert(self.core.effects@.take(self.core.effects.len() as int) =~= self.core.effects@);
        out
    }

    /// Handle an effect application (see `spec_effect_applied`). `passes`
    /// decides whether a definition's source and target filters pass for
    /// this event.
    pub fn handle_effect_applied<F: Fn(&EffectRule) -> bool>(&mut self, ev: &EffectEvent, passes: &F)
        requires
            decides(*passes),
        ensures
            final(self).defs() == old(self).defs(),
            final(self).state() == spec_effect_applied(old(self).state(), old(self).defs(), *ev, *passes),
    {
        let ghost st = self.core@;
        let local = self.core.local_player_id;
        self.core.advance(ev.timestamp);
        let ghost st0 = self.core@;
        let matches = self.definitions.find_matching(ev.effect_id as u64, Some(ev.effect_name.as_str()));
        let ghost rules = derefs(matches@);
        assert(rules.len() == matches.len());
        let mut register = false;
        let mut i: usize = 0;
        assert(rules.take(0) =~= Seq::<EffectRule>::empty());
        while i < matches.len()
            invariant
                i <= matches.len(),
                rules == derefs(matches@),
                rules == spec_find(old(self).defs(), SelectorKind::Effect, ev.effect_id as u64, Some(ev.effect_name@)),
                self.defs() == old(self).defs(),
                st0 == (TrackerView { game_time: advanced(st.game_time, ev.timestamp), ..st }),
                st == old(self).state(),
                decides(*passes),
                (self.core@, register) == applied_fold(st0, rules.take(i as int), *ev, *passes),
            decreases matches.len() - i,
        {
            let r = matches[i];
            proof {
                assert(rules.take(i + 1).drop_last() =~= rules.take(i as int));
                assert(rules.take(i + 1).last() == *r);
            }
            let ok = r.trigger == TriggerKind::EffectApplied && passes(r);
            proof {
                if r.trigger == TriggerKind::EffectApplied {
                    assert(ok == verdict(*passes, *r));
                }
            }
            let reg = self.core.apply_one(r, ok, ev);
            register = register || reg;
            i = i + 1;
        }
        assert(rules.take(matches.len() as int) =~= rules);
        if register && local == Some(ev.source.id) && ev.target.is_player {
            self.core.push_target(&ev.target);
        }
    }

    /// Handle an ability cast (see `spec_ability_cast`). `source_passes`
    /// decides a definition's discipline and source checks, `target_passes`
    /// its target checks, for this event.
    pub fn handle_ability_cast<F: Fn(&EffectRule) -> bool, G: Fn(&EffectRule) -> bool>(
        &mut self,
        ev: &AbilityEvent,
        source_passes: &F,
        target_passes: &G,
    )
        requires
            decides(*source_passes),
            decides(*target_passes),
        ensures
            final(self).defs() == old(self).defs(),
            final(self).state() == spec_ability_cast(old(self).state(), old(self).defs(), *ev, *source_passes, *target_passes),
    {
        let matches = self.definitions.find_ability_cast_matching(ev.ability_id as u64, Some(ev.ability_name.as_str()));
        let ghost rules = derefs(matches@);
        let ghost st0 = self.core@;
        assert(rules.len() == matches.len());
        let mut i: usize = 0;
        assert(rules.take(0) =~= Seq::<EffectRule>::empty());
        while i < matches.len()
            invariant
                i <= matches.len(),
                rules == derefs(matches@),
                rules == spec_find(old(self).defs(), SelectorKind::Ability, ev.ability_id as u64, Some(ev.ability_name@)),
                self.defs() == old(self).defs(),
                st0 == old(self).state(),
                decides(*source_passes),
                decides(*target_passes),
                self.core@ == cast_fold(st0, rules.take(i as int), *ev, *source_passes, *target_passes),
            decreases matches.len() - i,
        {
            let r = matches[i];
            proof {
                assert(rules.take(i + 1).drop_last() =~= rules.take(i as int));
                assert(rules.take(i + 1).last() == *r);
            }
            let source_ok = r.trigger == TriggerKind::AbilityCast && source_passes(r);
            let target_ok = if source_ok && !r.is_alert {
                target_passes(r)
            } else {
                false
            };
            proof {
                if r.trigger == TriggerKind::AbilityCast {
                    assert(source_ok == verdict(*source_passes, *r));
                }
                if source_ok && !r.is_alert {
                    assert(target_ok == verdict(*target_passes, *r));
                }
                assert(cast_step(self.core@, *r, source_ok, target_ok, *ev) == cast_step(
                    self.core@,
                    *r,
                    r.trigger == TriggerKind::AbilityCast && verdict(*source_passes, *r),
                    verdict(*target_passes, *r),
                    *ev,
                ));
            }
            self.core.cast_one(r, source_ok, target_ok, ev);
            i = i + 1;
        }
        assert(rules.take(matches.len() as int) =~= rules);
    }

    /// Handle damage or healing taken for the definitions that trigger on it
    /// (`kind` is `DamageTaken` or `HealingTaken`; see `spec_ability_taken`).
    pub fn handle_ability_event_trigger<F: Fn(&EffectRule) -> bool>(
        &mut self,
        ev: &AbilityEvent,
        kind: TriggerKind,
        passes: &F,
    )
        requires
            decides(*passes),
        ensures
            final(self).defs() == old(self).defs(),
            final(self).state() == spec_ability_taken(old(self).state(), old(self).defs(), kind, *ev, *passes),
    {
        self.core.advance(ev.timestamp);
        let matches = self.definitions.find_ability_cast_matching(ev.ability_id as u64, Some(ev.ability_name.as_str()));
        let ghost rules = derefs(matches@);
        let ghost st0 = self.core@;
        assert(rules.len() == matches.len());
        let mut i: usize = 0;
        assert(rules.take(0) =~= Seq::<EffectRule>::empty());
        while i < matches.len()
            invariant
                i <= matches.len(),
                rules == derefs(matches@),
                rules == spec_find(old(self).defs(), SelectorKind::Ability, ev.ability_id as u64, Some(ev.ability_name@)),
                self.defs() == old(self).defs(),
                st0 == (TrackerView { game_time: advanced(old(self).state().game_time, ev.timestamp), ..old(self).state() }),
                decides(*passes),
                self.core@ == taken_fold(st0, rules.take(i as int), kind, *ev, *passes),
            decreases matches.len() - i,
        {
            let r = matches[i];
            proof {
                assert(rules.take(i + 1).drop_last() =~= rules.take(i as int));
                assert(rules.take(i + 1).last() == *r);
            }
            let ok = r.trigger == kind && passes(r);
            proof {
                if r.trigger == kind {
                    assert(ok == verdict(*passes, *r));
                }
            }
            self.core.taken_one(r, ok, ev);
            i = i + 1;
        }
        assert(rules.take(matches.len() as int) =~= rules);
    }

    /// Refresh the effects that an action can refresh (see
    /// `spec_refresh_by_action`). `passes` decides a definition's checks for
    /// this event; `refresh_for` resolves its refresh ability for the action.
    pub fn refresh_effects_by_action<F: Fn(&EffectRule) -> bool, G: Fn(&EffectRule) -> Option<RefreshRule>>(
        &mut self,
        ev: &AbilityEvent,
        trigger: RefreshTrigger,
        passes: &F,
        refresh_for: &G,
    )
        requires
            decides(*passes),
            resolves(*refresh_for),
        ensures
            final(self).defs() == old(self).defs(),
            final(self).state() == spec_refresh_by_action(
                old(self).state(),
                old(self).defs(),
                trigger,
                *ev,
                *passes,
                *refresh_for,
            ),
    {
        if ev.target.id == 0 {
            return;
        }
        let matches = self.definitions.find_refreshable_by(ev.ability_id as u64, Some(ev.ability_name.as_str()));
        let ghost rules = derefs(matches@);
        let ghost st0 = self.core@;
        assert(rules.len() == matches.len());
        let mut i: usize = 0;
        assert(rules.take(0) =~= Seq::<EffectRule>::empty());
        while i < matches.len()
            invariant
                i <= matches.len(),
                rules == derefs(matches@),
                rules == spec_find_refreshable(old(self).defs(), ev.ability_id as u64, Some(ev.ability_name@)),
                self.defs() == old(self).defs(),
                st0 == old(self).state(),
                decides(*passes),
                resolves(*refresh_for),
                self.core@ == refresh_fold(st0, rules.take(i as int), trigger, *ev, *passes, *refresh_for),
            decreases matches.len() - i,
        {
            let r = matches[i];
            proof {
                assert(rules.take(i + 1).drop_last() =~= rules.take(i as int));
                assert(rules.take(i + 1).last() == *r);
            }
            let ok = passes(r);
            let rr = refresh_for(r);
            proof {
                assert(ok == verdict(*passes, *r));
                assert(rr == chosen_refresh(*refresh_for, *r));
            }
            if ok {
                if let Some(x) = rr {
                    if x.trigger == trigger && !(ev.immune_or_resist && x.ignore_immune_resist) {
                        self.core.refresh_one(r, x, trigger, ev);
                    }
                }
            }
            i = i + 1;
        }
        assert(rules.take(matches.len() as int) =~= rules);
    }

    /// Handle an effect removal (see `spec_effect_removed`). `passes`
    /// decides a definition's filters for this event.
    pub fn handle_effect_removed<F: Fn(&EffectRule) -> bool>(&mut self, ev: &EffectEvent, passes: &F)
        requires
            decides(*passes),
        ensures
            final(self).defs() == old(self).defs(),
            final(self).state() == spec_effect_removed(old(self).state(), old(self).defs(), *ev, *passes),
    {
        self.core.advance(ev.timestamp);
        let matches = self.definitions.find_matching(ev.effect_id as u64, Some(ev.effect_name.as_str()));
        let ghost rules = derefs(matches@);
        let ghost st0 = self.core@;
        assert(rules.len() == matches.len());
        let mut i: usize = 0;
        assert(rules.take(0) =~= Seq::<EffectRule>::empty());
        while i < matches.len()
            invariant
                i <= matches.len(),
                rules == derefs(matches@),
                rules == spec_find(old(self).defs(), SelectorKind::Effect, ev.effect_id as u64, Some(ev.effect_name@)),
                self.defs() == old(self).defs(),
                st0 == (TrackerView { game_time: advanced(old(self).state().game_time, ev.timestamp), ..old(self).state() }),
                decides(*passes),
                self.core@ == removed_fold(st0, rules.take(i as int), *ev, *passes),
            decreases matches.len() - i,
        {
            let r = matches[i];
            proof {
                assert(rules.take(i + 1).drop_last() =~= rules.take(i as int));
                assert(rules.take(i + 1).last() == *r);
            }
            let ok = if r.trigger == TriggerKind::EffectRemoved {
                passes(r)
            } else {
                false
            };
            proof {
                if r.trigger == TriggerKind::EffectRemoved {
                    assert(ok == verdict(*passes, *r));
                }
                assert(removed_step(self.core@, *r, ok, *ev) == removed_step(self.core@, *r, verdict(*passes, *r), *ev));
            }
            self.core.removed_one(r, ok, ev);
            i = i + 1;
        }
        assert(rules.take(matches.len() as int) =~= rules);
    }

    /// Clear effects on a death, a combat end or an area change (see
    /// `spec_clear`).
    pub fn clear_effects(&mut self, c: Clearing)
        ensures
            final(self).defs() == old(self).defs(),
            final(self).state() == spec_clear(old(self).state(), old(self).defs(), c),
    {
        match c {
            Clearing::Death(_) => {},
            _ => {
                self.core.pending_dot = None;
                self.core.pending_aoe = None;
                self.core.aoe_collecting = None;
            },
        }
        let ghost st0 = self.core@;
        let n = self.core.effects.len();
        let mut i: usize = 0;
        while i < n
            invariant
                i <= n,
                n == old(self).state().effects.len(),
                self.defs() == old(self).defs(),
                st0 == (match c {
                    Clearing::Death(_) => old(self).state(),
                    _ => TrackerView { pending_dot: None, pending_aoe: None, aoe_collecting: None, ..old(self).state() },
                }),
                self.core@ == clear_fold(st0, old(self).defs(), c, i as nat),
                self.core@.effects.len() == n,
            decreases n - i,
        {
            let cleared = {
                let e = &self.core.effects[i];
                let entry = self.definitions.get_entry(e.key.definition_id.as_str());
                match c {
                    Clearing::Death(id) => e.target_id == id && !match entry {
                        Some(d) => d.1.persist_past_death,
                        None => false,
                    },
                    Clearing::CombatEnd => !match entry {
                        Some(d) => d.0.enabled && d.1.track_outside_combat,
                        None => false,
                    },
                    Clearing::AreaChange => true,
                }
            };
            proof {
                assert(cleared == clears(old(self).defs(), c, self.core@.effects[i as int]));
            }
            if cleared {
                self.core.mark_removed(i);
            }
            i = i + 1;
        }
    }

    /// Handle damage that may confirm a refresh waiting for the ability's
    /// first damage (see `spec_dot_refresh`). `refresh_for` resolves a
    /// definition's refresh ability for the ability.
    pub fn handle_damage_for_dot_refresh<G: Fn(&EffectRule) -> Option<RefreshRule>>(
        &mut self,
        ev: &AbilityEvent,
        refresh_for: &G,
    )
        requires
            resolves(*refresh_for),
        ensures
            final(self).defs() == old(self).defs(),
            final(self).state() == spec_dot_refresh(old(self).state(), old(self).defs(), *ev, *refresh_for),
    {
        let p = match self.core.pending_dot {
            Some(p) => p,
            None => return,
        };
        if p.ability_id != ev.ability_id || self.core.local_player_id == Some(ev.target.id) {
            return;
        }
        self.core.pending_dot = None;
        if sub_ms(ev.timestamp, p.timestamp) > PENDING_TIMEOUT_MS {
            return;
        }
        let matches = self.definitions.find_refreshable_by(ev.ability_id as u64, None);
        let ghost rules = derefs(matches@);
        let ghost st0 = self.core@;
        assert(rules.len() == matches.len());
        let mut i: usize = 0;
        assert(rules.take(0) =~= Seq::<EffectRule>::empty());
        while i < matches.len()
            invariant
                i <= matches.len(),
                rules == derefs(matches@),
                rules == spec_find_refreshable(old(self).defs(), ev.ability_id as u64, None),
                self.defs() == old(self).defs(),
                st0 == (TrackerView { pending_dot: None, ..old(self).state() }),
                resolves(*refresh_for),
                self.core@ == dot_fold(st0, rules.take(i as int), p.source_id, *ev, *refresh_for),
            decreases matches.len() - i,
        {
            let r = matches[i];
            proof {
                assert(rules.take(i + 1).drop_last() =~= rules.take(i as int));
                assert(rules.take(i + 1).last() == *r);
            }
            let rr = refresh_for(r);
            proof {
                assert(rr == chosen_refresh(*refresh_for, *r));
            }
            self.core.dot_one(r, rr, p.source_id, ev);
            i = i + 1;
        }
        assert(rules.take(matches.len() as int) =~= rules);
    }

    /// Tick the tracker at `now`, the game time interpolated to the moment
    /// (see `spec_tick`).
    pub fn tick(&mut self, now: i64)
        ensures
            final(self).defs() == old(self).defs(),
            final(self).state() == spec_tick(old(self).state(), old(self).defs(), now),
    {
        let ts = match self.core.game_time {
            Some(g) => g,
            None => return,
        };
        let n = self.core.effects.len();
        let ghost st0 = self.core@;
        let mut i: usize = 0;
        while i < n
            invariant
                i <= n,
                n == st0.effects.len(),
                st0 == old(self).state(),
                self.defs() == old(self).defs(),
                self.core@ == tick_fold(st0, old(self).defs(), now, ts, i as nat),
                self.core@.effects.len() == n,
            decreases n - i,
        {
            self.core.tick_at(i, now, ts, &self.definitions);
            i = i + 1;
        }
        self.core.drop_removed();
    }

    /// Start waiting for an AoE refresh's damage (see `spec_setup_aoe`).
    pub fn setup_pending_aoe_refresh(&mut self, ability_id: i64, source_id: i64, ts: i64, primary_target: i64)
        ensures
            final(self).defs() == old(self).defs(),
            final(self).state() == spec_setup_aoe(old(self).state(), old(self).defs(), ability_id, source_id, ts, primary_target),
    {
        if self.definitions.is_aoe_refresh(ability_id as u64) {
            self.core.pending_aoe = Some(PendingAoeRefresh { ability_id, source_id, timestamp: ts, primary_target });
            self.core.aoe_collecting = None;
        }
    }

    /// End an AoE collection (see `spec_finalize_aoe`).
    pub fn finalize_aoe_refresh(&mut self)
        ensures
            final(self).defs() == old(self).defs(),
            final(self).state() == spec_finalize_aoe(old(self).state(), old(self).defs()),
    {
        let mut taken: Option<AoeCollecting> = None;
        std::mem::swap(&mut taken, &mut self.core.aoe_collecting);
        let c = match taken {
            Some(c) => c,
            None => return,
        };
        let ghost cv = aoe_view(Some(c))->0;
        let matches = self.definitions.find_refreshable_by(c.ability_id as u64, None);
        let ghost rules = derefs(matches@);
        let ghost st0 = self.core@;
        let mut t: usize = 0;
        while t < c.targets.len()
            invariant
                t <= c.targets.len(),
                cv == (AoeView { ability_id: c.ability_id, source_id: c.source_id, anchor: c.anchor, targets: c.targets@ }),
                rules == derefs(matches@),
                rules.len() == matches@.len(),
                rules == spec_find_refreshable(old(self).defs(), c.ability_id as u64, None),
                self.defs() == old(self).defs(),
                st0 == (TrackerView { aoe_collecting: None, ..old(self).state() }),
                old(self).state().aoe_collecting == Some(cv),
                self.core@ == aoe_targets_fold(st0, rules, cv, t as nat),
            decreases c.targets.len() - t,
        {
            self.core.aoe_rules(&matches, false, c.source_id, c.targets[t], c.anchor);
            t = t + 1;
        }
    }

    /// Correlate damage with a pending or collecting AoE refresh (see
    /// `spec_aoe_damage`).
    pub fn handle_damage_for_aoe_refresh(&mut self, ev: &AbilityEvent)
        ensures
            final(self).defs() == old(self).defs(),
            final(self).state() == spec_aoe_damage(old(self).state(), old(self).defs(), *ev),
    {
        let ts = ev.timestamp;
        let collecting_this = match &self.core.aoe_collecting {
            Some(c) => c.ability_id == ev.ability_id,
            None => false,
        };
        if collecting_this {
            let within = {
                let c = match &self.core.aoe_collecting {
                    Some(c) => c,
                    None => return,
                };
                let d: i128 = ts as i128 - c.anchor as i128;
                -(COLLECT_WINDOW_MS as i128) <= d && d <= COLLECT_WINDOW_MS as i128
            };
            if within {
                let mut taken: Option<AoeCollecting> = None;
                std::mem::swap(&mut taken, &mut self.core.aoe_collecting);
                let mut c = match taken {
                    Some(c) => c,
                    None => return,
                };
                let mut seen = false;
                let mut k: usize = 0;
                while k < c.targets.len()
                    invariant
                        k <= c.targets.len(),
                        seen == exists|j: int| 0 <= j < k && c.targets@[j] == ev.target.id,
                    decreases c.targets.len() - k,
                {
                    if c.targets[k] == ev.target.id {
                        seen = true;
                    }
                    k = k + 1;
                }
                proof {
                    assert(seen == c.targets@.contains(ev.target.id));
                }
                if !seen {
                    c.targets.push(ev.target.id);
                }
                self.core.aoe_collecting = Some(c);
                return;
            }
            self.finalize_aoe_refresh();
        }
        let p = match self.core.pending_aoe {
            Some(p) => p,
            None => return,
        };
        if p.ability_id != ev.ability_id {
            return;
        }
        if sub_ms(ts, p.timestamp) > PENDING_TIMEOUT_MS {
            self.core.pending_aoe = None;
            return;
        }
        let matches = self.definitions.find_refreshable_by(ev.ability_id as u64, None);
        self.core.aoe_rules(&matches, true, p.source_id, ev.target.id, ts);
        if ev.target.id == p.primary_target {
            let mut targets: Vec<i64> = Vec::new();
            targets.push(ev.target.id);
            self.core.aoe_collecting = Some(
                AoeCollecting { ability_id: ev.ability_id, source_id: p.source_id, anchor: ts, targets },
            );
            self.core.pending_aoe = None;
            assert(aoe_view(self.core.aoe_collecting)->0.targets =~= seq![ev.target.id]);
        }
    }

    /// End an AoE collection whose window has passed (see
    /// `spec_finalize_aoe_if_due`).
    pub fn finalize_aoe_if_due(&mut self)
        ensures
            final(self).defs() == old(self).defs(),
            final(self).state() == spec_finalize_aoe_if_due(old(self).state(), old(self).defs()),
    {
        let due = match (&self.core.aoe_collecting, self.core.game_time) {
            (Some(c), Some(g)) => g as i128 - c.anchor as i128 > COLLECT_WINDOW_MS as i128,
            _ => false,
        };
        if due {
            self.finalize_aoe_refresh();
        }
    }

    /// Handle a change of an effect's stack count (see
    /// `spec_charges_changed`).
    pub fn handle_charges_changed(&mut self, ev: &ChargesEvent)
        ensures
            final(self).defs() == old(self).defs(),
            final(self).state() == spec_charges_changed(old(self).state(), old(self).defs(), *ev),
    {
        self.core.advance(ev.timestamp);
        let matches = self.definitions.find_matching(ev.effect_id as u64, Some(ev.effect_name.as_str()));
        let ghost rules = derefs(matches@);
        let ghost st0 = self.core@;
        assert(rules.len() == matches.len());
        let mut i: usize = 0;
        assert(rules.take(0) =~= Seq::<EffectRule>::empty());
        while i < matches.len()
            invariant
                i <= matches.len(),
                rules == derefs(matches@),
                rules == spec_find(old(self).defs(), SelectorKind::Effect, ev.effect_id as u64, Some(ev.effect_name@)),
                self.defs() == old(self).defs(),
                st0 == (TrackerView { game_time: advanced(old(self).state().game_time, ev.timestamp), ..old(self).state() }),
                self.core@ == charges_fold(st0, rules.take(i as int), *ev),
            decreases matches.len() - i,
        {
            let r = matches[i];
            proof {
                assert(rules.take(i + 1).drop_last() =~= rules.take(i as int));
                assert(rules.take(i + 1).last() == *r);
            }
            self.core.charges_one(r, ev);
            i = i + 1;
        }
        assert(rules.take(matches.len() as int) =~= rules);
    }

    /// Apply the duration modifiers of a batch of signals (see
    /// `spec_evaluate_modifiers`). `hits` counts how many signals of the
    /// batch fire modifier `j` of an effect.
    pub fn evaluate_modifiers<H: Fn(&ActiveEffect, usize) -> usize>(&mut self, hits: &H)
        requires
            counts(*hits),
        ensures
            final(self).defs() == old(self).defs(),
            final(self).state() == spec_evaluate_modifiers(old(self).state(), old(self).defs(), *hits),
    {
        let now = match self.core.game_time {
            Some(g) => g,
            None => return,
        };
        let mut firings: Vec<(EffectKey, usize)> = Vec::new();
        let mut i: usize = 0;
        assert(self.core.effects@.take(0) =~= Seq::<ActiveEffect>::empty());
        while i < self.core.effects.len()
            invariant
                i <= self.core.effects.len(),
                self.core@ == old(self).state(),
                self.defs() == old(self).defs(),
                counts(*hits),
                firings@ == batch_firings(self.core.effects@.take(i as int), self.defs(), *hits),
            decreases self.core.effects.len() - i,
        {
            proof {
                assert(self.core.effects@.take(i + 1).drop_last() =~= self.core.effects@.take(i as int));
            }
            let e = &self.core.effects[i];
            if let Some(d) = self.definitions.get_entry(e.key.definition_id.as_str()) {
                if !e.removed && !e.timer_expired {
                    push_firings(&mut firings, e, &d.1.modifiers, hits);
                }
            }
            i = i + 1;
        }
        assert(self.core.effects@.take(self.core.effects.len() as int) =~= self.core.effects@);
        let ghost fs = firings@;
        let ghost st0 = self.core@;
        let mut k: usize = 0;
        assert(fs.take(0) =~= Seq::<(EffectKey, usize)>::empty());
        while k < firings.len()
            invariant
                k <= firings.len(),
                fs == firings@,
                st0 == old(self).state(),
                self.defs() == old(self).defs(),
                self.core@ == apply_firings(st0, old(self).defs(), fs.take(k as int), now),
            decreases firings.len() - k,
        {
            proof {
                assert(fs.take(k + 1).drop_last() =~= fs.take(k as int));
            }
            self.core.fire(&firings[k], now, &self.definitions);
            k = k + 1;
        }
        assert(fs.take(firings.len() as int) =~= fs);
    }

    /// Handle one signal (see `spec_handle_signal`).
    pub fn handle_signal<
        F: Fn(&EffectRule) -> bool,
        F2: Fn(&EffectRule) -> bool,
        F3: Fn(&EffectRule) -> bool,
        G: Fn(&EffectRule) -> Option<RefreshRule>,
    >(
        &mut self,
        sig: &Signal,
        passes: &F,
        source_passes: &F2,
        target_passes: &F3,
        refresh_for: &G,
    )
        requires
            decides(*passes),
            decides(*source_passes),
            decides(*target_passes),
            resolves(*refresh_for),
        ensures
            final(self).defs() == old(self).defs(),
            final(self).state() == spec_handle_signal(
                old(self).state(),
                old(self).defs(),
                *sig,
                *passes,
                *source_passes,
                *target_passes,
                *refresh_for,
            ),
    {
        match sig {
            Signal::EffectApplied(e) => self.handle_effect_applied(e, passes),
            Signal::EffectRemoved(e) => self.handle_effect_removed(e, passes),
            Signal::EffectChargesChanged(e) => self.handle_charges_changed(e),
            Signal::AbilityActivated(e) => {
                let ev = resolve_target(&self.core.current_targets, e);
                self.core.advance(e.timestamp);
                self.handle_ability_cast(&ev, source_passes, target_passes);
                self.refresh_effects_by_action(&ev, RefreshTrigger::Activation, passes, refresh_for);
                self.setup_pending_aoe_refresh(ev.ability_id, ev.source.id, ev.timestamp, ev.target.id);
            },
            Signal::DamageTaken(e) => {
                self.handle_damage_for_aoe_refresh(e);
                self.handle_damage_for_dot_refresh(e, refresh_for);
                self.refresh_effects_by_action(e, RefreshTrigger::Damage, passes, refresh_for);
                self.handle_ability_event_trigger(e, TriggerKind::DamageTaken, passes);
            },
            Signal::HealingDone(e) => {
                let ev = AbilityEvent {
                    ability_id: e.ability_id,
                    ability_name: e.ability_name.clone(),
                    source: clone_entity(&e.source),
                    target: clone_entity(&e.target),
                    timestamp: e.timestamp,
                    immune_or_resist: false,
                };
                self.refresh_effects_by_action(&ev, RefreshTrigger::Heal, passes, refresh_for);
                self.handle_ability_event_trigger(&ev, TriggerKind::HealingTaken, passes);
            },
            Signal::EntityDeath(id) => self.clear_effects(Clearing::Death(*id)),
            Signal::CombatEnded => self.clear_effects(Clearing::CombatEnd),
            Signal::AreaEntered => self.clear_effects(Clearing::AreaChange),
            Signal::TargetChanged { source_id, target } => self.core.set_target(*source_id, clone_entity(target)),
            Signal::TargetCleared(source_id) => self.core.clear_target(*source_id),
            Signal::DisciplineChanged { entity_id, discipline } => self.core.discipline_changed(*entity_id, *discipline),
            Signal::Other => {},
        }
    }
}

} // verus!
