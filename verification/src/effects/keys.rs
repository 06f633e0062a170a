//! The tracker's tables are keyed: no two active effects share a key, no
//! entity has two current targets, no player two disciplines. These
//! proofs show that every signal keeps it so.

use vstd::prelude::*;

use crate::effects::engine::{
    advanced, aoe_rules_fold, aoe_targets_fold, applied_fold, applied_step, cast_fold, charges_fold, chosen_refresh,
    clear_fold, dominant_of, dot_fold, find_key, find_on_target, key_for, mark_removed_at, new_effect, refresh_fold,
    refresh_step, refreshed, removed_fold, resolved_target, same_key, sat_add, self_modified, spec_ability_cast,
    spec_aoe_damage, spec_discipline_changed, spec_dot_refresh, spec_finalize_aoe, spec_handle_signal,
    spec_refresh_by_action, started_or_refreshed, taken_fold, verdict, with_charges, with_target, without_discipline,
    without_target, apply_firings, batch_firings, kept_effects, live_effects, modified, spec_evaluate_modifiers,
    spec_finalize_aoe_if_due, spec_tick, tick_fold, tick_one, updated_for, AbilityEvent, ActiveEffect, AoeView, ChargesEvent, Clearing, DurationModifier, EffectEvent,
    EffectKey, EffectRule, EntityRef, RefreshRule, RefreshTrigger, Signal, TrackerView, TriggerKind,
};
use crate::effects::tracker::{def_entry, spec_find, spec_find_refreshable, DefinitionKeys, SelectorKind};

verus! {

/// No two effects share a key.
pub open spec fn effect_keys_distinct(s: Seq<ActiveEffect>) -> bool {
    forall|i: int, j: int|
        0 <= i < s.len() && 0 <= j < s.len() && i != j ==> !same_key(#[trigger] s[i].key, #[trigger] s[j].key)
}

/// No entity has two current targets.
pub open spec fn sources_distinct(ct: Seq<(i64, EntityRef)>) -> bool {
    forall|i: int, j: int| 0 <= i < ct.len() && 0 <= j < ct.len() && i != j ==> #[trigger] ct[i].0 != #[trigger] ct[j].0
}

/// No player has two disciplines.
pub open spec fn players_distinct(pd: Seq<(i64, i64)>) -> bool {
    forall|i: int, j: int| 0 <= i < pd.len() && 0 <= j < pd.len() && i != j ==> #[trigger] pd[i].0 != #[trigger] pd[j].0
}

/// The tracker's tables each hold a key at most once.
pub open spec fn keys_distinct(st: TrackerView) -> bool {
    &&& effect_keys_distinct(st.effects)
    &&& sources_distinct(st.current_targets)
    &&& players_distinct(st.player_disciplines)
}

proof fn lemma_update(s: Seq<ActiveEffect>, i: int, x: ActiveEffect)
    requires
        effect_keys_distinct(s),
        0 <= i < s.len(),
        same_key(x.key, s[i].key),
    ensures
        effect_keys_distinct(s.update(i, x)),
{
    let t = s.update(i, x);
    assert forall|a: int, b: int| 0 <= a < t.len() && 0 <= b < t.len() && a != b implies !same_key(
        #[trigger] t[a].key,
        #[trigger] t[b].key,
    ) by {
        assert(same_key(t[a].key, s[a].key));
        assert(same_key(t[b].key, s[b].key));
        assert(!same_key(s[a].key, s[b].key));
    }
}

proof fn lemma_push(s: Seq<ActiveEffect>, x: ActiveEffect)
    requires
        effect_keys_distinct(s),
        find_key(s, x.key) is None,
    ensures
        effect_keys_distinct(s.push(x)),
{
    let t = s.push(x);
    assert forall|a: int, b: int| 0 <= a < t.len() && 0 <= b < t.len() && a != b implies !same_key(
        #[trigger] t[a].key,
        #[trigger] t[b].key,
    ) by {
        if a == s.len() {
            assert(t[b] == s[b]);
            assert(!same_key(s[b].key, x.key));
        } else if b == s.len() {
            assert(t[a] == s[a]);
            assert(!same_key(s[a].key, x.key));
        } else {
            assert(t[a] == s[a] && t[b] == s[b]);
        }
    }
}

proof fn lemma_first_key(s: Seq<ActiveEffect>, k: EffectKey, n: int)
    requires
        0 <= n <= s.len(),
        exists|i: int| 0 <= i < n && same_key(#[trigger] s[i].key, k),
    ensures
        exists|i: int|
            0 <= i < n && same_key(#[trigger] s[i].key, k) && forall|j: int| 0 <= j < i ==> !same_key(s[j].key, k),
    decreases n,
{
    if exists|i: int| 0 <= i < n - 1 && same_key(#[trigger] s[i].key, k) {
        lemma_first_key(s, k, n - 1);
        let i = choose|i: int|
            0 <= i < n - 1 && same_key(#[trigger] s[i].key, k) && forall|j: int| 0 <= j < i ==> !same_key(s[j].key, k);
        assert(0 <= i < n && same_key(s[i].key, k));
    } else {
        let i = n - 1;
        assert(same_key(s[i].key, k));
        assert forall|j: int| 0 <= j < i implies !same_key(s[j].key, k) by {
            if same_key(s[j].key, k) {
                assert(0 <= j < n - 1 && same_key(s[j].key, k));
            }
        }
    }
}

proof fn lemma_found(s: Seq<ActiveEffect>, k: EffectKey)
    ensures
        find_key(s, k) matches Some(i) ==> 0 <= i < s.len() && same_key(s[i].key, k),
{
    if exists|i: int| 0 <= i < s.len() && same_key(#[trigger] s[i].key, k) {
        lemma_first_key(s, k, s.len() as int);
    }
}

proof fn lemma_first_on_target(s: Seq<ActiveEffect>, id: Seq<char>, target: i64, n: int)
    requires
        0 <= n <= s.len(),
        exists|i: int| 0 <= i < n && #[trigger] s[i].key.definition_id@ == id && s[i].target_id == target,
    ensures
        exists|i: int|
            0 <= i < n && #[trigger] s[i].key.definition_id@ == id && s[i].target_id == target && forall|j: int|
                0 <= j < i ==> !(s[j].key.definition_id@ == id && s[j].target_id == target),
    decreases n,
{
    if exists|i: int| 0 <= i < n - 1 && #[trigger] s[i].key.definition_id@ == id && s[i].target_id == target {
        lemma_first_on_target(s, id, target, n - 1);
        let i = choose|i: int|
            0 <= i < n - 1 && #[trigger] s[i].key.definition_id@ == id && s[i].target_id == target && forall|j: int|
                0 <= j < i ==> !(s[j].key.definition_id@ == id && s[j].target_id == target);
        assert(0 <= i < n);
    } else {
        let i = n - 1;
        assert(s[i].key.definition_id@ == id && s[i].target_id == target);
        assert forall|j: int| 0 <= j < i implies !(s[j].key.definition_id@ == id && s[j].target_id == target) by {
            if s[j].key.definition_id@ == id && s[j].target_id == target {
                assert(0 <= j < n - 1);
            }
        }
    }
}

proof fn lemma_found_on_target(s: Seq<ActiveEffect>, id: Seq<char>, target: i64)
    ensures
        find_on_target(s, id, target) matches Some(i) ==> 0 <= i < s.len(),
{
    if exists|i: int| 0 <= i < s.len() && #[trigger] s[i].key.definition_id@ == id && s[i].target_id == target {
        lemma_first_on_target(s, id, target, s.len() as int);
    }
}

proof fn lemma_without_target(ct: Seq<(i64, EntityRef)>, source: i64)
    requires
        sources_distinct(ct),
    ensures
        sources_distinct(without_target(ct, source)),
        forall|k: int|
            0 <= k < without_target(ct, source).len() ==> (#[trigger] without_target(ct, source)[k]).0 != source,
        forall|k: int|
            0 <= k < without_target(ct, source).len() ==> exists|m: int|
                0 <= m < ct.len() && ct[m].0 == (#[trigger] without_target(ct, source)[k]).0,
    decreases ct.len(),
{
    if ct.len() > 0 {
        let p = ct.drop_last();
        assert(sources_distinct(p)) by {
            assert forall|i: int, j: int| 0 <= i < p.len() && 0 <= j < p.len() && i != j implies #[trigger] p[i].0
                != #[trigger] p[j].0 by {
                assert(p[i] == ct[i] && p[j] == ct[j]);
            }
        }
        lemma_without_target(p, source);
        let w = without_target(p, source);
        if ct.last().0 != source {
            let r = w.push(ct.last());
            assert(without_target(ct, source) == r);
            assert forall|k: int| 0 <= k < w.len() implies (#[trigger] w[k]).0 != ct.last().0 by {
                let m = choose|m: int| 0 <= m < p.len() && p[m].0 == w[k].0;
                assert(p[m] == ct[m]);
                assert(ct[m].0 != ct[ct.len() - 1].0);
            }
            assert forall|k: int| 0 <= k < r.len() implies exists|m: int|
                0 <= m < ct.len() && ct[m].0 == (#[trigger] r[k]).0 by {
                if k == w.len() {
                    assert(ct[ct.len() - 1].0 == r[k].0);
                } else {
                    let m = choose|m: int| 0 <= m < p.len() && p[m].0 == w[k].0;
                    assert(p[m] == ct[m]);
                    assert(r[k] == w[k]);
                }
            }
        } else {
            assert forall|k: int| 0 <= k < w.len() implies exists|m: int|
                0 <= m < ct.len() && ct[m].0 == (#[trigger] w[k]).0 by {
                let m = choose|m: int| 0 <= m < p.len() && p[m].0 == w[k].0;
                assert(p[m] == ct[m]);
            }
        }
    }
}

proof fn lemma_with_target(ct: Seq<(i64, EntityRef)>, source: i64, t: EntityRef)
    requires
        sources_distinct(ct),
    ensures
        sources_distinct(with_target(ct, source, t)),
{
    lemma_without_target(ct, source);
    let w = without_target(ct, source);
    let r = w.push((source, t));
    assert forall|i: int, j: int| 0 <= i < r.len() && 0 <= j < r.len() && i != j implies #[trigger] r[i].0
        != #[trigger] r[j].0 by {
        if i < w.len() && j < w.len() {
            assert(r[i] == w[i] && r[j] == w[j]);
        } else if i < w.len() {
            assert(r[i] == w[i]);
        } else {
            assert(r[j] == w[j]);
        }
    }
}

proof fn lemma_without_discipline(pd: Seq<(i64, i64)>, id: i64)
    requires
        players_distinct(pd),
    ensures
        players_distinct(without_discipline(pd, id)),
        forall|k: int|
            0 <= k < without_discipline(pd, id).len() ==> (#[trigger] without_discipline(pd, id)[k]).0 != id,
        forall|k: int|
            0 <= k < without_discipline(pd, id).len() ==> exists|m: int|
                0 <= m < pd.len() && pd[m].0 == (#[trigger] without_discipline(pd, id)[k]).0,
    decreases pd.len(),
{
    if pd.len() > 0 {
        let p = pd.drop_last();
        assert(players_distinct(p)) by {
            assert forall|i: int, j: int| 0 <= i < p.len() && 0 <= j < p.len() && i != j implies #[trigger] p[i].0
                != #[trigger] p[j].0 by {
                assert(p[i] == pd[i] && p[j] == pd[j]);
            }
        }
        lemma_without_discipline(p, id);
        let w = without_discipline(p, id);
        if pd.last().0 != id {
            let r = w.push(pd.last());
            assert(without_discipline(pd, id) == r);
            assert forall|k: int| 0 <= k < w.len() implies (#[trigger] w[k]).0 != pd.last().0 by {
                let m = choose|m: int| 0 <= m < p.len() && p[m].0 == w[k].0;
                assert(p[m] == pd[m]);
                assert(pd[m].0 != pd[pd.len() - 1].0);
            }
            assert forall|k: int| 0 <= k < r.len() implies exists|m: int|
                0 <= m < pd.len() && pd[m].0 == (#[trigger] r[k]).0 by {
                if k == w.len() {
                    assert(pd[pd.len() - 1].0 == r[k].0);
                } else {
                    let m = choose|m: int| 0 <= m < p.len() && p[m].0 == w[k].0;
                    assert(p[m] == pd[m]);
                    assert(r[k] == w[k]);
                }
            }
        } else {
            assert forall|k: int| 0 <= k < w.len() implies exists|m: int|
                0 <= m < pd.len() && pd[m].0 == (#[trigger] w[k]).0 by {
                let m = choose|m: int| 0 <= m < p.len() && p[m].0 == w[k].0;
                assert(p[m] == pd[m]);
            }
        }
    }
}

proof fn lemma_discipline_changed(st: TrackerView, id: i64, d: Option<i64>)
    requires
        keys_distinct(st),
    ensures
        keys_distinct(spec_discipline_changed(st, id, d)),
{
    lemma_without_discipline(st.player_disciplines, id);
    let w = without_discipline(st.player_disciplines, id);
    if let Some(x) = d {
        let r = w.push((id, x));
        assert forall|i: int, j: int| 0 <= i < r.len() && 0 <= j < r.len() && i != j implies #[trigger] r[i].0
            != #[trigger] r[j].0 by {
            if i < w.len() && j < w.len() {
                assert(r[i] == w[i] && r[j] == w[j]);
            } else if i < w.len() {
                assert(r[i] == w[i]);
            } else {
                assert(r[j] == w[j]);
            }
        }
    }
}

proof fn lemma_self_modified(e: ActiveEffect, mods: Seq<DurationModifier>, k: nat, old: u8, new: u8, now: i64, refill: Option<i64>)
    ensures
        self_modified(e, mods, k, old, new, now, refill).key == e.key,
    decreases k,
{
    if k > 0 {
        lemma_self_modified(e, mods, (k - 1) as nat, old, new, now, refill);
    }
}

proof fn lemma_started_or_refreshed(
    st: TrackerView,
    r: EffectRule,
    key: EffectKey,
    game_id: u64,
    source: EntityRef,
    target: EntityRef,
    ts: i64,
)
    requires
        keys_distinct(st),
    ensures
        keys_distinct(started_or_refreshed(st, r, key, game_id, source, target, ts)),
{
    lemma_found(st.effects, key);
    match find_key(st.effects, key) {
        Some(i) => {
            lemma_update(st.effects, i, refreshed(st.effects[i], ts, r.duration_ms));
        },
        None => {
            lemma_push(st.effects, new_effect(r, key, game_id, source, target, st.local_player_id == Some(source.id), ts));
        },
    }
}

proof fn lemma_applied_step(st: TrackerView, r: EffectRule, ok: bool, ev: EffectEvent)
    requires
        keys_distinct(st),
    ensures
        keys_distinct(applied_step(st, r, ok, ev).0),
{
    if ok && !r.is_alert {
        let dom = match dominant_of(r.id@) {
            Some(d) => find_on_target(st.effects, d, ev.target.id),
            None => None,
        };
        if let Some(d) = dominant_of(r.id@) {
            lemma_found_on_target(st.effects, d, ev.target.id);
        }
        if dom is Some && !st.effects[dom->0].removed {
            let i = dom->0;
            lemma_update(st.effects, i, with_charges(refreshed(st.effects[i], ev.timestamp, r.duration_ms), ev.charges));
        } else {
            let key = key_for(r, ev.source.id, ev.target.id);
            lemma_found(st.effects, key);
            match find_key(st.effects, key) {
                Some(i) => {
                    let e = st.effects[i];
                    let ts = ev.timestamp;
                    lemma_update(st.effects, i, refreshed(e, ts, r.duration_ms));
                    lemma_update(st.effects, i, with_charges(ActiveEffect { last_refreshed_at: ts, ..e }, ev.charges));
                    lemma_update(st.effects, i, with_charges(e, ev.charges));
                    lemma_update(st.effects, i, with_charges(refreshed(e, ts, r.duration_ms), ev.charges));
                },
                None => {
                    lemma_push(
                        st.effects,
                        with_charges(
                            new_effect(
                                r,
                                key,
                                ev.effect_id as u64,
                                ev.source,
                                ev.target,
                                st.local_player_id == Some(ev.source.id),
                                ev.timestamp,
                            ),
                            ev.charges,
                        ),
                    );
                },
            }
        }
    }
}

proof fn lemma_applied_fold<F: Fn(&EffectRule) -> bool>(st: TrackerView, rules: Seq<EffectRule>, ev: EffectEvent, passes: F)
    requires
        keys_distinct(st),
    ensures
        keys_distinct(applied_fold(st, rules, ev, passes).0),
    decreases rules.len(),
{
    if rules.len() > 0 {
        lemma_applied_fold(st, rules.drop_last(), ev, passes);
        let prev = applied_fold(st, rules.drop_last(), ev, passes);
        let r = rules.last();
        lemma_applied_step(prev.0, r, r.trigger == TriggerKind::EffectApplied && verdict(passes, r), ev);
    }
}

proof fn lemma_cast_fold<F: Fn(&EffectRule) -> bool, G: Fn(&EffectRule) -> bool>(
    st: TrackerView,
    rules: Seq<EffectRule>,
    ev: AbilityEvent,
    source_passes: F,
    target_passes: G,
)
    requires
        keys_distinct(st),
    ensures
        keys_distinct(cast_fold(st, rules, ev, source_passes, target_passes)),
    decreases rules.len(),
{
    if rules.len() > 0 {
        lemma_cast_fold(st, rules.drop_last(), ev, source_passes, target_passes);
        let prev = cast_fold(st, rules.drop_last(), ev, source_passes, target_passes);
        let r = rules.last();
        lemma_started_or_refreshed(prev, r, key_for(r, ev.source.id, ev.source.id), ev.ability_id as u64, ev.source, ev.source, ev.timestamp);
    }
}

proof fn lemma_taken_fold<F: Fn(&EffectRule) -> bool>(
    st: TrackerView,
    rules: Seq<EffectRule>,
    kind: TriggerKind,
    ev: AbilityEvent,
    passes: F,
)
    requires
        keys_distinct(st),
    ensures
        keys_distinct(taken_fold(st, rules, kind, ev, passes)),
    decreases rules.len(),
{
    if rules.len() > 0 {
        lemma_taken_fold(st, rules.drop_last(), kind, ev, passes);
        let prev = taken_fold(st, rules.drop_last(), kind, ev, passes);
        let r = rules.last();
        lemma_started_or_refreshed(prev, r, key_for(r, ev.source.id, ev.target.id), ev.ability_id as u64, ev.source, ev.target, ev.timestamp);
    }
}

proof fn lemma_refresh_step(st: TrackerView, r: EffectRule, rr: RefreshRule, trigger: RefreshTrigger, ev: AbilityEvent)
    requires
        keys_distinct(st),
    ensures
        keys_distinct(refresh_step(st, r, rr, trigger, ev)),
{
    let key = key_for(r, ev.source.id, ev.target.id);
    let fallback = key_for(r, ev.source.id, ev.source.id);
    lemma_found(st.effects, key);
    lemma_found(st.effects, fallback);
    let matched = if find_key(st.effects, key) is Some {
        find_key(st.effects, key)
    } else if ev.target.id != ev.source.id && !ev.target.is_player {
        find_key(st.effects, fallback)
    } else {
        None
    };
    match matched {
        Some(i) => {
            lemma_update(st.effects, i, refreshed(st.effects[i], ev.timestamp, r.duration_ms));
        },
        None => {
            let e = new_effect(
                r,
                key,
                ev.ability_id as u64,
                ev.source,
                ev.target,
                st.local_player_id == Some(ev.source.id),
                ev.timestamp,
            );
            lemma_push(st.effects, with_charges(e, r.default_charges));
        },
    }
}

proof fn lemma_refresh_fold<F: Fn(&EffectRule) -> bool, G: Fn(&EffectRule) -> Option<RefreshRule>>(
    st: TrackerView,
    rules: Seq<EffectRule>,
    trigger: RefreshTrigger,
    ev: AbilityEvent,
    passes: F,
    refresh_for: G,
)
    requires
        keys_distinct(st),
    ensures
        keys_distinct(refresh_fold(st, rules, trigger, ev, passes, refresh_for)),
    decreases rules.len(),
{
    if rules.len() > 0 {
        lemma_refresh_fold(st, rules.drop_last(), trigger, ev, passes, refresh_for);
        let prev = refresh_fold(st, rules.drop_last(), trigger, ev, passes, refresh_for);
        let r = rules.last();
        let rr = chosen_refresh(refresh_for, r);
        if rr is Some {
            lemma_refresh_step(prev, r, rr->0, trigger, ev);
        }
    }
}

proof fn lemma_mark_removed(st: TrackerView, i: int)
    requires
        keys_distinct(st),
        0 <= i < st.effects.len(),
    ensures
        keys_distinct(mark_removed_at(st, i)),
{
    lemma_update(st.effects, i, ActiveEffect { removed: true, ..st.effects[i] });
}

proof fn lemma_removed_fold<F: Fn(&EffectRule) -> bool>(st: TrackerView, rules: Seq<EffectRule>, ev: EffectEvent, passes: F)
    requires
        keys_distinct(st),
    ensures
        keys_distinct(removed_fold(st, rules, ev, passes)),
    decreases rules.len(),
{
    if rules.len() > 0 {
        lemma_removed_fold(st, rules.drop_last(), ev, passes);
        let prev = removed_fold(st, rules.drop_last(), ev, passes);
        let r = rules.last();
        let key = key_for(r, ev.source.id, ev.target.id);
        lemma_found(prev.effects, key);
        let e = new_effect(
            r,
            key,
            ev.effect_id as u64,
            ev.source,
            ev.target,
            prev.local_player_id == Some(ev.source.id),
            ev.timestamp,
        );
        match find_key(prev.effects, key) {
            Some(i) => {
                lemma_mark_removed(prev, i);
                lemma_update(prev.effects, i, e);
            },
            None => {
                lemma_push(prev.effects, e);
            },
        }
    }
}

proof fn lemma_clear_fold(st: TrackerView, defs: Seq<(DefinitionKeys, EffectRule)>, c: Clearing, n: nat)
    requires
        keys_distinct(st),
    ensures
        keys_distinct(clear_fold(st, defs, c, n)),
    decreases n,
{
    if n > 0 {
        lemma_clear_fold(st, defs, c, (n - 1) as nat);
        let prev = clear_fold(st, defs, c, (n - 1) as nat);
        if n - 1 < prev.effects.len() {
            lemma_mark_removed(prev, n - 1);
        }
    }
}

proof fn lemma_dot_fold<G: Fn(&EffectRule) -> Option<RefreshRule>>(
    st: TrackerView,
    rules: Seq<EffectRule>,
    source_id: i64,
    ev: AbilityEvent,
    refresh_for: G,
)
    requires
        keys_distinct(st),
    ensures
        keys_distinct(dot_fold(st, rules, source_id, ev, refresh_for)),
    decreases rules.len(),
{
    if rules.len() > 0 {
        lemma_dot_fold(st, rules.drop_last(), source_id, ev, refresh_for);
        let prev = dot_fold(st, rules.drop_last(), source_id, ev, refresh_for);
        let r = rules.last();
        let key = key_for(r, source_id, ev.target.id);
        lemma_found(prev.effects, key);
        if let Some(i) = find_key(prev.effects, key) {
            lemma_update(prev.effects, i, refreshed(prev.effects[i], ev.timestamp, r.duration_ms));
        }
    }
}

proof fn lemma_charges_fold(st: TrackerView, rules: Seq<EffectRule>, ev: ChargesEvent)
    requires
        keys_distinct(st),
    ensures
        keys_distinct(charges_fold(st, rules, ev)),
    decreases rules.len(),
{
    if rules.len() > 0 {
        lemma_charges_fold(st, rules.drop_last(), ev);
        let prev = charges_fold(st, rules.drop_last(), ev);
        let r = rules.last();
        let key = key_for(r, ev.source_id, ev.target_id);
        lemma_found(prev.effects, key);
        if let Some(i) = find_key(prev.effects, key) {
            let e = prev.effects[i];
            let refill = if r.is_refreshed_on_modify {
                r.duration_ms
            } else {
                None
            };
            let e1 = ActiveEffect { stacks: ev.charges, ..e };
            let e2 = match refill {
                Some(d) => ActiveEffect { duration_ms: Some(d), expires_at: Some(sat_add(ev.timestamp, d)), ..e1 },
                None => e1,
            };
            lemma_self_modified(e2, r.modifiers@, r.modifiers@.len(), e.stacks, ev.charges, ev.timestamp, refill);
            lemma_update(
                prev.effects,
                i,
                self_modified(e2, r.modifiers@, r.modifiers@.len(), e.stacks, ev.charges, ev.timestamp, refill),
            );
        }
    }
}

proof fn lemma_aoe_rules_fold(
    st: TrackerView,
    rules: Seq<EffectRule>,
    immediate: bool,
    source: i64,
    target: i64,
    ts: i64,
    n: nat,
)
    requires
        keys_distinct(st),
    ensures
        keys_distinct(aoe_rules_fold(st, rules, immediate, source, target, ts, n)),
    decreases n,
{
    if n > 0 {
        lemma_aoe_rules_fold(st, rules, immediate, source, target, ts, (n - 1) as nat);
        let prev = aoe_rules_fold(st, rules, immediate, source, target, ts, (n - 1) as nat);
        if n - 1 < rules.len() {
            let r = rules[n - 1];
            let key = key_for(r, source, target);
            lemma_found(prev.effects, key);
            if let Some(i) = find_key(prev.effects, key) {
                lemma_update(prev.effects, i, refreshed(prev.effects[i], ts, r.duration_ms));
            }
        }
    }
}

proof fn lemma_aoe_targets_fold(st: TrackerView, rules: Seq<EffectRule>, c: AoeView, n: nat)
    requires
        keys_distinct(st),
    ensures
        keys_distinct(aoe_targets_fold(st, rules, c, n)),
    decreases n,
{
    if n > 0 {
        lemma_aoe_targets_fold(st, rules, c, (n - 1) as nat);
        let prev = aoe_targets_fold(st, rules, c, (n - 1) as nat);
        if n - 1 < c.targets.len() {
            lemma_aoe_rules_fold(prev, rules, false, c.source_id, c.targets[n - 1], c.anchor, rules.len());
        }
    }
}

proof fn lemma_finalize_aoe(st: TrackerView, defs: Seq<(DefinitionKeys, EffectRule)>)
    requires
        keys_distinct(st),
    ensures
        keys_distinct(spec_finalize_aoe(st, defs)),
{
    if let Some(c) = st.aoe_collecting {
        lemma_aoe_targets_fold(
            TrackerView { aoe_collecting: None, ..st },
            spec_find_refreshable(defs, c.ability_id as u64, None),
            c,
            c.targets.len(),
        );
    }
}

proof fn lemma_aoe_damage(st: TrackerView, defs: Seq<(DefinitionKeys, EffectRule)>, ev: AbilityEvent)
    requires
        keys_distinct(st),
    ensures
        keys_distinct(spec_aoe_damage(st, defs, ev)),
{
    lemma_finalize_aoe(st, defs);
    let st1 = if st.aoe_collecting matches Some(c) && c.ability_id == ev.ability_id {
        spec_finalize_aoe(st, defs)
    } else {
        st
    };
    if let Some(p) = st1.pending_aoe {
        let rules = spec_find_refreshable(defs, ev.ability_id as u64, None);
        lemma_aoe_rules_fold(st1, rules, true, p.source_id, ev.target.id, ev.timestamp, rules.len());
    }
}

/// Every signal keeps the tracker's tables keyed: no two active effects
/// share a key (definition, caster where the definition tells casters apart,
/// target), no entity has two current targets, and no player two
/// disciplines.
pub proof fn law_signals_keep_keys_distinct<
    F: Fn(&EffectRule) -> bool,
    F2: Fn(&EffectRule) -> bool,
    F3: Fn(&EffectRule) -> bool,
    G: Fn(&EffectRule) -> Option<RefreshRule>,
>(
    st: TrackerView,
    defs: Seq<(DefinitionKeys, EffectRule)>,
    sig: Signal,
    passes: F,
    source_passes: F2,
    target_passes: F3,
    refresh_for: G,
)
    requires
        keys_distinct(st),
    ensures
        keys_distinct(spec_handle_signal(st, defs, sig, passes, source_passes, target_passes, refresh_for)),
{
    match sig {
        Signal::EffectApplied(e) => {
            let rules = spec_find(defs, SelectorKind::Effect, e.effect_id as u64, Some(e.effect_name@));
            let st0 = TrackerView { game_time: advanced(st.game_time, e.timestamp), ..st };
            lemma_applied_fold(st0, rules, e, passes);
        },
        Signal::EffectRemoved(e) => {
            lemma_removed_fold(
                TrackerView { game_time: advanced(st.game_time, e.timestamp), ..st },
                spec_find(defs, SelectorKind::Effect, e.effect_id as u64, Some(e.effect_name@)),
                e,
                passes,
            );
        },
        Signal::EffectChargesChanged(e) => {
            lemma_charges_fold(
                TrackerView { game_time: advanced(st.game_time, e.timestamp), ..st },
                spec_find(defs, SelectorKind::Effect, e.effect_id as u64, Some(e.effect_name@)),
                e,
            );
        },
        Signal::AbilityActivated(e) => {
            let st1 = TrackerView { game_time: advanced(st.game_time, e.timestamp), ..st };
            let ev = AbilityEvent { immune_or_resist: false, ..resolved_target(st.current_targets, e) };
            lemma_cast_fold(
                st1,
                spec_find(defs, SelectorKind::Ability, ev.ability_id as u64, Some(ev.ability_name@)),
                ev,
                source_passes,
                target_passes,
            );
            let st2 = spec_ability_cast(st1, defs, ev, source_passes, target_passes);
            if ev.target.id != 0 {
                lemma_refresh_fold(
                    st2,
                    spec_find_refreshable(defs, ev.ability_id as u64, Some(ev.ability_name@)),
                    RefreshTrigger::Activation,
                    ev,
                    passes,
                    refresh_for,
                );
            }
        },
        Signal::DamageTaken(e) => {
            lemma_aoe_damage(st, defs, e);
            let st0 = spec_aoe_damage(st, defs, e);
            if let Some(p) = st0.pending_dot {
                lemma_dot_fold(
                    TrackerView { pending_dot: None, ..st0 },
                    spec_find_refreshable(defs, e.ability_id as u64, None),
                    p.source_id,
                    e,
                    refresh_for,
                );
            }
            let st1 = spec_dot_refresh(st0, defs, e, refresh_for);
            if e.target.id != 0 {
                lemma_refresh_fold(
                    st1,
                    spec_find_refreshable(defs, e.ability_id as u64, Some(e.ability_name@)),
                    RefreshTrigger::Damage,
                    e,
                    passes,
                    refresh_for,
                );
            }
            let st2 = spec_refresh_by_action(st1, defs, RefreshTrigger::Damage, e, passes, refresh_for);
            lemma_taken_fold(
                TrackerView { game_time: advanced(st2.game_time, e.timestamp), ..st2 },
                spec_find(defs, SelectorKind::Ability, e.ability_id as u64, Some(e.ability_name@)),
                TriggerKind::DamageTaken,
                e,
                passes,
            );
        },
        Signal::HealingDone(e) => {
            let ev = AbilityEvent { immune_or_resist: false, ..e };
            if ev.target.id != 0 {
                lemma_refresh_fold(
                    st,
                    spec_find_refreshable(defs, ev.ability_id as u64, Some(ev.ability_name@)),
                    RefreshTrigger::Heal,
                    ev,
                    passes,
                    refresh_for,
                );
            }
            let st1 = spec_refresh_by_action(st, defs, RefreshTrigger::Heal, ev, passes, refresh_for);
            lemma_taken_fold(
                TrackerView { game_time: advanced(st1.game_time, ev.timestamp), ..st1 },
                spec_find(defs, SelectorKind::Ability, ev.ability_id as u64, Some(ev.ability_name@)),
                TriggerKind::HealingTaken,
                ev,
                passes,
            );
        },
        Signal::EntityDeath(id) => {
            lemma_clear_fold(st, defs, Clearing::Death(id), st.effects.len());
        },
        Signal::CombatEnded => {
            lemma_clear_fold(
                TrackerView { pending_dot: None, pending_aoe: None, aoe_collecting: None, ..st },
                defs,
                Clearing::CombatEnd,
                st.effects.len(),
            );
        },
        Signal::AreaEntered => {
            lemma_clear_fold(
                TrackerView { pending_dot: None, pending_aoe: None, aoe_collecting: None, ..st },
                defs,
                Clearing::AreaChange,
                st.effects.len(),
            );
        },
        Signal::TargetChanged { source_id, target } => {
            lemma_with_target(st.current_targets, source_id, target);
        },
        Signal::TargetCleared(source_id) => {
            lemma_without_target(st.current_targets, source_id);
        },
        Signal::DisciplineChanged { entity_id, discipline } => {
            lemma_discipline_changed(st, entity_id, discipline);
        },
        Signal::Other => {},
    }
}


proof fn lemma_tick_fold(st: TrackerView, defs: Seq<(DefinitionKeys, EffectRule)>, now: i64, ts: i64, n: nat)
    requires
        keys_distinct(st),
    ensures
        keys_distinct(tick_fold(st, defs, now, ts, n)),
    decreases n,
{
    if n > 0 {
        lemma_tick_fold(st, defs, now, ts, (n - 1) as nat);
        let prev = tick_fold(st, defs, now, ts, (n - 1) as nat);
        if n - 1 < prev.effects.len() {
            lemma_update(prev.effects, n - 1, tick_one(prev.effects[n - 1], now).0);
        }
    }
}

proof fn lemma_live_effects(s: Seq<ActiveEffect>)
    requires
        effect_keys_distinct(s),
    ensures
        effect_keys_distinct(live_effects(s)),
        forall|k: int|
            0 <= k < live_effects(s).len() ==> exists|m: int|
                0 <= m < s.len() && same_key(s[m].key, (#[trigger] live_effects(s)[k]).key),
    decreases s.len(),
{
    if s.len() > 0 {
        let p = s.drop_last();
        assert(effect_keys_distinct(p)) by {
            assert forall|i: int, j: int| 0 <= i < p.len() && 0 <= j < p.len() && i != j implies !same_key(
                #[trigger] p[i].key,
                #[trigger] p[j].key,
            ) by {
                assert(p[i] == s[i] && p[j] == s[j]);
            }
        }
        lemma_live_effects(p);
        let w = live_effects(p);
        if !s.last().removed {
            let r = w.push(s.last());
            assert(live_effects(s) == r);
            assert(find_key(w, s.last().key) is None) by {
                assert forall|k: int| 0 <= k < w.len() implies !same_key(#[trigger] w[k].key, s.last().key) by {
                    let m = choose|m: int| 0 <= m < p.len() && same_key(p[m].key, w[k].key);
                    assert(p[m] == s[m]);
                    assert(!same_key(s[m].key, s[s.len() - 1].key));
                }
            }
            lemma_push(w, s.last());
            assert forall|k: int| 0 <= k < r.len() implies exists|m: int|
                0 <= m < s.len() && same_key(s[m].key, (#[trigger] r[k]).key) by {
                if k == w.len() {
                    assert(same_key(s[s.len() - 1].key, r[k].key));
                } else {
                    let m = choose|m: int| 0 <= m < p.len() && same_key(p[m].key, w[k].key);
                    assert(p[m] == s[m]);
                    assert(r[k] == w[k]);
                }
            }
        } else {
            assert forall|k: int| 0 <= k < w.len() implies exists|m: int|
                0 <= m < s.len() && same_key(s[m].key, (#[trigger] w[k]).key) by {
                let m = choose|m: int| 0 <= m < p.len() && same_key(p[m].key, w[k].key);
                assert(p[m] == s[m]);
            }
        }
    }
}

proof fn lemma_kept_effects(s: Seq<ActiveEffect>, defs: Seq<(DefinitionKeys, EffectRule)>)
    requires
        effect_keys_distinct(s),
    ensures
        effect_keys_distinct(kept_effects(s, defs)),
        forall|k: int|
            0 <= k < kept_effects(s, defs).len() ==> exists|m: int|
                0 <= m < s.len() && same_key(s[m].key, (#[trigger] kept_effects(s, defs)[k]).key),
    decreases s.len(),
{
    if s.len() > 0 {
        let p = s.drop_last();
        assert(effect_keys_distinct(p)) by {
            assert forall|i: int, j: int| 0 <= i < p.len() && 0 <= j < p.len() && i != j implies !same_key(
                #[trigger] p[i].key,
                #[trigger] p[j].key,
            ) by {
                assert(p[i] == s[i] && p[j] == s[j]);
            }
        }
        lemma_kept_effects(p, defs);
        let w = kept_effects(p, defs);
        assert forall|k: int| 0 <= k < w.len() implies exists|m: int|
            0 <= m < s.len() && same_key(s[m].key, (#[trigger] w[k]).key) by {
            let m = choose|m: int| 0 <= m < p.len() && same_key(p[m].key, w[k].key);
            assert(p[m] == s[m]);
        }
        let entry = def_entry(defs, s.last().key.definition_id@);
        if entry matches Some(d) && d.0.enabled {
            let d = entry->0;
            let x = updated_for(s.last(), d.1);
            let r = w.push(x);
            assert(kept_effects(s, defs) == r);
            assert(find_key(w, x.key) is None) by {
                assert forall|k: int| 0 <= k < w.len() implies !same_key(#[trigger] w[k].key, x.key) by {
                    let m = choose|m: int| 0 <= m < p.len() && same_key(p[m].key, w[k].key);
                    assert(p[m] == s[m]);
                    assert(!same_key(s[m].key, s[s.len() - 1].key));
                }
            }
            lemma_push(w, x);
            assert forall|k: int| 0 <= k < r.len() implies exists|m: int|
                0 <= m < s.len() && same_key(s[m].key, (#[trigger] r[k]).key) by {
                if k == w.len() {
                    assert(same_key(s[s.len() - 1].key, r[k].key));
                } else {
                    assert(r[k] == w[k]);
                }
            }
        }
    }
}

proof fn lemma_apply_firings(st: TrackerView, defs: Seq<(DefinitionKeys, EffectRule)>, fs: Seq<(EffectKey, usize)>, now: i64)
    requires
        keys_distinct(st),
    ensures
        keys_distinct(apply_firings(st, defs, fs, now)),
    decreases fs.len(),
{
    if fs.len() > 0 {
        lemma_apply_firings(st, defs, fs.drop_last(), now);
        let prev = apply_firings(st, defs, fs.drop_last(), now);
        let f = fs.last();
        lemma_found(prev.effects, f.0);
        if let Some(i) = find_key(prev.effects, f.0) {
            if let Some(d) = def_entry(defs, f.0.definition_id@) {
                if f.1 < d.1.modifiers@.len() {
                    let m = d.1.modifiers@[f.1 as int];
                    let refill = if m.refill {
                        d.1.duration_ms
                    } else {
                        None
                    };
                    lemma_update(prev.effects, i, modified(prev.effects[i], m, f.1, now, refill, true));
                }
            }
        }
    }
}

/// The tracker's other updates keep its tables keyed as well: a tick, the
/// duration modifiers of a batch, the end of a due AoE collection, and new
/// definitions.
pub proof fn law_updates_keep_keys_distinct<H: Fn(&ActiveEffect, usize) -> usize>(
    st: TrackerView,
    defs: Seq<(DefinitionKeys, EffectRule)>,
    new_defs: Seq<(DefinitionKeys, EffectRule)>,
    now: i64,
    hits: H,
)
    requires
        keys_distinct(st),
    ensures
        keys_distinct(spec_tick(st, defs, now)),
        keys_distinct(spec_evaluate_modifiers(st, defs, hits)),
        keys_distinct(spec_finalize_aoe_if_due(st, defs)),
        keys_distinct(TrackerView { effects: kept_effects(st.effects, new_defs), ..st }),
{
    if let Some(g) = st.game_time {
        lemma_tick_fold(st, defs, now, g, st.effects.len());
        lemma_live_effects(tick_fold(st, defs, now, g, st.effects.len()).effects);
        lemma_apply_firings(st, defs, batch_firings(st.effects, defs, hits), g);
    }
    lemma_finalize_aoe(st, defs);
    lemma_kept_effects(st.effects, new_defs);
}

} // verus!
