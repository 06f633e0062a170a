//! Encounter counters: the changes that a counter's matched triggers ask
//! for, how they apply to the encounter's counter values and what they
//! signal, and the value of a counter that tracks the stacks of an effect
//! across the entities its target filter matches.

use vstd::prelude::*;

use crate::effects::engine::Signal;
use crate::effects::tracker::{any_picks, picks, Selector};
use crate::text::{chars_eq, chars_of};

verus! {

/// How the stack counts of the matching entities combine into one value.
#[derive(Debug, Clone, Copy, PartialEq, Eq, Structural)]
pub enum StackAggregation {
    Max,
    Sum,
    Min,
}

/// The largest stack count (0 for none).
pub open spec fn seq_max(s: Seq<u8>) -> int
    decreases s.len(),
{
    if s.len() == 0 {
        0
    } else {
        let m = seq_max(s.drop_last());
        if s.len() == 1 || s.last() as int > m {
            s.last() as int
        } else {
            m
        }
    }
}

/// The smallest stack count (0 for none).
pub open spec fn seq_min(s: Seq<u8>) -> int
    decreases s.len(),
{
    if s.len() == 0 {
        0
    } else {
        let m = seq_min(s.drop_last());
        if s.len() == 1 || (s.last() as int) < m {
            s.last() as int
        } else {
            m
        }
    }
}

/// The total of the stack counts.
pub open spec fn seq_sum(s: Seq<u8>) -> int
    decreases s.len(),
{
    if s.len() == 0 {
        0
    } else {
        seq_sum(s.drop_last()) + s.last() as int
    }
}

/// The aggregated counter value of the matching entities' stack counts.
pub open spec fn spec_aggregate(stacks: Seq<u8>, aggregation: StackAggregation) -> int {
    match aggregation {
        StackAggregation::Max => seq_max(stacks),
        StackAggregation::Sum => seq_sum(stacks),
        StackAggregation::Min => seq_min(stacks),
    }
}

proof fn lemma_sum_bound(s: Seq<u8>)
    ensures
        0 <= seq_sum(s) <= 255 * s.len(),
    decreases s.len(),
{
    if s.len() > 0 {
        lemma_sum_bound(s.drop_last());
    }
}

proof fn lemma_sum_prefix_le(s: Seq<u8>, k: int)
    requires
        0 <= k <= s.len(),
    ensures
        seq_sum(s.take(k)) <= seq_sum(s),
    decreases s.len() - k,
{
    if k < s.len() {
        lemma_sum_prefix_le(s, k + 1);
        assert(s.take(k + 1).drop_last() =~= s.take(k));
    } else {
        assert(s.take(k) =~= s);
    }
}

/// Combines the stack counts of the entities that match a counter's target
/// filter (0 when none match).
pub fn aggregate_stacks(stacks: &Vec<u8>, aggregation: StackAggregation) -> (r: u32)
    requires
        aggregation == StackAggregation::Sum ==> seq_sum(stacks@) <= u32::MAX,
    ensures
        r == spec_aggregate(stacks@, aggregation),
{
    let mut acc: u32 = 0;
    let mut i: usize = 0;
    while i < stacks.len()
        invariant
            i <= stacks.len(),
            aggregation == StackAggregation::Sum ==> seq_sum(stacks@) <= u32::MAX,
            acc == spec_aggregate(stacks@.take(i as int), aggregation),
        decreases stacks.len() - i,
    {
        let v = stacks[i] as u32;
        proof {
            assert(stacks@.take(i + 1).drop_last() =~= stacks@.take(i as int));
            assert(stacks@.take(i + 1).last() == stacks@[i as int]);
            if aggregation == StackAggregation::Sum {
                lemma_sum_prefix_le(stacks@, i + 1);
            }
        }
        acc = match aggregation {
            StackAggregation::Max => if i == 0 || v > acc {
                v
            } else {
                acc
            },
            StackAggregation::Sum => acc + v,
            StackAggregation::Min => if i == 0 || v < acc {
                v
            } else {
                acc
            },
        };
        i = i + 1;
    }
    assert(stacks@.take(stacks.len() as int) =~= stacks@);
    acc
}

/// `Max` is the largest stack count and `Min` the smallest: each is one of
/// the counts, and bounds all of them.
pub proof fn law_max_min_are_extremes(s: Seq<u8>)
    requires
        s.len() > 0,
    ensures
        exists|i: int| 0 <= i < s.len() && s[i] as int == seq_max(s),
        exists|i: int| 0 <= i < s.len() && s[i] as int == seq_min(s),
        forall|i: int| 0 <= i < s.len() ==> seq_min(s) <= #[trigger] s[i] as int <= seq_max(s),
    decreases s.len(),
{
    if s.len() > 1 {
        let d = s.drop_last();
        law_max_min_are_extremes(d);
        assert forall|i: int| 0 <= i < s.len() implies seq_min(s) <= #[trigger] s[i] as int <= seq_max(s) by {
            if i < s.len() - 1 {
                assert(s[i] == d[i]);
            }
        }
        if seq_max(s) != s.last() as int {
            let i = choose|i: int| 0 <= i < d.len() && d[i] as int == seq_max(d);
            assert(s[i] == d[i]);
        } else {
            assert(s[s.len() - 1] as int == seq_max(s));
        }
        if seq_min(s) != s.last() as int {
            let i = choose|i: int| 0 <= i < d.len() && d[i] as int == seq_min(d);
            assert(s[i] == d[i]);
        } else {
            assert(s[s.len() - 1] as int == seq_min(s));
        }
    } else {
        assert(s[0] as int == seq_max(s));
        assert(s[0] as int == seq_min(s));
    }
}


/// The trigger-relevant settings of one counter of the active boss
/// definition.
#[derive(Debug, Clone)]
pub struct CounterRule {
    pub id: String,
    pub enabled: bool,
    /// Counters that follow an effect's stack count are updated elsewhere.
    pub tracks_effect_stacks: bool,
    /// Whether `increment_on` counts down instead of up.
    pub decrement: bool,
    /// A value that `increment_on` sets instead of counting.
    pub set_value: Option<u32>,
    /// Whether the counter has a `decrement_on` trigger.
    pub has_decrement_trigger: bool,
    /// The value that `reset_on` restores.
    pub initial_value: u32,
}

/// Which of a counter's triggers matched the current event or signals.
#[derive(Debug, Clone, Copy, PartialEq, Eq, Structural)]
pub struct CounterTriggerHits {
    pub increment: bool,
    pub decrement: bool,
    pub reset: bool,
}

/// A change to apply to a counter of the current encounter, in order.
#[derive(Debug, Clone, PartialEq, Eq)]
pub enum CounterOp {
    /// Modify the counter as `increment_on` (or `decrement_on`) asks.
    Modify { counter_id: String, decrement: bool, set_value: Option<u32> },
    /// Restore the initial value; a change is reported only when the value
    /// differs from it.
    Reset { counter_id: String, initial_value: u32 },
}

/// A counter trigger fires when it matches the raw event or one of the
/// signals gathered so far.
pub fn check_counter_trigger(matches_event: bool, matches_signals: bool) -> (r: bool)
    ensures
        r == (matches_event || matches_signals),
{
    if matches_event {
        return true;
    }
    matches_signals
}

/// The changes that one counter's matched triggers ask for, in the order
/// increment, decrement, reset.
pub open spec fn rule_ops(rule: CounterRule, hits: CounterTriggerHits) -> Seq<CounterOp> {
    if !rule.enabled || rule.tracks_effect_stacks {
        Seq::empty()
    } else {
        let inc = if hits.increment {
            seq![CounterOp::Modify { counter_id: rule.id, decrement: rule.decrement, set_value: rule.set_value }]
        } else {
            Seq::empty()
        };
        let dec = if rule.has_decrement_trigger && hits.decrement {
            seq![CounterOp::Modify { counter_id: rule.id, decrement: true, set_value: None }]
        } else {
            Seq::empty()
        };
        let reset = if hits.reset {
            seq![CounterOp::Reset { counter_id: rule.id, initial_value: rule.initial_value }]
        } else {
            Seq::empty()
        };
        inc + dec + reset
    }
}

/// The changes of all counters, counter by counter in definition order.
pub open spec fn all_rule_ops(rules: Seq<CounterRule>, hits: Seq<CounterTriggerHits>) -> Seq<CounterOp>
    decreases rules.len(),
{
    if rules.len() == 0 {
        Seq::empty()
    } else {
        all_rule_ops(rules.drop_last(), hits.take(rules.len() - 1)) + rule_ops(
            rules.last(),
            hits[rules.len() - 1],
        )
    }
}

/// The counter changes that the matched triggers of the active boss's
/// counters ask for. `hits[i]` tells which triggers of `counters[i]` matched
/// the event and the signals (see `check_counter_trigger`).
pub fn counter_ops(counters: &Vec<CounterRule>, hits: &Vec<CounterTriggerHits>) -> (r: Vec<CounterOp>)
    requires
        counters.len() == hits.len(),
    ensures
        r@ == all_rule_ops(counters@, hits@),
{
    let mut out: Vec<CounterOp> = Vec::new();
    let mut i: usize = 0;
    while i < counters.len()
        invariant
            i <= counters.len(),
            counters.len() == hits.len(),
            out@ == all_rule_ops(counters@.take(i as int), hits@.take(i as int)),
        decreases counters.len() - i,
    {
        let rule = &counters[i];
        let h = hits[i];
        let ghost before = out@;
        proof {
            assert(counters@.take(i + 1).drop_last() =~= counters@.take(i as int));
            assert(hits@.take(i + 1).take(i as int) =~= hits@.take(i as int));
            assert(counters@.take(i + 1).last() == counters@[i as int]);
            assert(hits@.take(i + 1)[i as int] == hits@[i as int]);
        }
        if rule.enabled && !rule.tracks_effect_stacks {
            if h.increment {
                out.push(
                    CounterOp::Modify {
                        counter_id: rule.id.clone(),
                        decrement: rule.decrement,
                        set_value: rule.set_value,
                    },
                );
            }
            let ghost after_inc = out@;
            if rule.has_decrement_trigger && h.decrement {
                out.push(CounterOp::Modify { counter_id: rule.id.clone(), decrement: true, set_value: None });
            }
            let ghost after_dec = out@;
            if h.reset {
                out.push(CounterOp::Reset { counter_id: rule.id.clone(), initial_value: rule.initial_value });
            }
            assert(out@ =~= before + rule_ops(counters@[i as int], hits@[i as int]));
        } else {
            assert(rule_ops(counters@[i as int], hits@[i as int]) =~= Seq::<CounterOp>::empty());
            assert(out@ =~= before + rule_ops(counters@[i as int], hits@[i as int]));
        }
        i = i + 1;
    }
    proof {
        assert(counters@.take(counters.len() as int) =~= counters@);
        assert(hits@.take(hits.len() as int) =~= hits@);
    }
    out
}

/// The counter that a change applies to.
pub open spec fn op_counter_id(op: CounterOp) -> String {
    match op {
        CounterOp::Modify { counter_id, .. } => counter_id,
        CounterOp::Reset { counter_id, .. } => counter_id,
    }
}

/// Whether `id` names a counter that is enabled and does not follow an
/// effect's stacks.
pub open spec fn is_trigger_counter(rules: Seq<CounterRule>, id: String) -> bool {
    exists|i: int|
        0 <= i < rules.len() && rules[i].enabled && !rules[i].tracks_effect_stacks && #[trigger] rules[i].id == id
}

/// Only triggers change counters that are enabled and do not follow an
/// effect's stacks: each change names such a counter.
pub proof fn law_only_trigger_counters_change(rules: Seq<CounterRule>, hits: Seq<CounterTriggerHits>)
    requires
        rules.len() == hits.len(),
    ensures
        forall|k: int|
            0 <= k < all_rule_ops(rules, hits).len() ==> is_trigger_counter(
                rules,
                op_counter_id(#[trigger] all_rule_ops(rules, hits)[k]),
            ),
    decreases rules.len(),
{
    if rules.len() > 0 {
        let n = rules.len() - 1;
        let front = rules.drop_last();
        let fh = hits.take(n);
        law_only_trigger_counters_change(front, fh);
        let all = all_rule_ops(rules, hits);
        let head = all_rule_ops(front, fh);
        let tail = rule_ops(rules.last(), hits[n]);
        assert(all == head + tail);
        assert forall|k: int| 0 <= k < all.len() implies is_trigger_counter(rules, op_counter_id(#[trigger] all[k])) by {
            if k < head.len() {
                assert(all[k] == head[k]);
                assert(is_trigger_counter(front, op_counter_id(head[k])));
                let i = choose|i: int|
                    0 <= i < front.len() && front[i].enabled && !front[i].tracks_effect_stacks && #[trigger] front[i].id == op_counter_id(head[k]);
                assert(rules[i] == front[i]);
            } else {
                assert(all[k] == tail[k - head.len()]);
                assert(op_counter_id(tail[k - head.len()]) == rules[n].id);
                assert(rules[n].id == op_counter_id(all[k]));
            }
        }
    }
}

/// A change of a counter's value, as signalled.
#[derive(Debug, Clone, PartialEq, Eq)]
pub struct CounterChanged {
    pub counter_id: String,
    pub old_value: u32,
    pub new_value: u32,
    pub timestamp: i64,
}

/// The value of a counter: 0 for one that was never set.
pub open spec fn counter_value(values: Map<Seq<char>, u32>, id: Seq<char>) -> u32 {
    if values.contains_key(id) {
        values[id]
    } else {
        0
    }
}

/// Some entry of `es` is for counter `id`.
pub open spec fn has_counter(es: Seq<(String, u32)>, id: Seq<char>) -> bool {
    exists|k: int| 0 <= k < es.len() && (#[trigger] es[k]).0@ == id
}

/// The entry list as a map from counter ID to value.
pub open spec fn values_map(es: Seq<(String, u32)>) -> Map<Seq<char>, u32> {
    Map::new(
        |p: Seq<char>| has_counter(es, p),
        |p: Seq<char>| es[choose|k: int| 0 <= k < es.len() && (#[trigger] es[k]).0@ == p].1,
    )
}

/// No two entries are for the same counter.
pub open spec fn counter_ids_distinct(es: Seq<(String, u32)>) -> bool {
    forall|i: int, j: int|
        0 <= i < es.len() && 0 <= j < es.len() && i != j ==> (#[trigger] es[i]).0@ != (#[trigger] es[j]).0@
}

proof fn lemma_values_map_at(es: Seq<(String, u32)>, k: int)
    requires
        counter_ids_distinct(es),
        0 <= k < es.len(),
    ensures
        values_map(es).contains_key(es[k].0@),
        values_map(es)[es[k].0@] == es[k].1,
{
    let p = es[k].0@;
    assert(has_counter(es, p));
    let c = choose|c: int| 0 <= c < es.len() && (#[trigger] es[c]).0@ == p;
    assert(c == k);
}

/// The counter values of an encounter, by counter ID.
#[derive(Debug)]
pub struct CounterValues {
    entries: Vec<(String, u32)>,
}

impl CounterValues {
    /// The values by counter ID.
    pub closed spec fn values(&self) -> Map<Seq<char>, u32> {
        values_map(self.entries@)
    }

    #[verifier::type_invariant]
    closed spec fn wf(&self) -> bool {
        counter_ids_distinct(self.entries@)
    }

    /// No counter set yet.
    pub fn new() -> (r: Self)
        ensures
            r.values() == Map::<Seq<char>, u32>::empty(),
    {
        let r = CounterValues { entries: Vec::new() };
        assert(r.values() =~= Map::<Seq<char>, u32>::empty());
        r
    }

    fn position(&self, id: &str) -> (r: Option<usize>)
        ensures
            match r {
                Some(k) => k < self.entries@.len() && self.entries@[k as int].0@ == id@,
                None => !has_counter(self.entries@, id@),
            },
    {
        let target = chars_of(id);
        let mut k: usize = 0;
        while k < self.entries.len()
            invariant
                k <= self.entries@.len(),
                target@ == id@,
                forall|j: int| 0 <= j < k ==> (#[trigger] self.entries@[j]).0@ != id@,
            decreases self.entries@.len() - k,
        {
            let name = chars_of(self.entries[k].0.as_str());
            if chars_eq(&name, &target) {
                return Some(k);
            }
            k = k + 1;
        }
        None
    }

    /// The value of a counter (0 for one never set).
    pub fn get(&self, id: &str) -> (r: u32)
        ensures
            r == counter_value(self.values(), id@),
    {
        proof {
            use_type_invariant(self);
        }
        match self.position(id) {
            Some(k) => {
                proof {
                    lemma_values_map_at(self.entries@, k as int);
                }
                self.entries[k].1
            },
            None => 0,
        }
    }

    /// Sets a counter's value.
    pub fn set(&mut self, id: String, value: u32)
        ensures
            final(self).values() == old(self).values().insert(id@, value),
    {
        proof {
            use_type_invariant(&*self);
        }
        let ghost old_es = self.entries@;
        let ghost pv = id@;
        let pos = self.position(id.as_str());
        let mut entries: Vec<(String, u32)> = Vec::new();
        std::mem::swap(&mut entries, &mut self.entries);
        match pos {
            Some(k) => {
                entries.set(k, (id, value));
            },
            None => {
                entries.push((id, value));
            },
        }
        proof {
            let es = entries@;
            assert(counter_ids_distinct(es)) by {
                assert forall|i: int, j: int|
                    0 <= i < es.len() && 0 <= j < es.len() && i != j implies (#[trigger] es[i]).0@
                    != (#[trigger] es[j]).0@ by {
                    if i < old_es.len() && j < old_es.len() {
                        if pos is Some && (i == pos->0 || j == pos->0) {
                            let k = pos->0 as int;
                            let o = if i == k { j } else { i };
                            assert(old_es[o].0@ != old_es[k].0@);
                        }
                    } else if i >= old_es.len() {
                        assert(es[j] == old_es[j]);
                    } else {
                        assert(es[i] == old_es[i]);
                    }
                }
            }
            let m_old = values_map(old_es);
            let m_new = values_map(es);
            assert forall|p: Seq<char>| m_new.contains_key(p) <==> m_old.insert(pv, value).contains_key(p) by {
                if has_counter(es, p) && p != pv {
                    let k = choose|k: int| 0 <= k < es.len() && (#[trigger] es[k]).0@ == p;
                    assert(es[k] == old_es[k]);
                }
                if has_counter(old_es, p) && p != pv {
                    let k = choose|k: int| 0 <= k < old_es.len() && (#[trigger] old_es[k]).0@ == p;
                    assert(es[k] == old_es[k]);
                }
                if p == pv {
                    let k = if pos is Some { pos->0 as int } else { old_es.len() as int };
                    assert(es[k].0@ == pv);
                }
            }
            assert forall|p: Seq<char>| #[trigger] m_new.contains_key(p) implies m_new[p]
                == m_old.insert(pv, value)[p] by {
                let k = choose|k: int| 0 <= k < es.len() && (#[trigger] es[k]).0@ == p;
                lemma_values_map_at(es, k);
                if p != pv {
                    assert(es[k] == old_es[k]);
                    lemma_values_map_at(old_es, k);
                }
            }
            assert(m_new =~= m_old.insert(pv, value));
        }
        self.entries = entries;
    }
}

/// One change applied to the counter values, where `out` is the value that
/// a modification produced: the values after, and the signal it gives. A
/// reset signals only when it changes the value.
pub open spec fn apply_op(values: Map<Seq<char>, u32>, op: CounterOp, out: u32, ts: i64) -> (Map<Seq<char>, u32>, Seq<CounterChanged>) {
    match op {
        CounterOp::Modify { counter_id, .. } => (
            values.insert(counter_id@, out),
            seq![CounterChanged { counter_id, old_value: counter_value(values, counter_id@), new_value: out, timestamp: ts }],
        ),
        CounterOp::Reset { counter_id, initial_value } => {
            let old = counter_value(values, counter_id@);
            if old != initial_value {
                (
                    values.insert(counter_id@, initial_value),
                    seq![CounterChanged { counter_id, old_value: old, new_value: initial_value, timestamp: ts }],
                )
            } else {
                (values, Seq::empty())
            }
        },
    }
}

/// The changes applied in order, `outs[k]` being the value that change `k`
/// produced if it is a modification: the values after, and the signals.
pub open spec fn apply_ops(values: Map<Seq<char>, u32>, ops: Seq<CounterOp>, outs: Seq<u32>, ts: i64) -> (Map<Seq<char>, u32>, Seq<CounterChanged>)
    decreases ops.len(),
{
    if ops.len() == 0 {
        (values, Seq::empty())
    } else {
        let prev = apply_ops(values, ops.drop_last(), outs.drop_last(), ts);
        let step = apply_op(prev.0, ops.last(), outs.last(), ts);
        (step.0, prev.1 + step.1)
    }
}

/// Each modification's value in `outs` is one that `modify` can give for the
/// counter's value just before it, with the modification's direction and
/// set value.
pub open spec fn outcomes_allowed<F: Fn(u32, bool, Option<u32>) -> u32>(
    values: Map<Seq<char>, u32>,
    ops: Seq<CounterOp>,
    outs: Seq<u32>,
    ts: i64,
    modify: F,
) -> bool
    decreases ops.len(),
{
    if ops.len() == 0 {
        true
    } else {
        let prev = apply_ops(values, ops.drop_last(), outs.drop_last(), ts);
        &&& outcomes_allowed(values, ops.drop_last(), outs.drop_last(), ts, modify)
        &&& match ops.last() {
            CounterOp::Modify { counter_id, decrement, set_value } => modify.ensures(
                (counter_value(prev.0, counter_id@), decrement, set_value),
                outs.last(),
            ),
            CounterOp::Reset { .. } => true,
        }
    }
}

/// Applies the changes in order to the counter values and returns the
/// signals. `modify` stands for the encounter's counter modification: given
/// a counter's value, whether to count down, and the value to set, it gives
/// the new value.
pub fn apply_counter_ops<F: Fn(u32, bool, Option<u32>) -> u32>(
    values: &mut CounterValues,
    ops: &Vec<CounterOp>,
    timestamp: i64,
    modify: F,
) -> (r: Vec<CounterChanged>)
    requires
        forall|v: u32, d: bool, s: Option<u32>| modify.requires((v, d, s)),
    ensures
        exists|outs: Seq<u32>|
            {
                &&& #[trigger] outcomes_allowed(old(values).values(), ops@, outs, timestamp, modify)
                &&& outs.len() == ops@.len()
                &&& (final(values).values(), r@) == apply_ops(old(values).values(), ops@, outs, timestamp)
            },
{
    let ghost v0 = values.values();
    let ghost mut outs: Seq<u32> = Seq::empty();
    let mut sigs: Vec<CounterChanged> = Vec::new();
    let mut i: usize = 0;
    assert(ops@.take(0) =~= Seq::<CounterOp>::empty());
    while i < ops.len()
        invariant
            i <= ops.len(),
            outs.len() == i,
            forall|v: u32, d: bool, s: Option<u32>| modify.requires((v, d, s)),
            outcomes_allowed(v0, ops@.take(i as int), outs, timestamp, modify),
            (values.values(), sigs@) == apply_ops(v0, ops@.take(i as int), outs, timestamp),
        decreases ops.len() - i,
    {
        let ghost before_vals = values.values();
        let ghost before_sigs = sigs@;
        let ghost before_outs = outs;
        let ghost pre = ops@.take(i as int);
        let ghost cur = ops@.take(i + 1);
        proof {
            assert(cur.drop_last() =~= pre);
            assert(cur.last() == ops@[i as int]);
        }
        match &ops[i] {
            CounterOp::Modify { counter_id, decrement, set_value } => {
                let old_value = values.get(counter_id.as_str());
                let new_value = modify(old_value, *decrement, *set_value);
                values.set(counter_id.clone(), new_value);
                sigs.push(CounterChanged { counter_id: counter_id.clone(), old_value, new_value, timestamp });
                proof {
                    outs = outs.push(new_value);
                    assert(outs.drop_last() =~= before_outs);
                    assert(sigs@ =~= before_sigs + apply_op(before_vals, ops@[i as int], new_value, timestamp).1);
                }
            },
            CounterOp::Reset { counter_id, initial_value } => {
                let old_value = values.get(counter_id.as_str());
                if old_value != *initial_value {
                    values.set(counter_id.clone(), *initial_value);
                    sigs.push(
                        CounterChanged {
                            counter_id: counter_id.clone(),
                            old_value,
                            new_value: *initial_value,
                            timestamp,
                        },
                    );
                }
                proof {
                    outs = outs.push(0);
                    assert(outs.drop_last() =~= before_outs);
                    assert(sigs@ =~= before_sigs + apply_op(before_vals, ops@[i as int], 0, timestamp).1);
                }
            },
        }
        i = i + 1;
    }
    assert(ops@.take(ops.len() as int) =~= ops@);
    sigs
}

/// Applies the changes that the matched triggers of the active boss's
/// counters ask for (see `counter_ops`) to the encounter's counter values,
/// and returns the `CounterChanged` signals, all at the event's timestamp.
/// `counters` is None when there is no encounter or no active boss: then
/// nothing changes. `modify` stands for the encounter's counter
/// modification.
pub fn check_counter_increments<F: Fn(u32, bool, Option<u32>) -> u32>(
    counters: Option<&Vec<CounterRule>>,
    hits: &Vec<CounterTriggerHits>,
    values: &mut CounterValues,
    timestamp: i64,
    modify: F,
) -> (r: Vec<CounterChanged>)
    requires
        counters matches Some(c) ==> c.len() == hits.len(),
        forall|v: u32, d: bool, s: Option<u32>| modify.requires((v, d, s)),
    ensures
        counters is None ==> r@.len() == 0 && final(values).values() == old(values).values(),
        counters matches Some(c) ==> exists|outs: Seq<u32>|
            {
                &&& #[trigger] outcomes_allowed(
                    old(values).values(),
                    all_rule_ops(c@, hits@),
                    outs,
                    timestamp,
                    modify,
                )
                &&& outs.len() == all_rule_ops(c@, hits@).len()
                &&& (final(values).values(), r@) == apply_ops(
                    old(values).values(),
                    all_rule_ops(c@, hits@),
                    outs,
                    timestamp,
                )
            },
{
    match counters {
        Some(c) => {
            let ops = counter_ops(c, hits);
            apply_counter_ops(values, &ops, timestamp, modify)
        },
        None => Vec::new(),
    }
}

/// The value of counter `id` after the signals `sigs`: the new value of the
/// last signal for it, or its value in `values` when none is for it.
pub open spec fn value_after_signals(values: Map<Seq<char>, u32>, sigs: Seq<CounterChanged>, id: Seq<char>) -> u32
    decreases sigs.len(),
{
    if sigs.len() == 0 {
        counter_value(values, id)
    } else if sigs.last().counter_id@ == id {
        sigs.last().new_value
    } else {
        value_after_signals(values, sigs.drop_last(), id)
    }
}

/// The signals of applied changes chain: each carries the event's
/// timestamp, its old value is the new value of the previous signal for the
/// same counter (or the counter's value before, when none came first), it
/// names a counter that one of the changes names, there are no more signals
/// than changes; and afterwards each counter holds the new value of its last
/// signal, or its value before when none was for it.
pub proof fn law_counter_signals_chain(values: Map<Seq<char>, u32>, ops: Seq<CounterOp>, outs: Seq<u32>, ts: i64)
    requires
        outs.len() == ops.len(),
    ensures
        ({
            let (end, sigs) = apply_ops(values, ops, outs, ts);
            &&& sigs.len() <= ops.len()
            &&& forall|k: int| 0 <= k < sigs.len() ==> (#[trigger] sigs[k]).timestamp == ts
            &&& forall|k: int|
                0 <= k < sigs.len() ==> (#[trigger] sigs[k]).old_value == value_after_signals(
                    values,
                    sigs.take(k),
                    sigs[k].counter_id@,
                )
            &&& forall|k: int|
                0 <= k < sigs.len() ==> exists|j: int|
                    0 <= j < ops.len() && op_counter_id(#[trigger] ops[j]) == (#[trigger] sigs[k]).counter_id
            &&& forall|id: Seq<char>| #[trigger] counter_value(end, id) == value_after_signals(values, sigs, id)
        }),
    decreases ops.len(),
{
    if ops.len() > 0 {
        let front = ops.drop_last();
        law_counter_signals_chain(values, front, outs.drop_last(), ts);
        let prev = apply_ops(values, front, outs.drop_last(), ts);
        let step = apply_op(prev.0, ops.last(), outs.last(), ts);
        let sigs = prev.1 + step.1;
        let n = prev.1.len();
        assert forall|k: int| 0 <= k < sigs.len() implies (#[trigger] sigs[k]).timestamp == ts
            && sigs[k].old_value == value_after_signals(values, sigs.take(k), sigs[k].counter_id@)
            && exists|j: int| 0 <= j < ops.len() && op_counter_id(#[trigger] ops[j]) == sigs[k].counter_id by {
            if k < n {
                assert(sigs[k] == prev.1[k]);
                assert(sigs.take(k) =~= prev.1.take(k));
                let j = choose|j: int| 0 <= j < front.len() && op_counter_id(#[trigger] front[j]) == prev.1[k].counter_id;
                assert(ops[j] == front[j]);
            } else {
                assert(sigs.take(k) =~= prev.1);
                assert(sigs[k] == step.1[k - n]);
                assert(op_counter_id(ops[ops.len() - 1]) == sigs[k].counter_id);
            }
        }
        assert forall|id: Seq<char>| #[trigger] counter_value(step.0, id) == value_after_signals(values, sigs, id) by {
            assert(counter_value(prev.0, id) == value_after_signals(values, prev.1, id));
            if step.1.len() == 0 {
                assert(sigs =~= prev.1);
                assert(step.0 == prev.0);
            } else {
                assert(step.1.len() == 1);
                assert(sigs.drop_last() =~= prev.1);
                assert(sigs.last() == step.1[0]);
                let cid = op_counter_id(ops.last());
                assert(step.1[0].counter_id == cid);
                assert(step.0 == prev.0.insert(cid@, step.1[0].new_value));
            }
        }
    }
}

/// Every signal of `check_counter_increments` is for a counter that is
/// enabled and does not follow an effect's stacks.
pub proof fn law_signals_name_trigger_counters(
    rules: Seq<CounterRule>,
    hits: Seq<CounterTriggerHits>,
    values: Map<Seq<char>, u32>,
    outs: Seq<u32>,
    ts: i64,
)
    requires
        rules.len() == hits.len(),
        outs.len() == all_rule_ops(rules, hits).len(),
    ensures
        forall|k: int|
            0 <= k < apply_ops(values, all_rule_ops(rules, hits), outs, ts).1.len() ==> is_trigger_counter(
                rules,
                (#[trigger] apply_ops(values, all_rule_ops(rules, hits), outs, ts).1[k]).counter_id,
            ),
{
    let ops = all_rule_ops(rules, hits);
    let sigs = apply_ops(values, ops, outs, ts).1;
    law_only_trigger_counters_change(rules, hits);
    law_counter_signals_chain(values, ops, outs, ts);
    assert forall|k: int| 0 <= k < sigs.len() implies is_trigger_counter(rules, (#[trigger] sigs[k]).counter_id) by {
        let j = choose|j: int| 0 <= j < ops.len() && op_counter_id(#[trigger] ops[j]) == sigs[k].counter_id;
        assert(is_trigger_counter(rules, op_counter_id(ops[j])));
    }
}

/// A counter's triggers ask for at most three changes per event, all of
/// that counter.
pub proof fn law_at_most_three_changes_per_counter(rule: CounterRule, hits: CounterTriggerHits)
    ensures
        rule_ops(rule, hits).len() <= 3,
        forall|k: int|
            0 <= k < rule_ops(rule, hits).len() ==> op_counter_id(#[trigger] rule_ops(rule, hits)[k]) == rule.id,
{
}

/// A counter that follows the stack count of an effect across the entities
/// its target filter matches.
#[derive(Debug, Clone)]
pub struct StackCounter {
    pub id: String,
    pub enabled: bool,
    /// The effects whose stacks count.
    pub effects: Vec<Selector>,
    pub aggregation: StackAggregation,
}

/// The stack count of an effect on an entity: (effect ID, entity ID, stacks).
pub type StackEntry = (i64, i64, u8);

/// The entries without those of an effect on an entity.
pub open spec fn without_stacks(t: Seq<StackEntry>, effect_id: i64, entity: i64) -> Seq<StackEntry>
    decreases t.len(),
{
    if t.len() == 0 {
        t
    } else if t.last().0 == effect_id && t.last().1 == entity {
        without_stacks(t.drop_last(), effect_id, entity)
    } else {
        without_stacks(t.drop_last(), effect_id, entity).push(t.last())
    }
}

/// The entries after an effect's stacks on an entity are set.
pub open spec fn with_stacks(t: Seq<StackEntry>, effect_id: i64, entity: i64, stacks: u8) -> Seq<StackEntry> {
    without_stacks(t, effect_id, entity).push((effect_id, entity, stacks))
}

/// What an effect signal does to the stack entries, for one counter: an
/// application sets the stacks (1 without charges), a charge change sets
/// them, a removal drops them; only for effects the counter follows. Also
/// whether the entries were touched.
pub open spec fn stack_update(t: Seq<StackEntry>, c: StackCounter, sig: Signal) -> (Seq<StackEntry>, bool) {
    match sig {
        Signal::EffectApplied(e) => if any_picks(c.effects@, e.effect_id, Some(e.effect_name@)) {
            (
                with_stacks(
                    t,
                    e.effect_id,
                    e.target.id,
                    match e.charges {
                        Some(x) => x,
                        None => 1,
                    },
                ),
                true,
            )
        } else {
            (t, false)
        },
        Signal::EffectChargesChanged(e) => if any_picks(c.effects@, e.effect_id, Some(e.effect_name@)) {
            (with_stacks(t, e.effect_id, e.target_id, e.charges), true)
        } else {
            (t, false)
        },
        Signal::EffectRemoved(e) => if any_picks(c.effects@, e.effect_id, Some(e.effect_name@)) {
            (without_stacks(t, e.effect_id, e.target.id), true)
        } else {
            (t, false)
        },
        _ => (t, false),
    }
}

/// One signal's updates, counter by counter (of the first `n` counters).
pub open spec fn stack_updates(t: Seq<StackEntry>, cs: Seq<StackCounter>, sig: Signal, n: nat) -> (Seq<StackEntry>, bool)
    decreases n,
{
    if n == 0 {
        (t, false)
    } else {
        let prev = stack_updates(t, cs, sig, (n - 1) as nat);
        if n - 1 < cs.len() && cs[n - 1].enabled {
            let u = stack_update(prev.0, cs[n - 1], sig);
            (u.0, prev.1 || u.1)
        } else {
            prev
        }
    }
}

/// The updates of the first `n` signals, in order.
pub open spec fn stack_pass(t: Seq<StackEntry>, cs: Seq<StackCounter>, sigs: Seq<Signal>, n: nat) -> (Seq<StackEntry>, bool)
    decreases n,
{
    if n == 0 {
        (t, false)
    } else {
        let prev = stack_pass(t, cs, sigs, (n - 1) as nat);
        if n - 1 < sigs.len() {
            let u = stack_updates(prev.0, cs, sigs[n - 1], cs.len());
            (u.0, prev.1 || u.1)
        } else {
            prev
        }
    }
}

/// Whether `target_ok` lets entity `e` count for counter `c`.
pub open spec fn counts_entity<T: Fn(&StackCounter, i64) -> bool>(target_ok: T, c: StackCounter, e: i64) -> bool {
    target_ok.ensures((&c, e), true)
}

/// `target_ok` gives one answer per counter and entity.
pub open spec fn filters<T: Fn(&StackCounter, i64) -> bool>(target_ok: T) -> bool {
    &&& forall|c: StackCounter, e: i64| target_ok.requires((&c, e))
    &&& forall|c: StackCounter, e: i64, a: bool, b: bool| target_ok.ensures((&c, e), a) && target_ok.ensures((&c, e), b) ==> a == b
}

/// The stacks that count for a counter: those of effects it follows (by
/// ID) on entities its target filter matches, in entry order.
pub open spec fn counted_stacks<T: Fn(&StackCounter, i64) -> bool>(t: Seq<StackEntry>, c: StackCounter, target_ok: T) -> Seq<u8>
    decreases t.len(),
{
    if t.len() == 0 {
        Seq::empty()
    } else {
        let prev = counted_stacks(t.drop_last(), c, target_ok);
        let x = t.last();
        if any_picks(c.effects@, x.0, None) && counts_entity(target_ok, c, x.1) {
            prev.push(x.2)
        } else {
            prev
        }
    }
}

/// A counter's aggregated value (a sum beyond the `u32` range is held at
/// its maximum).
pub open spec fn stack_value(stacks: Seq<u8>, a: StackAggregation) -> u32 {
    if a == StackAggregation::Sum && seq_sum(stacks) > u32::MAX {
        u32::MAX
    } else {
        spec_aggregate(stacks, a) as u32
    }
}

/// The counters' new values after the updates, counter by counter (of the
/// first `n`): a counter whose aggregated value differs from its current
/// value is set to it and signals the change.
pub open spec fn stack_values<T: Fn(&StackCounter, i64) -> bool>(
    values: Map<Seq<char>, u32>,
    t: Seq<StackEntry>,
    cs: Seq<StackCounter>,
    target_ok: T,
    ts: i64,
    n: nat,
) -> (Map<Seq<char>, u32>, Seq<CounterChanged>)
    decreases n,
{
    if n == 0 {
        (values, Seq::empty())
    } else {
        let prev = stack_values(values, t, cs, target_ok, ts, (n - 1) as nat);
        if n - 1 < cs.len() && cs[n - 1].enabled {
            let c = cs[n - 1];
            let v = stack_value(counted_stacks(t, c, target_ok), c.aggregation);
            let old = counter_value(prev.0, c.id@);
            if v != old {
                (
                    prev.0.insert(c.id@, v),
                    prev.1.push(CounterChanged { counter_id: c.id, old_value: old, new_value: v, timestamp: ts }),
                )
            } else {
                prev
            }
        } else {
            prev
        }
    }
}

/// Effect stack counters after a batch of signals: the stack entries take
/// the effect signals of the followed effects; when any was touched, each
/// enabled counter takes its aggregated value and signals a change.
pub open spec fn spec_stack_counters<T: Fn(&StackCounter, i64) -> bool>(
    values: Map<Seq<char>, u32>,
    t: Seq<StackEntry>,
    cs: Seq<StackCounter>,
    sigs: Seq<Signal>,
    target_ok: T,
    ts: i64,
) -> (Map<Seq<char>, u32>, Seq<StackEntry>, Seq<CounterChanged>) {
    let (t1, changed) = stack_pass(t, cs, sigs, sigs.len());
    if !changed {
        (values, t1, Seq::empty())
    } else {
        let (v1, out) = stack_values(values, t1, cs, target_ok, ts, cs.len());
        (v1, t1, out)
    }
}

fn drop_stacks(t: &mut Vec<StackEntry>, effect_id: i64, entity: i64)
    ensures
        final(t)@ == without_stacks(old(t)@, effect_id, entity),
{
    let mut kept: Vec<StackEntry> = Vec::new();
    let mut i: usize = 0;
    assert(t@.take(0) =~= Seq::<StackEntry>::empty());
    while i < t.len()
        invariant
            i <= t.len(),
            t@ == old(t)@,
            kept@ == without_stacks(t@.take(i as int), effect_id, entity),
        decreases t.len() - i,
    {
        proof {
            assert(t@.take(i + 1).drop_last() =~= t@.take(i as int));
        }
        let x = t[i];
        if !(x.0 == effect_id && x.1 == entity) {
            kept.push(x);
        }
        i = i + 1;
    }
    assert(t@.take(t.len() as int) =~= t@);
    *t = kept;
}

fn update_one(t: &mut Vec<StackEntry>, c: &StackCounter, sig: &Signal) -> (changed: bool)
    ensures
        (final(t)@, changed) == stack_update(old(t)@, *c, *sig),
{
    match sig {
        Signal::EffectApplied(e) => {
            if picks(&c.effects, e.effect_id, Some(e.effect_name.as_str())) {
                let stacks = match e.charges {
                    Some(x) => x,
                    None => 1,
                };
                drop_stacks(t, e.effect_id, e.target.id);
                t.push((e.effect_id, e.target.id, stacks));
                true
            } else {
                false
            }
        },
        Signal::EffectChargesChanged(e) => {
            if picks(&c.effects, e.effect_id, Some(e.effect_name.as_str())) {
                drop_stacks(t, e.effect_id, e.target_id);
                t.push((e.effect_id, e.target_id, e.charges));
                true
            } else {
                false
            }
        },
        Signal::EffectRemoved(e) => {
            if picks(&c.effects, e.effect_id, Some(e.effect_name.as_str())) {
                drop_stacks(t, e.effect_id, e.target.id);
                true
            } else {
                false
            }
        },
        _ => false,
    }
}

fn sum_fits(s: &Vec<u8>) -> (r: bool)
    ensures
        r == (seq_sum(s@) <= u32::MAX),
{
    let mut acc: u128 = 0;
    let mut i: usize = 0;
    while i < s.len()
        invariant
            i <= s.len(),
            acc == seq_sum(s@.take(i as int)),
            acc <= 255 * i,
        decreases s.len() - i,
    {
        proof {
            assert(s@.take(i + 1).drop_last() =~= s@.take(i as int));
        }
        acc = acc + s[i] as u128;
        i = i + 1;
    }
    assert(s@.take(s.len() as int) =~= s@);
    acc <= u32::MAX as u128
}

fn counted<T: Fn(&StackCounter, i64) -> bool>(t: &Vec<StackEntry>, c: &StackCounter, target_ok: &T) -> (r: Vec<u8>)
    requires
        filters(*target_ok),
    ensures
        r@ == counted_stacks(t@, *c, *target_ok),
{
    let mut out: Vec<u8> = Vec::new();
    let mut i: usize = 0;
    assert(t@.take(0) =~= Seq::<StackEntry>::empty());
    while i < t.len()
        invariant
            i <= t.len(),
            filters(*target_ok),
            out@ == counted_stacks(t@.take(i as int), *c, *target_ok),
        decreases t.len() - i,
    {
        proof {
            assert(t@.take(i + 1).drop_last() =~= t@.take(i as int));
        }
        let x = t[i];
        if picks(&c.effects, x.0, None) {
            let ok = target_ok(c, x.1);
            proof {
                assert(ok == counts_entity(*target_ok, *c, x.1));
            }
            if ok {
                out.push(x.2);
            }
        }
        i = i + 1;
    }
    assert(t@.take(t.len() as int) =~= t@);
    out
}

/// Effect stack counters after a batch of signals (see
/// `spec_stack_counters`). `stacks` holds the encounter's stack entries;
/// `target_ok` decides whether an entity matches a counter's target filter.
pub fn check_effect_stack_counters<T: Fn(&StackCounter, i64) -> bool>(
    counters: &Vec<StackCounter>,
    signals: &Vec<Signal>,
    stacks: &mut Vec<StackEntry>,
    values: &mut CounterValues,
    timestamp: i64,
    target_ok: &T,
) -> (r: Vec<CounterChanged>)
    requires
        filters(*target_ok),
    ensures
        (final(values).values(), final(stacks)@, r@) == spec_stack_counters(
            old(values).values(),
            old(stacks)@,
            counters@,
            signals@,
            *target_ok,
            timestamp,
        ),
{
    let mut changed = false;
    let ghost t0 = stacks@;
    let mut i: usize = 0;
    while i < signals.len()
        invariant
            i <= signals.len(),
            (stacks@, changed) == stack_pass(t0, counters@, signals@, i as nat),
        decreases signals.len() - i,
    {
        let ghost before = stacks@;
        let ghost ch0 = changed;
        let mut any = false;
        let mut k: usize = 0;
        while k < counters.len()
            invariant
                k <= counters.len(),
                i < signals.len(),
                (stacks@, any) == stack_updates(before, counters@, signals@[i as int], k as nat),
            decreases counters.len() - k,
        {
            if counters[k].enabled {
                let u = update_one(stacks, &counters[k], &signals[i]);
                any = any || u;
            }
            k = k + 1;
        }
        changed = changed || any;
        i = i + 1;
    }
    if !changed {
        return Vec::new();
    }
    let mut out: Vec<CounterChanged> = Vec::new();
    let ghost v0 = values.values();
    let mut k: usize = 0;
    while k < counters.len()
        invariant
            k <= counters.len(),
            filters(*target_ok),
            (values.values(), out@) == stack_values(v0, stacks@, counters@, *target_ok, timestamp, k as nat),
        decreases counters.len() - k,
    {
        let c = &counters[k];
        if c.enabled {
            let s = counted(stacks, c, target_ok);
            let v = if c.aggregation == StackAggregation::Sum && !sum_fits(&s) {
                u32::MAX
            } else {
                aggregate_stacks(&s, c.aggregation)
            };
            let old = values.get(c.id.as_str());
            if v != old {
                values.set(c.id.clone(), v);
                out.push(CounterChanged { counter_id: c.id.clone(), old_value: old, new_value: v, timestamp });
            }
        }
        k = k + 1;
    }
    out
}


proof fn lemma_disabled_values<T: Fn(&StackCounter, i64) -> bool>(
    values: Map<Seq<char>, u32>,
    t: Seq<StackEntry>,
    cs: Seq<StackCounter>,
    target_ok: T,
    ts: i64,
    n: nat,
    id: Seq<char>,
)
    requires
        forall|j: int| 0 <= j < cs.len() && (#[trigger] cs[j]).enabled ==> cs[j].id@ != id,
    ensures
        counter_value(stack_values(values, t, cs, target_ok, ts, n).0, id) == counter_value(values, id),
        forall|i: int|
            0 <= i < stack_values(values, t, cs, target_ok, ts, n).1.len() ==> (#[trigger] stack_values(
                values,
                t,
                cs,
                target_ok,
                ts,
                n,
            ).1[i]).counter_id@ != id,
    decreases n,
{
    if n > 0 {
        lemma_disabled_values(values, t, cs, target_ok, ts, (n - 1) as nat, id);
        if n - 1 < cs.len() && cs[n - 1].enabled {
            assert(cs[n - 1].id@ != id);
        }
    }
}

/// A stack counter that is disabled never changes nor signals: when no
/// enabled counter shares its ID, its value after a batch is its value
/// before, and no change names it.
pub proof fn law_disabled_stack_counter_stays<T: Fn(&StackCounter, i64) -> bool>(
    values: Map<Seq<char>, u32>,
    t: Seq<StackEntry>,
    cs: Seq<StackCounter>,
    sigs: Seq<Signal>,
    target_ok: T,
    ts: i64,
    k: int,
)
    requires
        0 <= k < cs.len(),
        !cs[k].enabled,
        forall|j: int| 0 <= j < cs.len() && (#[trigger] cs[j]).enabled ==> cs[j].id@ != cs[k].id@,
    ensures
        counter_value(spec_stack_counters(values, t, cs, sigs, target_ok, ts).0, cs[k].id@) == counter_value(
            values,
            cs[k].id@,
        ),
        forall|i: int|
            0 <= i < spec_stack_counters(values, t, cs, sigs, target_ok, ts).2.len() ==> (
            #[trigger] spec_stack_counters(values, t, cs, sigs, target_ok, ts).2[i]).counter_id@ != cs[k].id@,
{
    let t1 = stack_pass(t, cs, sigs, sigs.len()).0;
    lemma_disabled_values(values, t1, cs, target_ok, ts, cs.len(), cs[k].id@);
}

proof fn lemma_disabled_updates(t: Seq<StackEntry>, cs: Seq<StackCounter>, sig: Signal, n: nat)
    requires
        forall|j: int| 0 <= j < cs.len() ==> !(#[trigger] cs[j]).enabled,
    ensures
        stack_updates(t, cs, sig, n) == (t, false),
    decreases n,
{
    if n > 0 {
        lemma_disabled_updates(t, cs, sig, (n - 1) as nat);
        if n - 1 < cs.len() {
            assert(!cs[n - 1].enabled);
        }
    }
}

proof fn lemma_disabled_pass(t: Seq<StackEntry>, cs: Seq<StackCounter>, sigs: Seq<Signal>, n: nat)
    requires
        forall|j: int| 0 <= j < cs.len() ==> !(#[trigger] cs[j]).enabled,
    ensures
        stack_pass(t, cs, sigs, n) == (t, false),
    decreases n,
{
    if n > 0 {
        lemma_disabled_pass(t, cs, sigs, (n - 1) as nat);
        if n - 1 < sigs.len() {
            lemma_disabled_updates(t, cs, sigs[n - 1], cs.len());
        }
    }
}

/// With every stack counter disabled, a batch changes nothing: the values
/// and the stack entries stay, and nothing is signalled.
pub proof fn law_disabled_stack_counters_change_nothing<T: Fn(&StackCounter, i64) -> bool>(
    values: Map<Seq<char>, u32>,
    t: Seq<StackEntry>,
    cs: Seq<StackCounter>,
    sigs: Seq<Signal>,
    target_ok: T,
    ts: i64,
)
    requires
        forall|j: int| 0 <= j < cs.len() ==> !(#[trigger] cs[j]).enabled,
    ensures
        spec_stack_counters(values, t, cs, sigs, target_ok, ts) == (values, t, Seq::<CounterChanged>::empty()),
{
    lemma_disabled_pass(t, cs, sigs, sigs.len());
}

} // verus!
