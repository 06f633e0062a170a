//! Effect definition types

use vstd::prelude::*;

verus! {

/// Which overlay should display this effect.
///
/// Effects are routed to different overlays based on this setting,
/// allowing specialized displays for each use case.
#[derive(Debug, Clone, Copy, PartialEq, Eq, Structural)]
pub enum DisplayTarget {
    /// No overlay specified - effect won't display
    NoDisplay,
    /// Show on raid frames overlay (HOTs on group members)
    RaidFrames,
    /// Show on Effects A overlay (personal effects)
    EffectsA,
    /// Show on Effects B overlay (personal effects)
    EffectsB,
    /// Show on Effects C overlay (personal effects)
    EffectsC,
    /// Show on cooldown tracker (ability cooldowns)
    Cooldowns,
    /// Show on cooldown tracker B (ability cooldowns)
    CooldownsB,
    /// Show on multi-target DOT tracker (DOTs on enemies)
    DotTracker,
    /// Show on boss HP overlay (icons below the relevant boss bar)
    BossHealth,
    /// Show on generic effects countdown overlay (legacy)
    EffectsOverlay,
}

impl Default for DisplayTarget {
    fn default() -> (r: Self)
        ensures
            r == DisplayTarget::NoDisplay,
    {
        DisplayTarget::NoDisplay
    }
}

/// The overlays a definition displays on, from the listed values: `NoDisplay`
/// entries are dropped and each overlay is kept once, where it first occurs.
pub open spec fn kept_display_targets(s: Seq<DisplayTarget>) -> Seq<DisplayTarget>
    decreases s.len(),
{
    if s.len() == 0 {
        Seq::empty()
    } else {
        let prev = kept_display_targets(s.drop_last());
        let t = s.last();
        if t == DisplayTarget::NoDisplay || prev.contains(t) {
            prev
        } else {
            prev.push(t)
        }
    }
}

/// The overlays of a definition that names a single target: none for
/// `NoDisplay`.
pub fn display_targets_from_one(target: DisplayTarget) -> (r: Vec<DisplayTarget>)
    ensures
        r@ == kept_display_targets(seq![target]),
{
    proof {
        assert(seq![target].drop_last() =~= Seq::<DisplayTarget>::empty());
        assert(kept_display_targets(Seq::<DisplayTarget>::empty()) =~= Seq::<DisplayTarget>::empty());
    }
    if target == DisplayTarget::NoDisplay {
        Vec::new()
    } else {
        let mut v = Vec::new();
        v.push(target);
        v
    }
}

fn contains_target(v: &Vec<DisplayTarget>, t: DisplayTarget) -> (r: bool)
    ensures
        r == v@.contains(t),
{
    let mut i: usize = 0;
    while i < v.len()
        invariant
            i <= v.len(),
            forall|j: int| 0 <= j < i ==> v@[j] != t,
        decreases v.len() - i,
    {
        if v[i] == t {
            return true;
        }
        i = i + 1;
    }
    false
}

/// The overlays of a definition that lists its targets: `NoDisplay` entries
/// are dropped and repeated overlays are kept once, in first-seen order.
pub fn display_targets_from_list(items: &Vec<DisplayTarget>) -> (r: Vec<DisplayTarget>)
    ensures
        r@ == kept_display_targets(items@),
        !r@.contains(DisplayTarget::NoDisplay),
        forall|t: DisplayTarget| t != DisplayTarget::NoDisplay ==> (r@.contains(t) <==> items@.contains(t)),
        forall|i: int, j: int| 0 <= i < j < r.len() ==> r@[i] != r@[j],
{
    let mut out: Vec<DisplayTarget> = Vec::new();
    let mut i: usize = 0;
    while i < items.len()
        invariant
            i <= items.len(),
            out@ == kept_display_targets(items@.take(i as int)),
        decreases items.len() - i,
    {
        let t = items[i];
        proof {
            assert(items@.take(i + 1).drop_last() =~= items@.take(i as int));
        }
        if t != DisplayTarget::NoDisplay && !contains_target(&out, t) {
            out.push(t);
        }
        i = i + 1;
    }
    assert(items@.take(items.len() as int) =~= items@);
    proof {
        lemma_kept_display_targets(items@);
    }
    out
}

/// What `kept_display_targets` keeps: no `NoDisplay`, every other listed
/// overlay, and each of them once.
pub proof fn lemma_kept_display_targets(s: Seq<DisplayTarget>)
    ensures
        !kept_display_targets(s).contains(DisplayTarget::NoDisplay),
        forall|t: DisplayTarget|
            t != DisplayTarget::NoDisplay ==> (#[trigger] kept_display_targets(s).contains(t) <==> s.contains(t)),
        forall|i: int, j: int|
            0 <= i < j < kept_display_targets(s).len() ==> kept_display_targets(s)[i] != kept_display_targets(s)[j],
    decreases s.len(),
{
    if s.len() > 0 {
        let d = s.drop_last();
        lemma_kept_display_targets(d);
        let prev = kept_display_targets(d);
        let t = s.last();
        let kept = kept_display_targets(s);
        assert forall|u: DisplayTarget| u != DisplayTarget::NoDisplay implies (kept.contains(u) <==> s.contains(u)) by {
            if s.contains(u) {
                let k = choose|k: int| 0 <= k < s.len() && s[k] == u;
                if k < s.len() - 1 {
                    assert(d[k] == u);
                    assert(d.contains(u));
                    assert(prev.contains(u));
                    let m = choose|m: int| 0 <= m < prev.len() && prev[m] == u;
                    if !(t == DisplayTarget::NoDisplay || prev.contains(t)) {
                        assert(kept[m] == u);
                    }
                } else {
                    assert(u == t);
                    if prev.contains(t) {
                    } else {
                        assert(kept[prev.len() as int] == t);
                    }
                }
            }
            if kept.contains(u) {
                let m = choose|m: int| 0 <= m < kept.len() && kept[m] == u;
                if m < prev.len() {
                    assert(prev[m] == u);
                    assert(prev.contains(u));
                    assert(d.contains(u));
                    let k = choose|k: int| 0 <= k < d.len() && d[k] == u;
                    assert(s[k] == u);
                } else {
                    assert(u == t);
                    assert(s[s.len() - 1] == u);
                }
            }
        }
        if !(t == DisplayTarget::NoDisplay || prev.contains(t)) {
            assert(!prev.push(t).contains(DisplayTarget::NoDisplay)) by {
                if prev.push(t).contains(DisplayTarget::NoDisplay) {
                    let k = choose|k: int| 0 <= k < prev.push(t).len() && prev.push(t)[k] == DisplayTarget::NoDisplay;
                    if k < prev.len() {
                        assert(prev[k] == DisplayTarget::NoDisplay);
                    }
                }
            }
            assert forall|i: int, j: int| 0 <= i < j < prev.push(t).len() implies prev.push(t)[i] != prev.push(t)[j] by {
                if j == prev.len() {
                    assert(prev[i] == prev.push(t)[i]);
                }
            }
        }
    }
}

} // verus!
