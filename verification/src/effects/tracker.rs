//! Effect tracking: the set of effect definitions with its lookups, alert
//! text formatting and new-target records.

use std::collections::HashSet;

use vstd::prelude::*;

use crate::query::effects::opt_str_view;
use crate::text::{
    chars_eq, chars_of, find_char, find_from, replace_all, replace_chars, string_of, to_lowercase,
    unicode_lowercase,
};

verus! {

/// The alert text with `{source}` and `{target}` filled in: a text without
/// any `{` is kept as it is.
pub open spec fn spec_format_effect_alert(text: Seq<char>, source_name: Seq<char>, target_name: Seq<char>) -> Seq<char> {
    if find_from(text, '{', 0) is None {
        text
    } else {
        replace_all(replace_all(text, "{source}"@, source_name), "{target}"@, target_name)
    }
}

/// Fills the `{source}` and `{target}` placeholders of an alert text with
/// the (resolved) names of the effect's source and target.
pub fn format_effect_alert(text: &str, source_name: &str, target_name: &str) -> (r: String)
    ensures
        r@ == spec_format_effect_alert(text@, source_name@, target_name@),
{
    let chars = chars_of(text);
    if find_char(&chars, '{', 0).is_none() {
        return text.to_owned();
    }
    let source_pat = chars_of("{source}");
    let target_pat = chars_of("{target}");
    proof {
        reveal_strlit("{source}");
        reveal_strlit("{target}");
    }
    let src = chars_of(source_name);
    let tgt = chars_of(target_name);
    let step = replace_chars(&chars, &source_pat, &src);
    let out = replace_chars(&step, &target_pat, &tgt);
    string_of(out.as_slice())
}

/// Info about a newly registered target (for raid frame registration)
#[derive(Debug, Clone)]
pub struct NewTargetInfo {
    pub entity_id: i64,
    pub name: String,
}

/// A selector of a trigger or of a refresh ability: a game ID or a name.
#[derive(Debug, Clone)]
pub enum Selector {
    Id(u64),
    Name(String),
}

/// The selectors of a definition's trigger, by what they select.
#[derive(Debug, Clone)]
pub enum TriggerSelectors {
    /// `EffectApplied` and `EffectRemoved` triggers: effect selectors.
    Effects(Vec<Selector>),
    /// `AbilityCast`, `DamageTaken` and `HealingTaken` triggers: ability
    /// selectors.
    Abilities(Vec<Selector>),
    /// Any other trigger: nothing to look the definition up by.
    Other,
}

/// The first ID among the selectors, if any.
pub open spec fn first_id(s: Seq<Selector>) -> Option<u64>
    decreases s.len(),
{
    if s.len() == 0 {
        None
    } else {
        match s[0] {
            Selector::Id(id) => Some(id),
            Selector::Name(_) => first_id(s.drop_first()),
        }
    }
}

/// The icon of an uptime placeholder: the explicit icon ability, else the
/// first ID selector of the trigger, else 0.
pub open spec fn spec_uptime_icon_id(icon_ability_id: Option<u64>, trigger: TriggerSelectors) -> u64 {
    match icon_ability_id {
        Some(id) => id,
        None => match trigger {
            TriggerSelectors::Effects(v) => match first_id(v@) {
                Some(id) => id,
                None => 0,
            },
            TriggerSelectors::Abilities(v) => match first_id(v@) {
                Some(id) => id,
                None => 0,
            },
            TriggerSelectors::Other => 0,
        },
    }
}

fn first_id_in(v: &Vec<Selector>) -> (r: Option<u64>)
    ensures
        r == first_id(v@),
{
    let mut i: usize = 0;
    assert(v@.skip(0) =~= v@);
    while i < v.len()
        invariant
            i <= v.len(),
            first_id(v@) == first_id(v@.skip(i as int)),
        decreases v.len() - i,
    {
        proof {
            assert(v@.skip(i as int).drop_first() =~= v@.skip(i + 1));
            assert(v@.skip(i as int)[0] == v@[i as int]);
        }
        match &v[i] {
            Selector::Id(id) => {
                return Some(*id);
            },
            Selector::Name(_) => {},
        }
        i = i + 1;
    }
    None
}

impl TriggerSelectors {
    /// Icon ability ID for uptime placeholders: the explicit icon ability,
    /// falling back to the first ID selector of the trigger.
    pub fn uptime_icon_id(&self, icon_ability_id: Option<u64>) -> (r: u64)
        ensures
            r == spec_uptime_icon_id(icon_ability_id, *self),
    {
        if let Some(id) = icon_ability_id {
            return id;
        }
        let found = match self {
            TriggerSelectors::Effects(v) => first_id_in(v),
            TriggerSelectors::Abilities(v) => first_id_in(v),
            TriggerSelectors::Other => None,
        };
        match found {
            Some(id) => id,
            None => 0,
        }
    }
}

/// What the definition set reads of an effect definition.
#[derive(Debug, Clone)]
pub struct DefinitionKeys {
    /// Unique identifier of the definition.
    pub id: String,
    pub enabled: bool,
    pub trigger: TriggerSelectors,
    /// The abilities that can refresh the effect.
    pub refresh_abilities: Vec<Selector>,
    /// Whether the refresh abilities use AoE damage correlation.
    pub is_aoe_refresh: bool,
}

/// The three lookups of the definition set.
#[derive(Debug, Clone, Copy, PartialEq, Eq, Structural)]
pub enum SelectorKind {
    /// Effect selectors of the trigger.
    Effect,
    /// Ability selectors of the trigger.
    Ability,
    /// Refresh abilities.
    Refresh,
}

/// The selectors of a definition that a lookup goes by.
pub open spec fn selectors_of(k: DefinitionKeys, kind: SelectorKind) -> Seq<Selector> {
    match kind {
        SelectorKind::Effect => match k.trigger {
            TriggerSelectors::Effects(v) => v@,
            _ => Seq::empty(),
        },
        SelectorKind::Ability => match k.trigger {
            TriggerSelectors::Abilities(v) => v@,
            _ => Seq::empty(),
        },
        SelectorKind::Refresh => k.refresh_abilities@,
    }
}

/// How many of the selectors select the game ID `id`.
pub open spec fn count_id(s: Seq<Selector>, id: u64) -> nat
    decreases s.len(),
{
    if s.len() == 0 {
        0
    } else {
        count_id(s.drop_last(), id) + if s.last() matches Selector::Id(x) && x == id {
            1nat
        } else {
            0nat
        }
    }
}

/// How many of the selectors select a name whose lowercase form is `lname`.
pub open spec fn count_name(s: Seq<Selector>, lname: Seq<char>) -> nat
    decreases s.len(),
{
    if s.len() == 0 {
        0
    } else {
        count_name(s.drop_last(), lname) + if s.last() matches Selector::Name(n) && unicode_lowercase(
            n@,
        ) == lname {
            1nat
        } else {
            0nat
        }
    }
}

/// `n` copies of `x`.
pub open spec fn repeat<D>(x: D, n: nat) -> Seq<D> {
    Seq::new(n, |_j: int| x)
}

/// The lookup by ID: each enabled definition, in definition order, once for
/// each of its selectors that selects `id`.
pub open spec fn by_id<D>(defs: Seq<(DefinitionKeys, D)>, kind: SelectorKind, id: u64) -> Seq<D>
    decreases defs.len(),
{
    if defs.len() == 0 {
        Seq::empty()
    } else {
        let e = defs.last();
        by_id(defs.drop_last(), kind, id) + if e.0.enabled {
            repeat(e.1, count_id(selectors_of(e.0, kind), id))
        } else {
            Seq::empty()
        }
    }
}

/// The lookup by name after the lookup by ID, where each definition comes at
/// most once in all: the enabled definitions with a selector of the name and
/// none of the ID.
pub open spec fn by_name_once<D>(defs: Seq<(DefinitionKeys, D)>, kind: SelectorKind, id: u64, lname: Seq<char>) -> Seq<D>
    decreases defs.len(),
{
    if defs.len() == 0 {
        Seq::empty()
    } else {
        let e = defs.last();
        let sels = selectors_of(e.0, kind);
        by_name_once(defs.drop_last(), kind, id, lname) + if e.0.enabled && count_name(sels, lname) > 0
            && count_id(sels, id) == 0 {
            seq![e.1]
        } else {
            Seq::empty()
        }
    }
}

/// The lookup by name after the lookup by ID for refreshes: the enabled
/// definitions with no selector of the ID, once for each selector of the
/// name.
pub open spec fn by_name_each<D>(defs: Seq<(DefinitionKeys, D)>, kind: SelectorKind, id: u64, lname: Seq<char>) -> Seq<D>
    decreases defs.len(),
{
    if defs.len() == 0 {
        Seq::empty()
    } else {
        let e = defs.last();
        let sels = selectors_of(e.0, kind);
        by_name_each(defs.drop_last(), kind, id, lname) + if e.0.enabled && count_id(sels, id) == 0 {
            repeat(e.1, count_name(sels, lname))
        } else {
            Seq::empty()
        }
    }
}

/// The definitions found for a game ID and optional name: the lookup by ID,
/// then the definitions found by the (case-insensitive) name only.
pub open spec fn spec_find<D>(defs: Seq<(DefinitionKeys, D)>, kind: SelectorKind, id: u64, name: Option<Seq<char>>) -> Seq<D> {
    by_id(defs, kind, id) + match name {
        Some(n) => by_name_once(defs, kind, id, unicode_lowercase(n)),
        None => Seq::empty(),
    }
}

/// The definitions refreshable by an ability: the lookup by ID, then the
/// lookup by name.
pub open spec fn spec_find_refreshable<D>(defs: Seq<(DefinitionKeys, D)>, id: u64, name: Option<Seq<char>>) -> Seq<D> {
    by_id(defs, SelectorKind::Refresh, id) + match name {
        Some(n) => by_name_each(defs, SelectorKind::Refresh, id, unicode_lowercase(n)),
        None => Seq::empty(),
    }
}

/// The enabled definitions, in definition order.
pub open spec fn enabled_defs<D>(defs: Seq<(DefinitionKeys, D)>) -> Seq<D>
    decreases defs.len(),
{
    if defs.len() == 0 {
        Seq::empty()
    } else {
        enabled_defs(defs.drop_last()) + if defs.last().0.enabled {
            seq![defs.last().1]
        } else {
            Seq::empty()
        }
    }
}

/// The definition IDs are distinct.
pub open spec fn ids_distinct<D>(defs: Seq<(DefinitionKeys, D)>) -> bool {
    forall|i: int, j: int| 0 <= i < j < defs.len() ==> defs[i].0.id@ != defs[j].0.id@
}

/// Whether a definition with ID `id` is held.
pub open spec fn has_def<D>(defs: Seq<(DefinitionKeys, D)>, id: Seq<char>) -> bool {
    exists|i: int| 0 <= i < defs.len() && #[trigger] defs[i].0.id@ == id
}

fn count_id_in(sels: &Vec<Selector>, id: u64) -> (r: usize)
    ensures
        r == count_id(sels@, id),
{
    let mut n: usize = 0;
    let mut i: usize = 0;
    while i < sels.len()
        invariant
            i <= sels.len(),
            n == count_id(sels@.take(i as int), id),
            n <= i,
        decreases sels.len() - i,
    {
        proof {
            assert(sels@.take(i + 1).drop_last() =~= sels@.take(i as int));
        }
        match &sels[i] {
            Selector::Id(x) => {
                if *x == id {
                    n = n + 1;
                }
            },
            Selector::Name(_) => {},
        }
        i = i + 1;
    }
    assert(sels@.take(sels.len() as int) =~= sels@);
    n
}

fn count_name_in(sels: &Vec<Selector>, lname: &Vec<char>) -> (r: usize)
    ensures
        r == count_name(sels@, lname@),
{
    let mut n: usize = 0;
    let mut i: usize = 0;
    while i < sels.len()
        invariant
            i <= sels.len(),
            n == count_name(sels@.take(i as int), lname@),
            n <= i,
        decreases sels.len() - i,
    {
        proof {
            assert(sels@.take(i + 1).drop_last() =~= sels@.take(i as int));
        }
        match &sels[i] {
            Selector::Id(_) => {},
            Selector::Name(name) => {
                let chars = chars_of(name.as_str());
                let lower = to_lowercase(chars.as_slice());
                if chars_eq(&lower, lname) {
                    n = n + 1;
                }
            },
        }
        i = i + 1;
    }
    assert(sels@.take(sels.len() as int) =~= sels@);
    n
}

fn count_kind_id(k: &DefinitionKeys, kind: SelectorKind, id: u64) -> (r: usize)
    ensures
        r == count_id(selectors_of(*k, kind), id),
{
    match kind {
        SelectorKind::Refresh => count_id_in(&k.refresh_abilities, id),
        SelectorKind::Effect => match &k.trigger {
            TriggerSelectors::Effects(v) => count_id_in(v, id),
            _ => 0,
        },
        SelectorKind::Ability => match &k.trigger {
            TriggerSelectors::Abilities(v) => count_id_in(v, id),
            _ => 0,
        },
    }
}

fn count_kind_name(k: &DefinitionKeys, kind: SelectorKind, lname: &Vec<char>) -> (r: usize)
    ensures
        r == count_name(selectors_of(*k, kind), lname@),
{
    match kind {
        SelectorKind::Refresh => count_name_in(&k.refresh_abilities, lname),
        SelectorKind::Effect => match &k.trigger {
            TriggerSelectors::Effects(v) => count_name_in(v, lname),
            _ => 0,
        },
        SelectorKind::Ability => match &k.trigger {
            TriggerSelectors::Abilities(v) => count_name_in(v, lname),
            _ => 0,
        },
    }
}

/// The targets of a list of references.
pub open spec fn derefs<D>(s: Seq<&D>) -> Seq<D> {
    s.map_values(|x: &D| *x)
}

/// The ability IDs that a definition marks for AoE refresh detection.
pub open spec fn aoe_ids_of(k: DefinitionKeys) -> Set<u64> {
    Set::new(|x: u64| k.is_aoe_refresh && k.refresh_abilities@.contains(Selector::Id(x)))
}

/// The AoE refresh ability IDs of all the definitions.
pub open spec fn aoe_ids_of_all<D>(defs: Seq<(DefinitionKeys, D)>) -> Set<u64>
    decreases defs.len(),
{
    if defs.len() == 0 {
        Set::empty()
    } else {
        aoe_ids_of_all(defs.drop_last()) + aoe_ids_of(defs.last().0)
    }
}

/// The position of the definition with ID `id` (when there is one).
pub open spec fn def_index<D>(defs: Seq<(DefinitionKeys, D)>, id: Seq<char>) -> int {
    choose|k: int| 0 <= k < defs.len() && defs[k].0.id@ == id
}

/// The entry of the definition with ID `id`, if any.
pub open spec fn def_entry<D>(defs: Seq<(DefinitionKeys, D)>, id: Seq<char>) -> Option<(DefinitionKeys, D)> {
    if has_def(defs, id) {
        Some(defs[def_index(defs, id)])
    } else {
        None
    }
}

/// Adding one definition: a new ID is appended; a known ID is a duplicate,
/// which is skipped, or with `overwrite` replaces the known definition,
/// moving it to the end. The flag says whether the ID was known.
pub open spec fn add_one<D>(defs: Seq<(DefinitionKeys, D)>, d: (DefinitionKeys, D), overwrite: bool) -> (Seq<(DefinitionKeys, D)>, bool) {
    if has_def(defs, d.0.id@) {
        if overwrite {
            (defs.remove(def_index(defs, d.0.id@)).push(d), true)
        } else {
            (defs, true)
        }
    } else {
        (defs.push(d), false)
    }
}

/// Adding definitions in order: the definitions after, and the IDs that
/// were duplicates, in order.
pub open spec fn add_all<D>(defs: Seq<(DefinitionKeys, D)>, incoming: Seq<(DefinitionKeys, D)>, overwrite: bool) -> (Seq<(DefinitionKeys, D)>, Seq<Seq<char>>)
    decreases incoming.len(),
{
    if incoming.len() == 0 {
        (defs, Seq::empty())
    } else {
        let prev = add_all(defs, incoming.drop_last(), overwrite);
        let d = incoming.last();
        let next = add_one(prev.0, d, overwrite);
        (next.0, if next.1 {
            prev.1.push(d.0.id@)
        } else {
            prev.1
        })
    }
}

/// An ability ID is in the AoE refresh set of some definitions exactly when
/// one of them is marked for AoE refresh and lists that ID among its refresh
/// abilities.
pub proof fn law_aoe_ids_are_marked_ids<D>(defs: Seq<(DefinitionKeys, D)>, a: u64)
    ensures
        aoe_ids_of_all(defs).contains(a) <==> exists|i: int|
            0 <= i < defs.len() && #[trigger] defs[i].0.is_aoe_refresh && defs[i].0.refresh_abilities@.contains(Selector::Id(a)),
    decreases defs.len(),
{
    if defs.len() > 0 {
        let init = defs.drop_last();
        law_aoe_ids_are_marked_ids(init, a);
        if aoe_ids_of_all(init).contains(a) {
            let i = choose|i: int|
                0 <= i < init.len() && #[trigger] init[i].0.is_aoe_refresh && init[i].0.refresh_abilities@.contains(Selector::Id(a));
            assert(defs[i] == init[i]);
        }
        if exists|i: int|
            0 <= i < defs.len() && #[trigger] defs[i].0.is_aoe_refresh && defs[i].0.refresh_abilities@.contains(Selector::Id(a)) {
            let i = choose|i: int|
                0 <= i < defs.len() && #[trigger] defs[i].0.is_aoe_refresh && defs[i].0.refresh_abilities@.contains(Selector::Id(a));
            if i < defs.len() - 1 {
                assert(init[i] == defs[i]);
            }
        }
    }
}

/// The views of a list of strings.
pub open spec fn id_views(v: Seq<String>) -> Seq<Seq<char>> {
    v.map_values(|s: String| s@)
}

fn insert_aoe_ids(set: &mut HashSet<u64>, k: &DefinitionKeys)
    ensures
        final(set)@ == old(set)@ + aoe_ids_of(*k),
{
    let ghost start = set@;
    if !k.is_aoe_refresh {
        assert(aoe_ids_of(*k) =~= Set::<u64>::empty());
        assert(set@ =~= start + aoe_ids_of(*k));
        return;
    }
    let sels = &k.refresh_abilities;
    let mut i: usize = 0;
    while i < sels.len()
        invariant
            i <= sels.len(),
            k.is_aoe_refresh,
            set@ == start + Set::new(|x: u64| sels@.take(i as int).contains(Selector::Id(x))),
        decreases sels.len() - i,
    {
        let ghost before = set@;
        match &sels[i] {
            Selector::Id(x) => {
                set.insert(*x);
            },
            Selector::Name(_) => {},
        }
        assert forall|y: u64| #[trigger] set@.contains(y) == (start + Set::new(|x: u64| sels@.take(i + 1).contains(Selector::Id(x)))).contains(y) by {
            let t = sels@.take(i + 1);
            assert(t.drop_last() =~= sels@.take(i as int));
            if t.contains(Selector::Id(y)) {
                let j = choose|j: int| 0 <= j < t.len() && t[j] == Selector::Id(y);
                if j < i {
                    assert(sels@.take(i as int)[j] == Selector::Id(y));
                }
            }
            if sels@.take(i as int).contains(Selector::Id(y)) {
                let j = choose|j: int| 0 <= j < i && sels@.take(i as int)[j] == Selector::Id(y);
                assert(t[j] == Selector::Id(y));
            }
            if sels@[i as int] == Selector::Id(y) {
                assert(t[i as int] == Selector::Id(y));
            }
        }
        assert(set@ =~= start + Set::new(|x: u64| sels@.take(i + 1).contains(Selector::Id(x))));
        i = i + 1;
    }
    assert(sels@.take(sels.len() as int) =~= sels@);
    assert(set@ =~= start + aoe_ids_of(*k));
}

/// The AoE refresh IDs of the given definitions.
fn aoe_ids_from<D>(effects: &Vec<(DefinitionKeys, D)>) -> (r: HashSet<u64>)
    ensures
        r@ == aoe_ids_of_all(effects@),
{
    let mut fresh: HashSet<u64> = HashSet::new();
    let mut i: usize = 0;
    assert(fresh@ =~= aoe_ids_of_all(effects@.take(0)));
    while i < effects.len()
        invariant
            i <= effects.len(),
            fresh@ == aoe_ids_of_all(effects@.take(i as int)),
        decreases effects.len() - i,
    {
        proof {
            assert(effects@.take(i + 1).drop_last() =~= effects@.take(i as int));
        }
        insert_aoe_ids(&mut fresh, &effects[i].0);
        i = i + 1;
    }
    assert(effects@.take(effects.len() as int) =~= effects@);
    fresh
}

/// Combined set of effect definitions, kept in the order they were added
/// (a replaced definition moves to the end), with the set of ability IDs
/// that use AoE damage correlation for refreshes, derived from the
/// definitions marked for AoE refresh.
#[derive(Debug)]
pub struct DefinitionSet<D> {
    effects: Vec<(DefinitionKeys, D)>,
    aoe_refresh_ability_ids: HashSet<u64>,
}

impl<D> DefinitionSet<D> {
    /// The definitions, in order.
    pub closed spec fn defs(&self) -> Seq<(DefinitionKeys, D)> {
        self.effects@
    }

    /// The ability IDs that refresh by AoE damage correlation.
    pub closed spec fn aoe_ids(&self) -> Set<u64> {
        self.aoe_refresh_ability_ids@
    }

    #[verifier::type_invariant]
    closed spec fn wf(&self) -> bool {
        &&& ids_distinct(self.effects@)
        &&& self.aoe_refresh_ability_ids@ == aoe_ids_of_all(self.effects@)
    }

    /// An empty set.
    pub fn new() -> (r: Self)
        ensures
            r.defs() == Seq::<(DefinitionKeys, D)>::empty(),
            r.aoe_ids() == Set::<u64>::empty(),
            r.aoe_ids() == aoe_ids_of_all(r.defs()),
    {
        DefinitionSet { effects: Vec::new(), aoe_refresh_ability_ids: HashSet::new() }
    }

    /// Position of the definition with the given ID.
    fn position(&self, id: &str) -> (r: Option<usize>)
        ensures
            r matches Some(i) ==> i < self.defs().len() && self.defs()[i as int].0.id@ == id@,
            r is None ==> !has_def(self.defs(), id@),
    {
        let want = chars_of(id);
        let mut i: usize = 0;
        while i < self.effects.len()
            invariant
                i <= self.effects.len(),
                want@ == id@,
                forall|j: int| 0 <= j < i ==> self.effects@[j].0.id@ != id@,
            decreases self.effects.len() - i,
        {
            let have = chars_of(self.effects[i].0.id.as_str());
            if chars_eq(&have, &want) {
                return Some(i);
            }
            i = i + 1;
        }
        None
    }

    /// Get an effect definition by ID.
    pub fn get(&self, id: &str) -> (r: Option<&D>)
        ensures
            match r {
                Some(d) => exists|i: int|
                    0 <= i < self.defs().len() && self.defs()[i].0.id@ == id@ && self.defs()[i].1 == *d,
                None => !has_def(self.defs(), id@),
            },
    {
        match self.position(id) {
            Some(i) => Some(&self.effects[i].1),
            None => None,
        }
    }

    /// The entry of the definition with the given ID.
    pub fn get_entry(&self, id: &str) -> (r: Option<&(DefinitionKeys, D)>)
        ensures
            match r {
                Some(e) => def_entry(self.defs(), id@) == Some(*e),
                None => def_entry(self.defs(), id@) is None,
            },
    {
        proof {
            use_type_invariant(self);
        }
        match self.position(id) {
            Some(i) => {
                proof {
                    let defs = self.effects@;
                    assert(has_def(defs, id@));
                    let c = def_index(defs, id@);
                    assert(defs[c].0.id@ == id@);
                    assert(c == i as int);
                }
                Some(&self.effects[i])
            },
            None => None,
        }
    }

    /// Whether an ability ID uses AoE damage correlation for refresh
    /// detection.
    pub fn is_aoe_refresh(&self, ability_id: u64) -> (r: bool)
        ensures
            r == self.aoe_ids().contains(ability_id),
            r == aoe_ids_of_all(self.defs()).contains(ability_id),
    {
        proof {
            use_type_invariant(self);
        }
        self.aoe_refresh_ability_ids.contains(&ability_id)
    }

    /// Adds one definition (see `add_one`); whether its ID was known. The
    /// AoE refresh IDs are those of the definitions held afterwards.
    fn add_definition(&mut self, d: (DefinitionKeys, D), overwrite: bool) -> (dup: bool)
        ensures
            (final(self).defs(), dup) == add_one(old(self).defs(), d, overwrite),
            final(self).aoe_ids() == aoe_ids_of_all(final(self).defs()),
    {
        proof {
            use_type_invariant(&*self);
        }
        match self.position(d.0.id.as_str()) {
            Some(k) => {
                proof {
                    let defs = self.effects@;
                    assert(has_def(defs, d.0.id@));
                    let c = def_index(defs, d.0.id@);
                    assert(defs[c].0.id@ == d.0.id@);
                    assert(c == k as int);
                }
                if overwrite {
                    let mut cur: DefinitionSet<D> = DefinitionSet::new();
                    std::mem::swap(self, &mut cur);
                    proof {
                        use_type_invariant(&cur);
                    }
                    let DefinitionSet { effects: mut effects, aoe_refresh_ability_ids: _ } = cur;
                    let ghost before = effects@;
                    effects.remove(k);
                    proof {
                        assert(effects@ == before.remove(k as int));
                        assert forall|i: int, j: int| 0 <= i < j < effects@.len() implies effects@[i].0.id@
                            != effects@[j].0.id@ by {
                            let ii = if i < k { i } else { i + 1 };
                            let jj = if j < k { j } else { j + 1 };
                            assert(effects@[i] == before[ii]);
                            assert(effects@[j] == before[jj]);
                        }
                        assert forall|i: int| 0 <= i < effects@.len() implies effects@[i].0.id@ != d.0.id@ by {
                            let ii = if i < k { i } else { i + 1 };
                            assert(effects@[i] == before[ii]);
                        }
                    }
                    effects.push(d);
                    let aoe = aoe_ids_from(&effects);
                    *self = DefinitionSet { effects, aoe_refresh_ability_ids: aoe };
                }
                true
            },
            None => {
                let mut cur: DefinitionSet<D> = DefinitionSet::new();
                std::mem::swap(self, &mut cur);
                proof {
                    use_type_invariant(&cur);
                }
                let DefinitionSet { effects: mut effects, aoe_refresh_ability_ids: mut aoe } = cur;
                insert_aoe_ids(&mut aoe, &d.0);
                proof {
                    assert forall|i: int| 0 <= i < effects@.len() implies effects@[i].0.id@ != d.0.id@ by {
                        if effects@[i].0.id@ == d.0.id@ {
                            assert(has_def(effects@, d.0.id@));
                        }
                    }
                    assert(effects@.push(d).drop_last() =~= effects@);
                }
                effects.push(d);
                *self = DefinitionSet { effects, aoe_refresh_ability_ids: aoe };
                false
            },
        }
    }

    /// Add definitions in order. A definition whose ID is already held is a
    /// duplicate: with `overwrite` it replaces the held one, else it is
    /// skipped and the first definition kept. Returns the IDs of the
    /// duplicates met. The AoE refresh IDs are afterwards those of the
    /// definitions held.
    pub fn add_definitions(&mut self, definitions: Vec<(DefinitionKeys, D)>, overwrite: bool) -> (r: Vec<String>)
        ensures
            ({
                let after = add_all(old(self).defs(), definitions@, overwrite);
                &&& final(self).defs() == after.0
                &&& id_views(r@) == after.1
            }),
            final(self).aoe_ids() == aoe_ids_of_all(final(self).defs()),
    {
        proof {
            use_type_invariant(&*self);
        }
        let ghost all = definitions@;
        assert(all.len() == definitions.len());
        let ghost d0 = self.defs();
        let mut duplicates: Vec<String> = Vec::new();
        let mut rest = definitions;
        let mut i: usize = 0;
        assert(all.take(0) =~= Seq::<(DefinitionKeys, D)>::empty());
        assert(id_views(duplicates@) =~= Seq::<Seq<char>>::empty());
        while rest.len() > 0
            invariant
                i <= all.len(),
                all.len() <= usize::MAX,
                rest@ == all.skip(i as int),
                ({
                    let st = add_all(d0, all.take(i as int), overwrite);
                    &&& self.defs() == st.0
                    &&& id_views(duplicates@) == st.1
                }),
                self.aoe_ids() == aoe_ids_of_all(self.defs()),
            decreases rest.len(),
        {
            let d = rest.remove(0);
            proof {
                assert(d == all[i as int]);
                assert(rest@ =~= all.skip(i + 1));
                assert(all.take(i + 1).drop_last() =~= all.take(i as int));
                assert(all.take(i + 1).last() == all[i as int]);
            }
            let id = d.0.id.clone();
            let ghost dups_before = duplicates@;
            let dup = self.add_definition(d, overwrite);
            if dup {
                duplicates.push(id);
                assert(id_views(duplicates@) =~= id_views(dups_before).push(id@));
            }
            i = i + 1;
        }
        proof {
            assert(all.skip(i as int).len() == 0);
            assert(all.take(i as int) =~= all);
        }
        duplicates
    }

    /// Appends the lookup by ID.
    fn push_by_id<'a>(&'a self, out: &mut Vec<&'a D>, kind: SelectorKind, id: u64)
        ensures
            derefs(final(out)@) == derefs(old(out)@) + by_id(self.defs(), kind, id),
    {
        let ghost start = derefs(out@);
        let mut i: usize = 0;
        while i < self.effects.len()
            invariant
                i <= self.effects.len(),
                derefs(out@) == start + by_id(self.effects@.take(i as int), kind, id),
            decreases self.effects.len() - i,
        {
            proof {
                assert(self.effects@.take(i + 1).drop_last() =~= self.effects@.take(i as int));
            }
            let e = &self.effects[i];
            let ghost before = derefs(out@);
            if e.0.enabled {
                let n = count_kind_id(&e.0, kind, id);
                let mut k: usize = 0;
                while k < n
                    invariant
                        k <= n,
                        derefs(out@) == before + repeat(e.1, k as nat),
                    decreases n - k,
                {
                    let ghost o = out@;
                    out.push(&e.1);
                    assert(derefs(out@) =~= derefs(o).push(e.1));
                    assert(repeat(e.1, (k + 1) as nat) =~= repeat(e.1, k as nat).push(e.1));
                    assert(derefs(out@) =~= before + repeat(e.1, (k + 1) as nat));
                    k = k + 1;
                }
            }
            assert(derefs(out@) =~= start + by_id(self.effects@.take(i + 1), kind, id));
            i = i + 1;
        }
        assert(self.effects@.take(self.effects.len() as int) =~= self.effects@);
    }

    /// Appends the lookup by name after the lookup by ID: once per
    /// definition (`each` false) or once per matching selector (`each` true).
    fn push_by_name<'a>(&'a self, out: &mut Vec<&'a D>, kind: SelectorKind, id: u64, lname: &Vec<char>, each: bool)
        ensures
            derefs(final(out)@) == derefs(old(out)@) + if each {
                by_name_each(self.defs(), kind, id, lname@)
            } else {
                by_name_once(self.defs(), kind, id, lname@)
            },
    {
        let ghost start = derefs(out@);
        let mut i: usize = 0;
        while i < self.effects.len()
            invariant
                i <= self.effects.len(),
                derefs(out@) == start + if each {
                    by_name_each(self.effects@.take(i as int), kind, id, lname@)
                } else {
                    by_name_once(self.effects@.take(i as int), kind, id, lname@)
                },
            decreases self.effects.len() - i,
        {
            proof {
                assert(self.effects@.take(i + 1).drop_last() =~= self.effects@.take(i as int));
            }
            let e = &self.effects[i];
            let ghost before = derefs(out@);
            if e.0.enabled && count_kind_id(&e.0, kind, id) == 0 {
                let n = count_kind_name(&e.0, kind, lname);
                if each {
                    let mut k: usize = 0;
                    while k < n
                        invariant
                            k <= n,
                            derefs(out@) == before + repeat(e.1, k as nat),
                        decreases n - k,
                    {
                        let ghost o = out@;
                        out.push(&e.1);
                        assert(derefs(out@) =~= derefs(o).push(e.1));
                        assert(repeat(e.1, (k + 1) as nat) =~= repeat(e.1, k as nat).push(e.1));
                        assert(derefs(out@) =~= before + repeat(e.1, (k + 1) as nat));
                        k = k + 1;
                    }
                    assert(derefs(out@) =~= before + repeat(e.1, n as nat));
                } else if n > 0 {
                    out.push(&e.1);
                    assert(derefs(out@) =~= before + seq![e.1]);
                }
            }
            assert(derefs(out@) =~= start + if each {
                by_name_each(self.effects@.take(i + 1), kind, id, lname@)
            } else {
                by_name_once(self.effects@.take(i + 1), kind, id, lname@)
            });
            i = i + 1;
        }
        assert(self.effects@.take(self.effects.len() as int) =~= self.effects@);
    }

    /// The lookup by an already lowercased name: each enabled definition
    /// with a name selector of that lowercase form and no selector of `id`,
    /// once (or, with `each`, once per such selector).
    pub fn find_by_lowercase_name(&self, kind: SelectorKind, id: u64, lname: &Vec<char>, each: bool) -> (r: Vec<&D>)
        ensures
            derefs(r@) == if each {
                by_name_each(self.defs(), kind, id, lname@)
            } else {
                by_name_once(self.defs(), kind, id, lname@)
            },
    {
        let mut out: Vec<&D> = Vec::new();
        assert(derefs(out@) =~= Seq::<D>::empty());
        self.push_by_name(&mut out, kind, id, lname, each);
        assert(derefs(out@) =~= Seq::<D>::empty() + if each {
            by_name_each(self.defs(), kind, id, lname@)
        } else {
            by_name_once(self.defs(), kind, id, lname@)
        });
        out
    }

    fn find<'a>(&'a self, kind: SelectorKind, id: u64, name: Option<&str>, each: bool) -> (r: Vec<&'a D>)
        ensures
            derefs(r@) == by_id(self.defs(), kind, id) + match opt_str_view(name) {
                Some(n) => if each {
                    by_name_each(self.defs(), kind, id, unicode_lowercase(n))
                } else {
                    by_name_once(self.defs(), kind, id, unicode_lowercase(n))
                },
                None => Seq::empty(),
            },
    {
        let mut out: Vec<&D> = Vec::new();
        assert(derefs(out@) =~= Seq::<D>::empty());
        self.push_by_id(&mut out, kind, id);
        assert(derefs(out@) =~= by_id(self.defs(), kind, id));
        if let Some(n) = name {
            let chars = chars_of(n);
            let lname = to_lowercase(chars.as_slice());
            self.push_by_name(&mut out, kind, id, &lname, each);
        }
        out
    }

    /// Find effect definitions matching a game effect ID or name.
    pub fn find_matching(&self, effect_id: u64, effect_name: Option<&str>) -> (r: Vec<&D>)
        ensures
            derefs(r@) == spec_find(self.defs(), SelectorKind::Effect, effect_id, opt_str_view(effect_name)),
    {
        self.find(SelectorKind::Effect, effect_id, effect_name, false)
    }

    /// Find effect definitions matching an ability cast trigger.
    pub fn find_ability_cast_matching(&self, ability_id: u64, ability_name: Option<&str>) -> (r: Vec<&D>)
        ensures
            derefs(r@) == spec_find(self.defs(), SelectorKind::Ability, ability_id, opt_str_view(ability_name)),
    {
        self.find(SelectorKind::Ability, ability_id, ability_name, false)
    }

    /// Find definitions that can be refreshed by an ability.
    pub fn find_refreshable_by(&self, ability_id: u64, ability_name: Option<&str>) -> (r: Vec<&D>)
        ensures
            derefs(r@) == spec_find_refreshable(self.defs(), ability_id, opt_str_view(ability_name)),
    {
        self.find(SelectorKind::Refresh, ability_id, ability_name, true)
    }

    /// Whether any enabled definition can be refreshed by the ability ID.
    pub fn has_refreshable_by(&self, ability_id: u64) -> (r: bool)
        ensures
            r == exists|i: int|
                0 <= i < self.defs().len() && self.defs()[i].0.enabled && count_id(
                    #[trigger] self.defs()[i].0.refresh_abilities@,
                    ability_id,
                ) > 0,
    {
        let mut i: usize = 0;
        while i < self.effects.len()
            invariant
                i <= self.effects.len(),
                forall|j: int|
                    0 <= j < i ==> !(self.effects@[j].0.enabled && count_id(
                        #[trigger] self.effects@[j].0.refresh_abilities@,
                        ability_id,
                    ) > 0),
            decreases self.effects.len() - i,
        {
            let e = &self.effects[i];
            if e.0.enabled && count_id_in(&e.0.refresh_abilities, ability_id) > 0 {
                return true;
            }
            i = i + 1;
        }
        false
    }

    /// The enabled effect definitions.
    pub fn enabled(&self) -> (r: Vec<&D>)
        ensures
            derefs(r@) == enabled_defs(self.defs()),
    {
        let mut out: Vec<&D> = Vec::new();
        let mut i: usize = 0;
        while i < self.effects.len()
            invariant
                i <= self.effects.len(),
                derefs(out@) == enabled_defs(self.effects@.take(i as int)),
            decreases self.effects.len() - i,
        {
            proof {
                assert(self.effects@.take(i + 1).drop_last() =~= self.effects@.take(i as int));
            }
            let e = &self.effects[i];
            if e.0.enabled {
                out.push(&e.1);
            }
            assert(derefs(out@) =~= enabled_defs(self.effects@.take(i + 1)));
            i = i + 1;
        }
        assert(self.effects@.take(self.effects.len() as int) =~= self.effects@);
        out
    }
}

/// Whether the `i`-th definition is one that a lookup for `id` or `name`
/// can return: enabled, with a selector of the ID or of the name.
pub open spec fn selects<D>(defs: Seq<(DefinitionKeys, D)>, i: int, kind: SelectorKind, id: u64, name: Option<Seq<char>>) -> bool {
    &&& defs[i].0.enabled
    &&& (count_id(selectors_of(defs[i].0, kind), id) > 0 || match name {
        Some(n) => count_name(selectors_of(defs[i].0, kind), unicode_lowercase(n)) > 0,
        None => false,
    })
}

/// Whether `x` is the payload of a definition that `selects` the query.
pub open spec fn found_in<D>(defs: Seq<(DefinitionKeys, D)>, kind: SelectorKind, id: u64, name: Option<Seq<char>>, x: D) -> bool {
    exists|i: int| 0 <= i < defs.len() && selects(defs, i, kind, id, name) && defs[i].1 == x
}

proof fn lemma_found_in_prefix<D>(defs: Seq<(DefinitionKeys, D)>, kind: SelectorKind, id: u64, name: Option<Seq<char>>, x: D)
    requires
        defs.len() > 0,
        found_in(defs.drop_last(), kind, id, name, x),
    ensures
        found_in(defs, kind, id, name, x),
{
    let d = defs.drop_last();
    let i = choose|i: int| 0 <= i < d.len() && selects(d, i, kind, id, name) && d[i].1 == x;
    assert(defs[i] == d[i]);
    assert(selects(defs, i, kind, id, name));
}

proof fn lemma_by_id_sound<D>(defs: Seq<(DefinitionKeys, D)>, kind: SelectorKind, id: u64, name: Option<Seq<char>>)
    ensures
        forall|k: int| 0 <= k < by_id(defs, kind, id).len() ==> found_in(defs, kind, id, name, #[trigger] by_id(defs, kind, id)[k]),
    decreases defs.len(),
{
    if defs.len() > 0 {
        let d = defs.drop_last();
        lemma_by_id_sound(d, kind, id, name);
        let head = by_id(d, kind, id);
        let e = defs.last();
        let all = by_id(defs, kind, id);
        assert forall|k: int| 0 <= k < all.len() implies found_in(defs, kind, id, name, #[trigger] all[k]) by {
            if k < head.len() {
                assert(all[k] == head[k]);
                lemma_found_in_prefix(defs, kind, id, name, head[k]);
            } else {
                let last = defs.len() - 1;
                assert(defs[last] == e);
                assert(all[k] == e.1);
                assert(e.0.enabled);
                assert(selects(defs, last, kind, id, name));
            }
        }
    }
}

proof fn lemma_by_name_once_sound<D>(defs: Seq<(DefinitionKeys, D)>, kind: SelectorKind, id: u64, n: Seq<char>)
    ensures
        forall|k: int|
            0 <= k < by_name_once(defs, kind, id, unicode_lowercase(n)).len() ==> found_in(
                defs,
                kind,
                id,
                Some(n),
                #[trigger] by_name_once(defs, kind, id, unicode_lowercase(n))[k],
            ),
    decreases defs.len(),
{
    if defs.len() > 0 {
        let d = defs.drop_last();
        lemma_by_name_once_sound(d, kind, id, n);
        let l = unicode_lowercase(n);
        let head = by_name_once(d, kind, id, l);
        let e = defs.last();
        let all = by_name_once(defs, kind, id, l);
        assert forall|k: int| 0 <= k < all.len() implies found_in(defs, kind, id, Some(n), #[trigger] all[k]) by {
            if k < head.len() {
                assert(all[k] == head[k]);
                lemma_found_in_prefix(defs, kind, id, Some(n), head[k]);
            } else {
                let last = defs.len() - 1;
                assert(defs[last] == e);
                assert(all[k] == e.1);
                assert(selects(defs, last, kind, id, Some(n)));
            }
        }
    }
}

/// A lookup returns only enabled definitions that select the ID or the
/// (case-insensitive) name.
pub proof fn law_find_is_sound<D>(defs: Seq<(DefinitionKeys, D)>, kind: SelectorKind, id: u64, name: Option<Seq<char>>)
    ensures
        forall|k: int|
            0 <= k < spec_find(defs, kind, id, name).len() ==> found_in(
                defs,
                kind,
                id,
                name,
                #[trigger] spec_find(defs, kind, id, name)[k],
            ),
{
    lemma_by_id_sound(defs, kind, id, name);
    let a = by_id(defs, kind, id);
    let r = spec_find(defs, kind, id, name);
    assert forall|k: int| 0 <= k < r.len() implies found_in(defs, kind, id, name, #[trigger] r[k]) by {
        if k < a.len() {
            assert(r[k] == a[k]);
        } else {
            match name {
                Some(n) => {
                    lemma_by_name_once_sound(defs, kind, id, n);
                    let b = by_name_once(defs, kind, id, unicode_lowercase(n));
                    assert(r[k] == b[k - a.len()]);
                },
                None => {},
            }
        }
    }
}

/// Every enabled definition that selects the ID is found by the lookup by
/// ID.
pub proof fn law_find_by_id_is_complete<D>(defs: Seq<(DefinitionKeys, D)>, kind: SelectorKind, id: u64, i: int)
    requires
        0 <= i < defs.len(),
        defs[i].0.enabled,
        count_id(selectors_of(defs[i].0, kind), id) > 0,
    ensures
        by_id(defs, kind, id).contains(defs[i].1),
    decreases defs.len(),
{
    let d = defs.drop_last();
    let e = defs.last();
    if i < defs.len() - 1 {
        assert(d[i] == defs[i]);
        law_find_by_id_is_complete(d, kind, id, i);
        let k = choose|k: int| 0 <= k < by_id(d, kind, id).len() && by_id(d, kind, id)[k] == defs[i].1;
        assert(by_id(defs, kind, id)[k] == defs[i].1);
    } else {
        let h = by_id(d, kind, id);
        assert(by_id(defs, kind, id)[h.len() as int] == e.1);
    }
}

/// Read after write: a definition added with a new ID, or added with
/// `overwrite`, is the one held for its ID afterwards; adding without
/// `overwrite` leaves a held definition as it was.
pub proof fn law_add_then_get<D>(defs: Seq<(DefinitionKeys, D)>, d: (DefinitionKeys, D), overwrite: bool)
    requires
        ids_distinct(defs),
    ensures
        ({
            let after = add_one(defs, d, overwrite);
            &&& ids_distinct(after.0)
            &&& (overwrite || !has_def(defs, d.0.id@)) ==> after.0.last() == d && has_def(after.0, d.0.id@)
            &&& (!overwrite && has_def(defs, d.0.id@)) ==> after.0 == defs
        }),
{
    let after = add_one(defs, d, overwrite);
    if has_def(defs, d.0.id@) {
        if overwrite {
            let k = def_index(defs, d.0.id@);
            let rem = defs.remove(k);
            assert forall|i: int, j: int| 0 <= i < j < after.0.len() implies after.0[i].0.id@ != after.0[j].0.id@ by {
                if j == after.0.len() - 1 {
                    let ii = if i < k { i } else { i + 1 };
                    assert(after.0[i] == defs[ii]);
                } else {
                    let ii = if i < k { i } else { i + 1 };
                    let jj = if j < k { j } else { j + 1 };
                    assert(after.0[i] == defs[ii]);
                    assert(after.0[j] == defs[jj]);
                }
            }
            assert(after.0[after.0.len() - 1].0.id@ == d.0.id@);
        }
    } else {
        assert forall|i: int, j: int| 0 <= i < j < after.0.len() implies after.0[i].0.id@ != after.0[j].0.id@ by {
            if j == after.0.len() - 1 {
                assert(after.0[i] == defs[i]);
                if defs[i].0.id@ == d.0.id@ {
                    assert(has_def(defs, d.0.id@));
                }
            } else {
                assert(after.0[i] == defs[i]);
                assert(after.0[j] == defs[j]);
            }
        }
        assert(after.0[after.0.len() - 1].0.id@ == d.0.id@);
    }
}

/// Whether a selector picks the game object with this ID or name (names
/// compared in lowercase).
pub open spec fn selector_picks(s: Selector, id: i64, name: Option<Seq<char>>) -> bool {
    match s {
        Selector::Id(x) => x == id as u64,
        Selector::Name(n) => name matches Some(m) && unicode_lowercase(n@) == unicode_lowercase(m),
    }
}

/// Whether any of the selectors picks the game object.
pub open spec fn any_picks(sels: Seq<Selector>, id: i64, name: Option<Seq<char>>) -> bool {
    exists|k: int| 0 <= k < sels.len() && selector_picks(#[trigger] sels[k], id, name)
}

/// Whether any of the selectors picks the game object with this ID or name.
pub fn picks(sels: &Vec<Selector>, id: i64, name: Option<&str>) -> (r: bool)
    ensures
        r == any_picks(sels@, id, opt_str_view(name)),
{
    let lname: Option<Vec<char>> = match name {
        Some(n) => Some(to_lowercase(chars_of(n).as_slice())),
        None => None,
    };
    let mut k: usize = 0;
    while k < sels.len()
        invariant
            k <= sels.len(),
            match lname {
                Some(l) => opt_str_view(name) matches Some(m) && l@ == unicode_lowercase(m),
                None => opt_str_view(name) is None,
            },
            forall|j: int| 0 <= j < k ==> !selector_picks(#[trigger] sels@[j], id, opt_str_view(name)),
        decreases sels.len() - k,
    {
        let hit = match &sels[k] {
            Selector::Id(x) => *x == id as u64,
            Selector::Name(n) => match &lname {
                Some(l) => {
                    let ln = to_lowercase(chars_of(n.as_str()).as_slice());
                    chars_eq(&ln, l)
                },
                None => false,
            },
        };
        if hit {
            assert(selector_picks(sels@[k as int], id, opt_str_view(name)));
            return true;
        }
        k = k + 1;
    }
    false
}

impl DefinitionKeys {
    /// Whether an effect ID or name matches the definition's effect trigger.
    pub fn matches_effect(&self, effect_id: i64, effect_name: Option<&str>) -> (r: bool)
        ensures
            r == (self.trigger matches TriggerSelectors::Effects(v) && v@.len() > 0 && any_picks(
                v@,
                effect_id,
                opt_str_view(effect_name),
            )),
    {
        match &self.trigger {
            TriggerSelectors::Effects(v) => v.len() > 0 && picks(v, effect_id, effect_name),
            _ => false,
        }
    }

    /// Whether an ability matches the definition's ability trigger (any
    /// ability when it lists none).
    pub fn matches_ability(&self, ability_id: i64, ability_name: Option<&str>) -> (r: bool)
        ensures
            r == (self.trigger matches TriggerSelectors::Abilities(v) && (v@.len() == 0 || any_picks(
                v@,
                ability_id,
                opt_str_view(ability_name),
            ))),
    {
        match &self.trigger {
            TriggerSelectors::Abilities(v) => v.len() == 0 || picks(v, ability_id, ability_name),
            _ => false,
        }
    }

    /// Whether an ability can refresh the definition's effect.
    pub fn can_refresh_with(&self, ability_id: i64, ability_name: Option<&str>) -> (r: bool)
        ensures
            r == any_picks(self.refresh_abilities@, ability_id, opt_str_view(ability_name)),
    {
        picks(&self.refresh_abilities, ability_id, ability_name)
    }
}

} // verus!
