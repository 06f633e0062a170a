//! PvP friend/enemy inference
//!
//! PvP combat logs don't record teams, so factions are inferred transitively
//! from damage and healing between players, seeded by the local player:
//! damage always crosses factions, healing always stays within one. Once a
//! player is classified they stay classified for the rest of the match.

use vstd::prelude::*;

use crate::game_data::effect_id;

verus! {

/// Which side of a PvP match a player is on, relative to the local player.
#[derive(Debug, Clone, Copy, PartialEq, Eq, Hash, Structural)]
pub enum PvpFaction {
    Friendly,
    Enemy,
}

/// The other side.
pub open spec fn spec_opposite(f: PvpFaction) -> PvpFaction {
    match f {
        PvpFaction::Friendly => PvpFaction::Enemy,
        PvpFaction::Enemy => PvpFaction::Friendly,
    }
}

impl PvpFaction {
    /// The other side.
    pub fn opposite(self) -> (r: PvpFaction)
        ensures
            r == spec_opposite(self),
    {
        match self {
            PvpFaction::Friendly => PvpFaction::Enemy,
            PvpFaction::Enemy => PvpFaction::Friendly,
        }
    }
}

/// Inferred factions keyed by entity ID, held in a `hashbrown::HashMap`.
#[verifier::external_body]
#[derive(Debug)]
pub struct FactionMap {
    inner: hashbrown::HashMap<i64, PvpFaction>,
}

/// What a [`FactionMap`] holds.
pub uninterp spec fn faction_map_contents(m: FactionMap) -> Map<i64, PvpFaction>;

impl FactionMap {
    /// What the map holds.
    pub open spec fn contents(&self) -> Map<i64, PvpFaction> {
        faction_map_contents(*self)
    }

    /// An empty map (`hashbrown::HashMap::new`).
    #[verifier::external_body]
    pub(crate) fn new() -> (r: FactionMap)
        ensures
            r.contents().dom().is_empty(),
    {
        FactionMap { inner: hashbrown::HashMap::new() }
    }

    /// Inserts or replaces the entry of `id` (`hashbrown::HashMap::insert`).
    #[verifier::external_body]
    pub(crate) fn insert(&mut self, id: i64, faction: PvpFaction)
        ensures
            final(self).contents() == old(self).contents().insert(id, faction),
    {
        self.inner.insert(id, faction);
    }

    /// The entry of `id` (`hashbrown::HashMap::get`).
    #[verifier::external_body]
    pub(crate) fn get(&self, id: i64) -> (r: Option<PvpFaction>)
        ensures
            r == faction_map_contents(*self).get(id),
    {
        self.inner.get(&id).copied()
    }
}

/// The faction of an entity given what has been inferred: the local player
/// is always friendly.
pub open spec fn spec_faction_of(known: Map<i64, PvpFaction>, entity_id: i64, local_player_id: i64) -> Option<
    PvpFaction,
> {
    if entity_id == local_player_id {
        Some(PvpFaction::Friendly)
    } else {
        known.get(entity_id)
    }
}

/// The faction that an interaction gives the other party of a known player:
/// damage crosses factions, healing stays within one.
pub open spec fn implied_faction(known: PvpFaction, is_damage: bool) -> PvpFaction {
    if is_damage {
        spec_opposite(known)
    } else {
        known
    }
}

/// What is inferred after one player-to-player interaction: when exactly
/// one endpoint is known, the other is classified; otherwise nothing changes.
pub open spec fn spec_observe_pair(
    known: Map<i64, PvpFaction>,
    src_id: i64,
    tgt_id: i64,
    is_damage: bool,
    local_player_id: i64,
) -> Map<i64, PvpFaction> {
    let src = spec_faction_of(known, src_id, local_player_id);
    let tgt = spec_faction_of(known, tgt_id, local_player_id);
    match (src, tgt) {
        (Some(k), None) => known.insert(tgt_id, implied_faction(k, is_damage)),
        (None, Some(k)) => known.insert(src_id, implied_faction(k, is_damage)),
        _ => known,
    }
}

/// Whether an event carries faction information: player-to-player damage or
/// healing between two distinct, logged players, with the local player known.
pub open spec fn is_faction_evidence(
    effect_id: i64,
    source_is_player: bool,
    source_id: i64,
    target_is_player: bool,
    target_id: i64,
    local_player_id: i64,
) -> bool {
    &&& (effect_id == effect_id::DAMAGE || effect_id == effect_id::HEAL)
    &&& source_is_player && target_is_player
    &&& source_id != target_id
    &&& source_id != 0 && target_id != 0 && local_player_id != 0
}

/// Transitive friend/enemy classifier for one PvP match.
#[derive(Debug)]
pub struct PvpFactionTracker {
    factions: FactionMap,
}

impl PvpFactionTracker {
    /// The factions inferred so far (the local player is not among them).
    pub closed spec fn known(&self) -> Map<i64, PvpFaction> {
        self.factions.contents()
    }

    /// A tracker that knows no faction yet.
    pub fn new() -> (r: Self)
        ensures
            r.known() == Map::<i64, PvpFaction>::empty(),
    {
        let r = PvpFactionTracker { factions: FactionMap::new() };
        assert(r.known() =~= Map::<i64, PvpFaction>::empty());
        r
    }

    /// Observe a combat event and classify unknown players where possible.
    /// Only player-to-player damage and healing carries faction information.
    pub fn observe(
        &mut self,
        effect_id: i64,
        source_is_player: bool,
        source_id: i64,
        target_is_player: bool,
        target_id: i64,
        local_player_id: i64,
    )
        ensures
            final(self).known() == if is_faction_evidence(
                effect_id,
                source_is_player,
                source_id,
                target_is_player,
                target_id,
                local_player_id,
            ) {
                spec_observe_pair(
                    old(self).known(),
                    source_id,
                    target_id,
                    effect_id == effect_id::DAMAGE,
                    local_player_id,
                )
            } else {
                old(self).known()
            },
    {
        let is_damage = effect_id == effect_id::DAMAGE;
        if !is_damage && effect_id != effect_id::HEAL {
            return;
        }
        if !source_is_player || !target_is_player || source_id == target_id || source_id == 0
            || target_id == 0 || local_player_id == 0 {
            return;
        }
        self.observe_pair(source_id, target_id, is_damage, local_player_id);
    }

    /// Core inference: damage ⇒ opposite factions, heal ⇒ same faction.
    /// When exactly one endpoint is known, the other is classified.
    /// Also used by the query layer to replay stored events.
    pub fn observe_pair(&mut self, src_id: i64, tgt_id: i64, is_damage: bool, local_player_id: i64)
        ensures
            final(self).known() == spec_observe_pair(
                old(self).known(),
                src_id,
                tgt_id,
                is_damage,
                local_player_id,
            ),
    {
        let src = self.faction_of(src_id, local_player_id);
        let tgt = self.faction_of(tgt_id, local_player_id);
        match (src, tgt) {
            (Some(known), None) => {
                let f = if is_damage {
                    known.opposite()
                } else {
                    known
                };
                self.factions.insert(tgt_id, f);
            },
            (None, Some(known)) => {
                let f = if is_damage {
                    known.opposite()
                } else {
                    known
                };
                self.factions.insert(src_id, f);
            },
            // Both known (nothing to learn) or both unknown (no anchor yet)
            _ => {},
        }
    }

    /// Faction of a player, if inferred. The local player is always friendly.
    pub fn faction_of(&self, entity_id: i64, local_player_id: i64) -> (r: Option<PvpFaction>)
        ensures
            r == spec_faction_of(self.known(), entity_id, local_player_id),
    {
        if entity_id == local_player_id {
            return Some(PvpFaction::Friendly);
        }
        self.factions.get(entity_id)
    }
}

impl Default for PvpFactionTracker {
    fn default() -> (r: Self)
        ensures
            r.known() == Map::<i64, PvpFaction>::empty(),
    {
        Self::new()
    }
}

/// A classified player keeps their faction: no later interaction changes it.
pub proof fn law_classification_is_sticky(
    known: Map<i64, PvpFaction>,
    src_id: i64,
    tgt_id: i64,
    is_damage: bool,
    local_player_id: i64,
    entity_id: i64,
)
    requires
        spec_faction_of(known, entity_id, local_player_id) is Some,
    ensures
        spec_faction_of(
            spec_observe_pair(known, src_id, tgt_id, is_damage, local_player_id),
            entity_id,
            local_player_id,
        ) == spec_faction_of(known, entity_id, local_player_id),
{
}

/// After an interaction with exactly one known party, both parties are
/// known, on opposite sides for damage and on the same side for healing.
pub proof fn law_interaction_relates_factions(
    known: Map<i64, PvpFaction>,
    src_id: i64,
    tgt_id: i64,
    is_damage: bool,
    local_player_id: i64,
)
    requires
        spec_faction_of(known, src_id, local_player_id) is Some != spec_faction_of(
            known,
            tgt_id,
            local_player_id,
        ) is Some,
    ensures
        ({
            let after = spec_observe_pair(known, src_id, tgt_id, is_damage, local_player_id);
            let s = spec_faction_of(after, src_id, local_player_id);
            let t = spec_faction_of(after, tgt_id, local_player_id);
            &&& s is Some && t is Some
            &&& is_damage ==> t->0 == spec_opposite(s->0)
            &&& !is_damage ==> t->0 == s->0
        }),
{
}

/// An interaction between two unclassified players teaches nothing, and
/// neither does one between two classified players.
pub proof fn law_no_anchor_no_change(
    known: Map<i64, PvpFaction>,
    src_id: i64,
    tgt_id: i64,
    is_damage: bool,
    local_player_id: i64,
)
    requires
        spec_faction_of(known, src_id, local_player_id) is Some == spec_faction_of(
            known,
            tgt_id,
            local_player_id,
        ) is Some,
    ensures
        spec_observe_pair(known, src_id, tgt_id, is_damage, local_player_id) == known,
{
}

/// The local player is never recorded: inference leaves them out of the map.
pub proof fn law_local_player_never_recorded(
    known: Map<i64, PvpFaction>,
    src_id: i64,
    tgt_id: i64,
    is_damage: bool,
    local_player_id: i64,
)
    requires
        !known.contains_key(local_player_id),
    ensures
        !spec_observe_pair(known, src_id, tgt_id, is_damage, local_player_id).contains_key(
            local_player_id,
        ),
{
}

} // verus!
