//! PvP area identification
//!
//! Area IDs for PvP instances (warzones, arenas)

use vstd::prelude::*;

verus! {

/// PvP instance kind: 8-player warzones vs 4-player arenas
#[derive(Debug, Clone, Copy, PartialEq, Eq, Structural)]
pub enum PvpAreaKind {
    Warzone,
    Arena,
}

/// Area IDs of the 8-player warzones.
pub open spec fn is_warzone_id(area_id: i64) -> bool {
    ||| area_id == 137438956902  // The Civil War (Alderaan)
    ||| area_id == 945872057669561  // Yavin Ruins
    ||| area_id == 137438992654  // Novare Coast
    ||| area_id == 137438993104  // Ancient Hypergate
    ||| area_id == 137438989517  // The Voidstar
    ||| area_id == 833571547775744  // Odessen Proving Grounds
    ||| area_id == 137438988866  // The Pit (Nar Shaddaa Huttball)
    ||| area_id == 137438953518  // Quesh Huttball Pit
    ||| area_id == 833571547775746  // Vandin Huttball (The Sky Shredder)
}

/// Area IDs of the 4-player arenas.
pub open spec fn is_arena_id(area_id: i64) -> bool {
    ||| area_id == 137438993370  // Corellia Square
    ||| area_id == 137438993381  // Makeb Mesa Arena
    ||| area_id == 945872057669563  // Mandalorian Battle Ring
    ||| area_id == 137438993376  // Orbital Station
    ||| area_id == 833571547775745  // Rishi Cove
    ||| area_id == 137438993374  // Tatooine Canyon
    ||| area_id == 945872057669629  // Onderon Palatial Ruins
}

/// The classification of an area ID.
pub open spec fn spec_pvp_area_kind(area_id: i64) -> Option<PvpAreaKind> {
    if is_warzone_id(area_id) {
        Some(PvpAreaKind::Warzone)
    } else if is_arena_id(area_id) {
        Some(PvpAreaKind::Arena)
    } else {
        None
    }
}

/// Classify a PvP area ID, or `None` if the area is not a PvP instance
pub fn pvp_area_kind(area_id: i64) -> (r: Option<PvpAreaKind>)
    ensures
        r == spec_pvp_area_kind(area_id),
{
    match area_id {
        137438956902 | 945872057669561 | 137438992654 | 137438993104 | 137438989517
        | 833571547775744 | 137438988866 | 137438953518 | 833571547775746 => Some(
            PvpAreaKind::Warzone,
        ),
        137438993370 | 137438993381 | 945872057669563 | 137438993376 | 833571547775745
        | 137438993374 | 945872057669629 => Some(PvpAreaKind::Arena),
        _ => None,
    }
}

/// Check if an area ID corresponds to a PvP instance
pub fn is_pvp_area(area_id: i64) -> (r: bool)
    ensures
        r == spec_pvp_area_kind(area_id).is_some(),
        r == (is_warzone_id(area_id) || is_arena_id(area_id)),
{
    pvp_area_kind(area_id).is_some()
}

/// "Deserter Detection" effects applied to every player the moment a PvP round
/// begins (the spawn barrier drops), before any EnterCombat. Warzones and
/// arenas use distinct effect IDs.
pub const DESERTER_DETECTION_EFFECT_IDS: [i64; 2] = [
    2730083076800512,  // Warzones
    3297813328822272,  // Arenas
];

/// System heal fired at every player when a PvP match ends.
pub const REBIRTH_ABILITY_ID: i64 = 773652459028480;

/// System abilities whose Heal events mark an arena round boundary:
/// "Rebirth" (match end only) and "Heal Target" (every round end).
pub const ARENA_ROUND_END_ABILITY_IDS: [i64; 2] = [
    773652459028480,  // Rebirth (match end only)
    813707324030976,  // Heal Target (every round end)
];

/// The label of a match in an area.
pub open spec fn spec_pvp_match_label(area_id: i64) -> Seq<char> {
    match spec_pvp_area_kind(area_id) {
        Some(PvpAreaKind::Warzone) => "Warzone Match"@,
        Some(PvpAreaKind::Arena) => "Arena Round"@,
        None => "PvP Match"@,
    }
}

/// Display label for a PvP area's match type
pub fn pvp_match_label(area_id: i64) -> (r: &'static str)
    ensures
        r@ == spec_pvp_match_label(area_id),
{
    match pvp_area_kind(area_id) {
        Some(PvpAreaKind::Warzone) => "Warzone Match",
        Some(PvpAreaKind::Arena) => "Arena Round",
        None => "PvP Match",
    }
}

} // verus!
