//! PvP combat state handling.
//!
//! PvP instances ignore all PvE encounter boundary logic — inactivity timeouts,
//! revive-immunity splits, wipe detection, and ExitCombat ends don't apply.
//! Times are game times in milliseconds.

use vstd::prelude::*;

use crate::game_data::effect_id;

verus! {

/// What the warzone handling reads of a combat event.
#[derive(Debug, Clone, Copy)]
pub struct WarzoneEvent {
    /// The event's effect type ID (AreaEntered, ApplyEffect, ...)
    pub type_id: i64,
    /// The event's effect ID (the area ID for AreaEntered events)
    pub effect_id: i64,
    pub timestamp: i64,
}

/// The state of the current (in-combat) warzone encounter that the
/// warzone handling reads and updates.
#[derive(Debug, Clone, Copy)]
pub struct WarzoneEncounter {
    pub id: u64,
    /// Area of the match, once known
    pub area_id: Option<i64>,
    /// The last ExitCombat of the match (respawns and rejoins produce several)
    pub last_exit_combat_time: Option<i64>,
    pub last_damage_time: Option<i64>,
    /// Set when the match ends
    pub exit_combat_time: Option<i64>,
    /// `Some(exit_time)` once the encounter is in post-combat
    pub post_combat_exit: Option<i64>,
}

/// The end of a combat encounter.
#[derive(Debug, Clone, Copy, PartialEq, Eq, Structural)]
pub struct CombatEnded {
    pub timestamp: i64,
    pub encounter_id: u64,
    pub success: bool,
}

/// Whether the event is a zone-out of the match: an AreaEntered into an area
/// other than the match's own (re-entering the same area continues it).
pub open spec fn is_zone_out(event: WarzoneEvent, encounter: Option<WarzoneEncounter>) -> bool {
    event.type_id == effect_id::AREAENTERED_TYPE && match encounter {
        Some(enc) => enc.area_id matches Some(id) && id != event.effect_id,
        None => false,
    }
}

/// When a zoned-out match ends: at its final ExitCombat, so scoreboard idle
/// time isn't counted, or at the zone-out itself when there was none.
pub open spec fn match_end_time(event: WarzoneEvent, enc: WarzoneEncounter) -> i64 {
    match enc.last_exit_combat_time {
        Some(t) => t,
        None => event.timestamp,
    }
}

/// The current encounter of a session: its latest.
pub open spec fn current_encounter(encounters: Seq<WarzoneEncounter>) -> Option<WarzoneEncounter> {
    if encounters.len() == 0 {
        None
    } else {
        Some(encounters.last())
    }
}

/// The match after an event that belongs to it: damage and ExitCombat times
/// are noted.
pub open spec fn accumulated(event: WarzoneEvent, enc: WarzoneEncounter) -> WarzoneEncounter {
    if event.effect_id == effect_id::DAMAGE {
        WarzoneEncounter { last_damage_time: Some(event.timestamp), ..enc }
    } else if event.effect_id == effect_id::EXITCOMBAT {
        WarzoneEncounter { last_exit_combat_time: Some(event.timestamp), ..enc }
    } else {
        enc
    }
}

/// Advance an InCombat warzone encounter.
///
/// A warzone match is one contiguous encounter: EnterCombat/ExitCombat from
/// respawns and rejoins never split it. The only boundary is zoning out
/// (AreaEntered with a different area ID); the encounter end is then backdated
/// to the final ExitCombat seen, its end is signalled, and a new encounter,
/// made by `make_encounter`, becomes the current one. Any other event belongs
/// to the match: the second result says so. The session's encounters are
/// `encounters`, the current one last. What the encounter records of each
/// event (its entities, damage and healing totals, log lines) and its
/// challenge totals at the end are the encounter's own bookkeeping, which
/// `WarzoneEncounter` does not hold: only the times that decide the match's
/// end are kept here.
pub fn handle_in_combat_warzone<F: FnOnce() -> WarzoneEncounter>(
    event: &WarzoneEvent,
    encounters: &mut Vec<WarzoneEncounter>,
    make_encounter: F,
) -> (r: (Vec<CombatEnded>, bool))
    requires
        make_encounter.requires(()),
    ensures
        is_zone_out(*event, current_encounter(old(encounters)@)) ==> ({
            let n = old(encounters)@.len();
            let enc = old(encounters)@.last();
            let t = match_end_time(*event, enc);
            &&& r.0@ == seq![CombatEnded { timestamp: t, encounter_id: enc.id, success: true }]
            &&& !r.1
            &&& final(encounters)@.len() == n + 1
            &&& final(encounters)@.take(n as int) == old(encounters)@.update(
                n - 1,
                WarzoneEncounter { exit_combat_time: Some(t), post_combat_exit: Some(t), ..enc },
            )
            &&& make_encounter.ensures((), final(encounters)@.last())
        }),
        !is_zone_out(*event, current_encounter(old(encounters)@)) ==> ({
            &&& r.0@.len() == 0
            &&& r.1 == (old(encounters)@.len() > 0)
            &&& final(encounters)@ == if old(encounters)@.len() > 0 {
                old(encounters)@.update(
                    old(encounters)@.len() - 1,
                    accumulated(*event, old(encounters)@.last()),
                )
            } else {
                old(encounters)@
            }
        }),
{
    let mut signals: Vec<CombatEnded> = Vec::new();
    let timestamp = event.timestamp;
    let n = encounters.len();

    // Zone-out ends the match. Re-entering the SAME area (e.g. a Voidstar
    // round swap) is not a zone-out — the match continues.
    let zoned_out = event.type_id == effect_id::AREAENTERED_TYPE && n > 0 && match encounters[n - 1].area_id {
        Some(id) => id != event.effect_id,
        None => false,
    };

    if zoned_out {
        let mut enc = encounters[n - 1];
        let exit_time = match enc.last_exit_combat_time {
            Some(t) => t,
            None => timestamp,
        };
        enc.exit_combat_time = Some(exit_time);
        enc.post_combat_exit = Some(exit_time);
        encounters.set(n - 1, enc);
        // Win/loss isn't derivable from the combat log; a match played to
        // its end (zone-out) is not a wipe.
        signals.push(CombatEnded { timestamp: exit_time, encounter_id: enc.id, success: true });
        let ghost ended = encounters@;
        let fresh = make_encounter();
        encounters.push(fresh);
        assert(encounters@.take(n as int) =~= ended);
        return (signals, false);
    }

    // Everything else is part of the match.
    let mut was_accumulated = false;
    if n > 0 {
        was_accumulated = true;
        let mut enc = encounters[n - 1];
        if event.effect_id == effect_id::DAMAGE {
            enc.last_damage_time = Some(timestamp);
        } else if event.effect_id == effect_id::EXITCOMBAT {
            // Doesn't end the match, but the final one becomes the encounter
            // end when the player zones out.
            enc.last_exit_combat_time = Some(timestamp);
        }
        encounters.set(n - 1, enc);
    }
    (signals, was_accumulated)
}

} // verus!
