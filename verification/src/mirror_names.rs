//! Republic ⇄ Imperial ability naming: which id and name to display for an
//! ability under the user's naming preference.

use std::collections::HashMap;

use vstd::prelude::*;

use crate::game_data::mirror_abilities::MirrorAbility;

verus! {

broadcast use vstd::std_specs::hash::group_hash_axioms;

/// How ability names are displayed.
#[derive(Debug, Clone, Copy, PartialEq, Eq, Structural)]
pub enum AbilityNaming {
    /// As the combat log recorded them.
    AsLogged,
    /// Always the Republic name.
    Republic,
    /// Always the Imperial name.
    Imperial,
}

/// The mirror entry of `id` when the preference asks for the other faction's
/// name: none when names are shown as logged, when `id` has no mirror, or
/// when `id` already belongs to the wanted faction.
pub open spec fn spec_swap_for(naming: AbilityNaming, mirrors: Map<i64, MirrorAbility>, id: i64) -> Option<MirrorAbility> {
    match naming {
        AbilityNaming::AsLogged => None,
        _ => {
            let want_imperial = naming == AbilityNaming::Imperial;
            if mirrors.contains_key(id) && mirrors[id].is_imperial != want_imperial {
                Some(mirrors[id])
            } else {
                None
            }
        },
    }
}

/// Mirror entry for `id` if the current naming preference requires a swap.
pub fn swap_for<'a>(naming: AbilityNaming, mirrors: &'a HashMap<i64, MirrorAbility>, id: i64) -> (r: Option<&'a MirrorAbility>)
    ensures
        match r {
            Some(m) => spec_swap_for(naming, mirrors@, id) == Some(*m),
            None => spec_swap_for(naming, mirrors@, id) is None,
        },
{
    let want_imperial = match naming {
        AbilityNaming::AsLogged => {
            return None;
        },
        AbilityNaming::Republic => false,
        AbilityNaming::Imperial => true,
    };
    match mirrors.get(&id) {
        Some(m) => {
            if m.is_imperial != want_imperial {
                Some(m)
            } else {
                None
            }
        },
        None => None,
    }
}

/// Ability id to use for icons under the current naming preference.
pub fn display_id(naming: AbilityNaming, mirrors: &HashMap<i64, MirrorAbility>, id: i64) -> (r: i64)
    ensures
        r == spec_display_id(naming, mirrors@, id),
{
    match swap_for(naming, mirrors, id) {
        Some(m) => m.mirror_id,
        None => id,
    }
}

/// Ability name to show under the current naming preference.
pub fn display_name(naming: AbilityNaming, mirrors: &HashMap<i64, MirrorAbility>, id: i64, name: &str) -> (r: String)
    ensures
        r@ == match spec_swap_for(naming, mirrors@, id) {
            Some(m) => m.mirror_name@,
            None => name@,
        },
{
    match swap_for(naming, mirrors, id) {
        Some(m) => m.mirror_name.clone(),
        None => name.to_owned(),
    }
}

/// The id that `display_id` gives.
pub open spec fn spec_display_id(naming: AbilityNaming, mirrors: Map<i64, MirrorAbility>, id: i64) -> i64 {
    match spec_swap_for(naming, mirrors, id) {
        Some(m) => m.mirror_id,
        None => id,
    }
}

/// Both halves of each pair are keys, each naming the other, of opposite
/// factions.
pub open spec fn mirrors_symmetric(mirrors: Map<i64, MirrorAbility>) -> bool {
    forall|id: i64|
        #[trigger] mirrors.contains_key(id) ==> {
            let m = mirrors[id];
            &&& mirrors.contains_key(m.mirror_id)
            &&& mirrors[m.mirror_id].mirror_id == id
            &&& mirrors[m.mirror_id].is_imperial != m.is_imperial
        }
}

/// With a symmetric mirror map, the displayed id is already in the wanted
/// faction: displaying it again leaves it as it is.
pub proof fn law_display_id_is_stable(naming: AbilityNaming, mirrors: Map<i64, MirrorAbility>, id: i64)
    requires
        mirrors_symmetric(mirrors),
    ensures
        spec_display_id(naming, mirrors, spec_display_id(naming, mirrors, id)) == spec_display_id(naming, mirrors, id),
{
    if spec_swap_for(naming, mirrors, id) is Some {
        assert(mirrors.contains_key(id));
    }
}

} // verus!
