//! Game effect IDs of the combat log's event kinds (language-independent).

use vstd::prelude::*;

verus! {

/// `Event {..}: EnterCombat`
pub const ENTERCOMBAT: i64 = 836045448945489;

/// `Event {..}: ExitCombat`
pub const EXITCOMBAT: i64 = 836045448945490;

/// `ApplyEffect {..}: Heal`
pub const HEAL: i64 = 836045448945500;

/// `ApplyEffect {..}: Damage`
pub const DAMAGE: i64 = 836045448945501;

/// The effect type of `AreaEntered` events.
pub const AREAENTERED_TYPE: i64 = 836045448953664;

} // verus!
