//! Republic ⇄ Imperial mirror-class ability pairs, keyed by ability ID.

use vstd::prelude::*;

verus! {

/// The mirror counterpart of a class ability.
#[derive(Debug)]
pub struct MirrorAbility {
    pub mirror_id: i64,
    /// English name of the mirror ability.
    pub mirror_name: String,
    /// Faction of the *keyed* ability (true = Imperial), so callers can decide
    /// whether a requested faction needs a swap at all.
    pub is_imperial: bool,
}

} // verus!
