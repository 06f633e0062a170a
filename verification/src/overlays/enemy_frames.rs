//! Enemy HP frames (PvP): one compact cell per enemy player showing HP,
//! name and discipline, and their current target.

use vstd::prelude::*;

use crate::text::{chars_of, string_of};

verus! {

/// One enemy player's frame state
#[derive(Debug, Clone, PartialEq)]
pub struct EnemyFrame {
    pub entity_id: i64,
    pub name: String,
    /// Class name for HP bar color (e.g., "Sorcerer"); None until detected
    pub class_name: Option<String>,
    /// Discipline icon name (e.g., "lightning.png"); None until detected
    pub discipline_icon: Option<String>,
    pub current_hp: i64,
    pub max_hp: i64,
    /// Resolved name of this enemy's current target
    pub target_name: Option<String>,
    /// True when this enemy is targeting the local player
    pub targeting_you: bool,
    pub is_dead: bool,
    /// Blue accent border (guard highlight)
    pub guarded: bool,
}

/// Data update for the enemy frames overlay
#[derive(Debug, Clone, PartialEq)]
pub struct EnemyFramesData {
    pub frames: Vec<EnemyFrame>,
}

impl Default for EnemyFramesData {
    fn default() -> (r: Self)
        ensures
            r.frames@.len() == 0,
    {
        EnemyFramesData { frames: Vec::new() }
    }
}

/// The `i`-th placeholder frame (1-based) shown in move mode.
pub open spec fn is_placeholder_frame(f: EnemyFrame, i: int) -> bool {
    &&& f.entity_id == i
    &&& f.name@ == "Enemy "@ + seq![((48 + i) as u32) as char]
    &&& f.class_name is None
    &&& f.discipline_icon is None
    &&& f.current_hp == 50_000 * i
    &&& f.max_hp == 400_000
    &&& f.target_name matches Some(t) && t@ == "Teammate"@
    &&& f.targeting_you == (i == 2)
    &&& !f.is_dead
    &&& !f.guarded
}

/// Eight sample frames so the overlay can be positioned outside a match.
pub fn placeholder_frames() -> (r: Vec<EnemyFrame>)
    ensures
        r@.len() == 8,
        forall|k: int| 0 <= k < 8 ==> is_placeholder_frame(#[trigger] r@[k], k + 1),
{
    let mut out: Vec<EnemyFrame> = Vec::new();
    let mut i: i64 = 1;
    while i <= 8
        invariant
            1 <= i <= 9,
            out@.len() == i - 1,
            forall|k: int| 0 <= k < i - 1 ==> is_placeholder_frame(#[trigger] out@[k], k + 1),
        decreases 9 - i,
    {
        let mut name = chars_of("Enemy ");
        let digit = ((48 + i) as u8) as char;
        name.push(digit);
        assert(digit == ((48 + i) as u32) as char);
        assert(name@ =~= "Enemy "@ + seq![digit]);
        let frame = EnemyFrame {
                entity_id: i,
                name: string_of(name.as_slice()),
                class_name: None,
                discipline_icon: None,
                current_hp: 50_000 * i,
                max_hp: 400_000,
                target_name: Some("Teammate".to_owned()),
                targeting_you: i == 2,
                is_dead: false,
                guarded: false,
            };
        assert(is_placeholder_frame(frame, i as int));
        let ghost prev = out@;
        out.push(frame);
        assert forall|k: int| 0 <= k < i implies is_placeholder_frame(#[trigger] out@[k], k + 1) by {
            if k < i - 1 {
                assert(out@[k] == prev[k]);
            }
        }
        i = i + 1;
    }
    out
}

} // verus!
