pub mod counter;
pub mod pvp_combat_state;
