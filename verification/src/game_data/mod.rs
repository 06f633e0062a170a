pub mod bosses;
pub mod difficulty_id;
pub mod effect_id;
pub mod mirror_abilities;
pub mod pvp_instance;
