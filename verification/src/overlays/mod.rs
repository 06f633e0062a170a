pub mod effects;
pub mod enemy_frames;
