//! Combat-log analysis core: game data lookups, log area indexing,
//! PvP faction inference and encounter bookkeeping.

pub mod context;
pub mod effects;
pub mod encounter;
pub mod game_data;
pub mod hotkey_input;
pub mod mirror_names;
pub mod modifier_editor;
pub mod overlay_metrics;
pub mod overlays;
pub mod query;
pub mod signal_processor;
pub mod text;
