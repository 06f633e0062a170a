pub mod metrics;
pub mod pvp_faction;
