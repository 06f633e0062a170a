pub mod definition;
pub mod tracker;
pub mod engine;
pub mod keys;
