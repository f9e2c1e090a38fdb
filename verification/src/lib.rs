pub mod syntax;
pub mod text;
pub mod parse;
pub mod walk;
pub mod metrics;
pub mod thresholds;
pub mod strset;
pub mod config;
pub mod suppression;
pub mod strategies;
pub mod analysis;
pub mod output;
pub mod utils;
pub mod laws;
pub mod intent_laws;
