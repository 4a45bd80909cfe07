pub mod aggregator;
pub mod laws;
pub mod messages;
pub mod outcomes;
pub mod state;
pub mod synchronizer;
pub mod view_core;
