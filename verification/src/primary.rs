//! The primary: disseminates headers and runs the consensus instances that
//! travel in them.

pub mod aggregators;
pub mod committer;
pub mod header_core;
pub mod error;
pub mod laws;
pub mod messages;
pub mod outcomes;
pub mod proposals;
pub mod proposer;
pub mod state;
pub mod synchronizer;
pub mod timer;
