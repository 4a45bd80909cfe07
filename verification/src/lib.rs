pub mod bytes;
pub mod client;
pub mod collections;
pub mod config;
pub mod consensus;
pub mod crypto;
pub mod encodings;
pub mod mempool;
pub mod network;
pub mod node;
pub mod primary;
pub mod quorum;
pub mod worker;
