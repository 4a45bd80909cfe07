//! The worker: batches of client transactions and the replies to them.

pub mod client_reply;
pub mod client_replier;
pub mod processor;
