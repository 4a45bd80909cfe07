//! The benchmark client: transactions at a steady rate, and the replies to them.

pub mod sender;
pub mod replies;
pub mod tracker;
