//! Non-blocking dispatch core of a message-bus client: reply correlation, filter
//! subscriptions, the dispatch loop and the single-slot reply future.
pub mod message;
pub mod channel;
pub mod nonblock;
