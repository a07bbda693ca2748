//! Flow classification and retention-windowed traffic statistics.
//!
//! The crate has two halves. The classification engine maps a flow tuple to a
//! service label and a traffic category and remembers the decision per flow.
//! The statistics aggregator keeps per-label byte and packet counters in one
//! open window plus a history of closed windows that expire after a fixed
//! retention period.
//!
//! Every type here is used through `&mut self`; sharing one between threads
//! is the caller's business, typically with a mutex around it.
pub mod category;
pub mod classifier;
mod clock;
pub mod config;
pub mod label_map;
pub mod packet;
pub mod stats;
pub mod stats_lemmas;
pub mod text;
pub mod totals;
