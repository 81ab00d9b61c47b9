//! A verified engine for incremental synchronization of historical monthly
//! currency-exchange rates.
//!
//! The library decides which year/month windows are still open, aggregates a
//! provider's daily rates down to one representative rate per month, and
//! plans the merges into a rate store without ever overwriting a finalized
//! rate. All decisions are verified; the caller performs the network fetch,
//! the floating-point reciprocal, and the database writes, handing the
//! results back as plain values.

pub mod aggregate;
pub mod calendar;
pub mod clock;
pub mod finalize;
pub mod laws;
pub mod planner;
pub mod reconcile;
pub mod provider;
pub mod settings;
pub mod sheets;
pub mod store;
pub mod sync;
