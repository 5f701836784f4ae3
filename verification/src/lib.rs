//! Timeline synchronisation: direct times and delays between events recorded
//! on independent timebases, and the values that follow from them.
//!
//! Each timebase has an origin; a time is the delay from the origin to an
//! event, a delay joins any two events. The graph stores what it is told,
//! refuses what it already holds or can already derive, and derives a value
//! between two nodes by summing along the one simple path that joins them.

pub mod consistency;
pub mod error;
pub mod graph;
pub mod key;
pub mod laws;
pub mod model;
pub mod order;
pub mod paths;
pub mod store;
pub mod values;

pub use error::Errors;
pub use graph::DelayGraph;
pub use key::{Event, NodeCode, TimebaseEventKey};
pub use model::{DelayRow, Model, TimeRow};
