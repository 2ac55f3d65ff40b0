//! A verified simulation kernel for a fleet of autonomous robots that cycle
//! through pickup/dropoff work loops, share a limited pool of charging
//! stations through an exclusive booking protocol, avoid each other with a
//! priority-tie-broken repulsion model, and manage battery drain, charging
//! detours and death.
//!
//! All scalar quantities are fixed-point integers in thousandths of their
//! natural simulation unit (milli-units), so every formula here is exact
//! integer arithmetic with truncating division.

pub mod avoidance;
pub mod battery;
pub mod config;
pub mod geometry;
pub mod laws;
pub mod machine;
pub mod movement;
pub mod robot;
pub mod stations;
pub mod world;
