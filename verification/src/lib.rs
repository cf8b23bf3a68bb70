//! Verified core of a terminal network dashboard: reconciling interface
//! identity across two differently-named enumerations, turning cumulative
//! byte counters into a bounded rate history, resolving a public IP from a
//! prioritised list of providers, and partitioning a drawing area into
//! per-interface panels.

pub mod diag;
pub mod layout;
pub mod model;
pub mod rate;
pub mod reconcile;
pub mod resolver;
pub mod sched;
pub mod text;
