//! Noise-aware compiler building blocks for modular quantum hardware.
//!
//! - [`hurst`]: the integer side of Detrended Fluctuation Analysis: which
//!   window sizes are examined, and where the sliding windows of the local
//!   (time-varying) Hurst estimate lie.
//! - [`telegate`]: the kinds of inter-module couplers.
//! - [`topology`]: the module/link graph of physical qubits, kept in a
//!   `petgraph` graph.
pub mod hurst;
pub mod telegate;
pub mod topology;
pub mod graph_store;

pub use telegate::LinkKind;
pub use topology::{EdgeClass, ModuleGraph, ModuleId, PhysicalQubitId};
