//! Kinds of inter-module couplers.
use vstd::prelude::*;

verus! {

/// Distinguishes the physical regime of an inter-module coupler.
#[derive(Debug, Clone, Copy, PartialEq, Eq, Structural)]
pub enum LinkKind {
    /// Microwave/capacitive chiplet-to-chiplet coupler: deterministic and
    /// short-distance, closer to an ordinary two-qubit gate than to a
    /// networking problem.
    NearField,
    /// Heralded photonic entanglement over longer distances
    /// (non-deterministic generation, possibly with distillation).
    Photonic,
}

} // verus!
