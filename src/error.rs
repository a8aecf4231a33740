use vstd::prelude::*;

verus! {

/// The typed failures of the engine.
#[derive(Debug, Clone, Copy, PartialEq, Eq, Structural)]
pub enum SimError {
    /// A body could not be built from its shape and mass.
    Construction,
    /// An argument was out of its domain (a negative time step).
    InvalidArgument,
    /// A body id is missing from, or already present in, the world.
    Consistency,
}

} // verus!
