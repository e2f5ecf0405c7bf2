//! The circuit's view of a machine state, and the ways in which building a
//! circuit can fail.

use vstd::prelude::*;

verus! {

/// Why a circuit could not be built or has no satisfying witness.
#[derive(Debug, Clone, Copy, PartialEq, Eq, Structural)]
pub enum SynthesisError {
    /// A value that the constraint system needs was not given.
    AssignmentMissing,
    /// The program does not run to its end without error within the step
    /// limit, so no final state can be proved.
    Unsatisfiable,
}

/// A machine state over the field: every component is a residue.
pub struct FieldState {
    pub stack: Seq<nat>,
    /// The memory cells in use, each with its address before its value.
    pub memory: Seq<(nat, nat)>,
    pub storage: Seq<(nat, nat)>,
    pub pc: nat,
    pub gas: nat,
}

} // verus!
