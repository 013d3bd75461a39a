use vstd::prelude::*;

verus! {

/// Why a run was aborted.
#[derive(Clone, Copy, Debug, PartialEq, Eq, Structural)]
pub enum ExecutionError {
    /// The byte at the given program position is none of the eight instructions.
    InvalidInstruction(u8, usize),
    /// The bracket at the given program position has no partner.
    BracketMismatch(usize),
    /// The input instruction at the given program position found no input at all.
    InputExhausted(usize),
    /// The run was still going when its step budget was used up.
    StepLimitExceeded,
}

} // verus!
