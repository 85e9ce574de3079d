//! What a target machine tells the back end

use vstd::prelude::*;
use crate::middle::ir;

verus! {

/// How an IR instruction is implemented on a target
#[derive(Clone, Copy, Debug, PartialEq, Eq, Structural)]
pub enum ImplementationType {
    /// By machine instructions
    Native,
    /// By a call of a helper function
    Intrinsic,
}

/// A target machine
pub trait Target {
    /// How the target implements an instruction
    fn impl_type(instr: ir::Instruction) -> ImplementationType;

    /// The helper functions the target needs
    fn intrinsics(&self) -> &'static [ir::Symbol];
}

} // verus!
