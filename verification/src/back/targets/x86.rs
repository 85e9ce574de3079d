//! The x86-64 target

use vstd::prelude::*;
use crate::back::interface::{ImplementationType, Target};
use crate::middle::ir;

verus! {

/// The x86-64 target: every instruction is implemented natively, and no
/// helper functions are needed
pub struct X86Target;

impl Target for X86Target {
    fn impl_type(instr: ir::Instruction) -> (r: ImplementationType)
        ensures
            r == ImplementationType::Native,
    {
        ImplementationType::Native
    }

    fn intrinsics(&self) -> (r: &'static [ir::Symbol])
        ensures
            r@.len() == 0,
    {
        &[]
    }
}

} // verus!
