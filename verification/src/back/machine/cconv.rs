//! The `RusTiny` calling convention
//!
//! # Arguments
//! All arguments are pushed on the stack.
//!
//! # Return values
//! Return values are stored in RAX.

use vstd::prelude::*;
use crate::back::machine::MachineRegister;
use crate::back::machine::assembly::{Argument, AssemblyLine, Block, Instruction, Register};
use crate::driver::interner::Ident;
use crate::middle::ir;

verus! {

/// The assembly argument of an IR value: a virtual register, a stack slot,
/// an immediate value or the address of a static
pub open spec fn value_argument(v: ir::Value) -> Argument {
    match v {
        ir::Value::Register(ir::Register::Local(r)) => Argument::Register(Register::Virtual(r)),
        ir::Value::Register(ir::Register::Stack(r)) => Argument::StackSlot(r),
        ir::Value::Immediate(i) => Argument::Immediate(i.0 as u64),
        ir::Value::Static(s) => Argument::Address(s),
    }
}

/// A line is the instruction `mnemonic args` without a label
pub open spec fn is_instruction(l: AssemblyLine, mnemonic: Seq<char>, args: Seq<Argument>) -> bool {
    &&& l is Instruction
    &&& l->Instruction_0.mnemonic@ == mnemonic
    &&& l->Instruction_0.args@ == args
    &&& l->Instruction_0.label is None
}

/// The assembly argument of an IR value
pub fn translate_value(value: &ir::Value) -> (r: Argument)
    ensures
        r == value_argument(*value),
{
    match *value {
        ir::Value::Register(ir::Register::Local(reg)) => Argument::Register(Register::Virtual(reg)),
        ir::Value::Register(ir::Register::Stack(reg)) => Argument::StackSlot(reg),
        ir::Value::Immediate(ir::Immediate(val)) => Argument::Immediate(val as u64),
        ir::Value::Static(name) => Argument::Address(name),
    }
}

/// An instruction with one argument
fn unary(mnemonic: &'static str, arg: Argument) -> (r: Instruction)
    ensures
        r.mnemonic == mnemonic,
        r.args@ == seq![arg],
        r.label is None,
{
    let mut args: Vec<Argument> = Vec::new();
    args.push(arg);
    assert(args@ =~= seq![arg]);
    Instruction::new(mnemonic, args)
}

/// An instruction with two arguments
pub fn binary(mnemonic: &'static str, a: Argument, b: Argument) -> (r: Instruction)
    ensures
        r.mnemonic == mnemonic,
        r.args@ == seq![a, b],
        r.label is None,
{
    let mut args: Vec<Argument> = Vec::new();
    args.push(a);
    args.push(b);
    assert(args@ =~= seq![a, b]);
    Instruction::new(mnemonic, args)
}

/// Translate a call: push the arguments, call the function and move the
/// result from RAX to the destination register
pub fn translate_call(code: &mut Block, func: Ident, args: &[ir::Value], dst: Ident)
    ensures
        final(code).label == old(code).label,
        final(code).phis == old(code).phis,
        final(code).successors == old(code).successors,
        final(code).code@.len() == old(code).code@.len() + args@.len() + 2,
        forall|k: int| 0 <= k < old(code).code@.len() ==> final(code).code@[k] == old(code).code@[k],
        forall|j: int| 0 <= j < args@.len() ==>
            is_instruction(#[trigger] final(code).code@[old(code).code@.len() + j], "push"@, seq![value_argument(args@[j])]),
        is_instruction(final(code).code@[(old(code).code@.len() + args@.len()) as int], "call"@, seq![Argument::Label(func)]),
        is_instruction(final(code).code@[(old(code).code@.len() + args@.len() + 1) as int], "mov"@,
            seq![Argument::Register(Register::Virtual(dst)), Argument::Register(Register::Machine(MachineRegister::RAX))]),
{
    let ghost n = old(code).code@.len();
    let mut i: usize = 0;
    while i < args.len()
        invariant
            i <= args@.len(),
            code.label == old(code).label,
            code.phis == old(code).phis,
            code.successors == old(code).successors,
            code.code@.len() == n + i,
            forall|k: int| 0 <= k < n ==> code.code@[k] == old(code).code@[k],
            forall|j: int| 0 <= j < i ==> is_instruction(#[trigger] code.code@[n + j], "push"@, seq![value_argument(args@[j])]),
        decreases args@.len() - i,
    {
        code.emit_instruction(unary("push", translate_value(&args[i])));
        i = i + 1;
    }
    code.emit_instruction(unary("call", Argument::Label(func)));
    code.emit_instruction(binary("mov", Argument::Register(Register::Virtual(dst)), Argument::Register(Register::Machine(MachineRegister::RAX))));
}

} // verus!
