//! An IR walker
//!
//! A `walk_*` function shows a visitor the direct parts of an IR item in
//! order: a function's name, arguments and blocks; a block's label,
//! instructions and control flow instruction; the operands of an
//! instruction. What a visitor has been shown is its `log`.

use vstd::prelude::*;
use crate::driver::interner::Ident;
use crate::middle::ir::{Block, ControlFlowInstruction, Instruction, Label, Register, Symbol, Value};

verus! {

/// A part of the IR as a visitor is shown it
pub enum IrRef {
    Symbol(Ident),
    Block(Label),
    Instruction(Instruction),
    ControlFlow(ControlFlowInstruction),
    Ident(Ident),
    Label(Label),
    Value(Value),
    Register(Register),
}

/// The references of a list of identifiers
pub open spec fn ident_refs(s: Seq<Ident>) -> Seq<IrRef> {
    s.map_values(|i: Ident| IrRef::Ident(i))
}

/// The references of a list of values
pub open spec fn value_refs(s: Seq<Value>) -> Seq<IrRef> {
    s.map_values(|v: Value| IrRef::Value(v))
}

/// The references of a list of blocks (by their labels)
pub open spec fn block_refs(s: Seq<Block>) -> Seq<IrRef> {
    s.map_values(|b: Block| IrRef::Block(b.label))
}

/// The references of a list of instructions
pub open spec fn instruction_refs(s: Seq<Instruction>) -> Seq<IrRef> {
    s.map_values(|i: Instruction| IrRef::Instruction(i))
}

/// The parts of a symbol: its name, then a function's arguments and blocks
pub open spec fn symbol_parts(s: Symbol) -> Seq<IrRef> {
    match s {
        Symbol::Global { name, .. } => seq![IrRef::Ident(name)],
        Symbol::Function { name, body, args } => seq![IrRef::Ident(name)] + ident_refs(args@) + block_refs(body@),
    }
}

/// The parts of a block: its label, its instructions, its control flow instruction
pub open spec fn block_parts(b: Block) -> Seq<IrRef> {
    seq![IrRef::Label(b.label)] + instruction_refs(b.inst@) + seq![IrRef::ControlFlow(b.last)]
}

/// The operands of an instruction, in order
pub open spec fn instruction_parts(i: Instruction) -> Seq<IrRef> {
    match i {
        Instruction::BinOp { lhs, rhs, dst, .. } => seq![IrRef::Value(lhs), IrRef::Value(rhs), IrRef::Register(dst)],
        Instruction::UnOp { item, dst, .. } => seq![IrRef::Value(item), IrRef::Register(dst)],
        Instruction::Cmp { lhs, rhs, dst, .. } => seq![IrRef::Value(lhs), IrRef::Value(rhs), IrRef::Register(dst)],
        Instruction::Alloca { dst } => seq![IrRef::Register(dst)],
        Instruction::Load { src, dst } => seq![IrRef::Value(src), IrRef::Register(dst)],
        Instruction::Store { src, dst } => seq![IrRef::Value(src), IrRef::Value(dst)],
        Instruction::Call { name, args, dst } => seq![IrRef::Ident(name)] + value_refs(args@)
            + seq![IrRef::Register(dst)],
    }
}

/// The operands of a control flow instruction, in order
pub open spec fn control_flow_parts(c: ControlFlowInstruction) -> Seq<IrRef> {
    match c {
        ControlFlowInstruction::Return { value } => match value {
            Some(v) => seq![IrRef::Value(v)],
            None => Seq::empty(),
        },
        ControlFlowInstruction::Branch { cond, conseq, altern } =>
            seq![IrRef::Value(cond), IrRef::Label(conseq), IrRef::Label(altern)],
        ControlFlowInstruction::Jump { dest } => seq![IrRef::Label(dest)],
        ControlFlowInstruction::NotYetProcessed => Seq::empty(),
    }
}

/// A visitor of the IR: each `visit_*` call shows it one part, which it
/// records in its log
pub trait Visitor {
    /// The parts shown so far, in order
    spec fn log(&self) -> Seq<IrRef>;

    fn visit_symbol(&mut self, symbol: &Symbol)
        ensures
            final(self).log() == old(self).log().push(IrRef::Symbol(crate::middle::ir::symbol_name(*symbol))),
    ;

    fn visit_block(&mut self, block: &Block)
        ensures
            final(self).log() == old(self).log().push(IrRef::Block(block.label)),
    ;

    fn visit_instruction(&mut self, instr: &Instruction)
        ensures
            final(self).log() == old(self).log().push(IrRef::Instruction(*instr)),
    ;

    fn visit_cf_instruction(&mut self, instr: &ControlFlowInstruction)
        ensures
            final(self).log() == old(self).log().push(IrRef::ControlFlow(*instr)),
    ;

    fn visit_ident(&mut self, id: Ident)
        ensures
            final(self).log() == old(self).log().push(IrRef::Ident(id)),
    ;

    fn visit_label(&mut self, label: Label)
        ensures
            final(self).log() == old(self).log().push(IrRef::Label(label)),
    ;

    fn visit_value(&mut self, value: Value)
        ensures
            final(self).log() == old(self).log().push(IrRef::Value(value)),
    ;

    fn visit_register(&mut self, reg: Register)
        ensures
            final(self).log() == old(self).log().push(IrRef::Register(reg)),
    ;
}

/// Show a visitor a list of identifiers, in order
fn walk_idents<V: Visitor>(visitor: &mut V, ids: &Vec<Ident>)
    ensures
        final(visitor).log() == old(visitor).log() + ident_refs(ids@),
{
    let mut i: usize = 0;
    while i < ids.len()
        invariant
            i <= ids@.len(),
            visitor.log() == old(visitor).log() + ident_refs(ids@.subrange(0, i as int)),
        decreases ids@.len() - i,
    {
        visitor.visit_ident(ids[i]);
        proof {
            assert(ident_refs(ids@.subrange(0, i + 1)) =~= ident_refs(ids@.subrange(0, i as int)).push(
                IrRef::Ident(ids@[i as int])));
        }
        i = i + 1;
    }
    assert(ids@.subrange(0, ids@.len() as int) =~= ids@);
}

/// Show a visitor a list of values, in order
fn walk_values<V: Visitor>(visitor: &mut V, vals: &Vec<Value>)
    ensures
        final(visitor).log() == old(visitor).log() + value_refs(vals@),
{
    let mut i: usize = 0;
    while i < vals.len()
        invariant
            i <= vals@.len(),
            visitor.log() == old(visitor).log() + value_refs(vals@.subrange(0, i as int)),
        decreases vals@.len() - i,
    {
        visitor.visit_value(vals[i]);
        proof {
            assert(value_refs(vals@.subrange(0, i + 1)) =~= value_refs(vals@.subrange(0, i as int)).push(
                IrRef::Value(vals@[i as int])));
        }
        i = i + 1;
    }
    assert(vals@.subrange(0, vals@.len() as int) =~= vals@);
}

/// Show a visitor the name of a symbol, then a function's arguments and blocks
pub fn walk_symbol<V: Visitor>(visitor: &mut V, symbol: &Symbol)
    ensures
        final(visitor).log() == old(visitor).log() + symbol_parts(*symbol),
{
    match symbol {
        Symbol::Global { name, .. } => {
            visitor.visit_ident(*name);
        },
        Symbol::Function { name, body, args } => {
            visitor.visit_ident(*name);
            walk_idents(visitor, args);
            let ghost mid = visitor.log();
            let mut i: usize = 0;
            while i < body.len()
                invariant
                    i <= body@.len(),
                    visitor.log() == mid + block_refs(body@.subrange(0, i as int)),
                decreases body@.len() - i,
            {
                visitor.visit_block(&body[i]);
                proof {
                    assert(block_refs(body@.subrange(0, i + 1)) =~= block_refs(body@.subrange(0, i as int)).push(
                        IrRef::Block(body@[i as int].label)));
                }
                i = i + 1;
            }
            assert(body@.subrange(0, body@.len() as int) =~= body@);
        },
    }
}

/// Show a visitor the label of a block, its instructions and its control
/// flow instruction
pub fn walk_block<V: Visitor>(visitor: &mut V, block: &Block)
    ensures
        final(visitor).log() == old(visitor).log() + block_parts(*block),
{
    visitor.visit_label(block.label);
    let ghost mid = visitor.log();
    let mut i: usize = 0;
    while i < block.inst.len()
        invariant
            i <= block.inst@.len(),
            visitor.log() == mid + instruction_refs(block.inst@.subrange(0, i as int)),
        decreases block.inst@.len() - i,
    {
        visitor.visit_instruction(&block.inst[i]);
        proof {
            assert(instruction_refs(block.inst@.subrange(0, i + 1)) =~= instruction_refs(
                block.inst@.subrange(0, i as int)).push(IrRef::Instruction(block.inst@[i as int])));
        }
        i = i + 1;
    }
    assert(block.inst@.subrange(0, block.inst@.len() as int) =~= block.inst@);
    visitor.visit_cf_instruction(&block.last);
}

/// Show a visitor the operands of an instruction, in order
pub fn walk_instruction<V: Visitor>(visitor: &mut V, instr: &Instruction)
    ensures
        final(visitor).log() == old(visitor).log() + instruction_parts(*instr),
{
    match instr {
        Instruction::BinOp { lhs, rhs, dst, .. } => {
            visitor.visit_value(*lhs);
            visitor.visit_value(*rhs);
            visitor.visit_register(*dst);
        },
        Instruction::UnOp { item, dst, .. } => {
            visitor.visit_value(*item);
            visitor.visit_register(*dst);
        },
        Instruction::Cmp { lhs, rhs, dst, .. } => {
            visitor.visit_value(*lhs);
            visitor.visit_value(*rhs);
            visitor.visit_register(*dst);
        },
        Instruction::Alloca { dst } => {
            visitor.visit_register(*dst);
        },
        Instruction::Load { src, dst } => {
            visitor.visit_value(*src);
            visitor.visit_register(*dst);
        },
        Instruction::Store { src, dst } => {
            visitor.visit_value(*src);
            visitor.visit_value(*dst);
        },
        Instruction::Call { name, args, dst } => {
            visitor.visit_ident(*name);
            walk_values(visitor, args);
            visitor.visit_register(*dst);
        },
    }
}

/// Show a visitor the operands of a control flow instruction, in order
pub fn walk_cf_instruction<V: Visitor>(visitor: &mut V, instr: &ControlFlowInstruction)
    ensures
        final(visitor).log() == old(visitor).log() + control_flow_parts(*instr),
{
    match instr {
        ControlFlowInstruction::Return { value } => {
            match value {
                Some(v) => visitor.visit_value(*v),
                None => {},
            }
        },
        ControlFlowInstruction::Branch { cond, conseq, altern } => {
            visitor.visit_value(*cond);
            visitor.visit_label(*conseq);
            visitor.visit_label(*altern);
        },
        ControlFlowInstruction::Jump { dest } => {
            visitor.visit_label(*dest);
        },
        ControlFlowInstruction::NotYetProcessed => {},
    }
}

} // verus!
