//! The intermediate representation (IR)
//!
//! A register-to-register representation in SSA style: a program is a list of
//! globals and functions, a function is a list of basic blocks, and each block
//! is a list of instructions terminated by a control flow instruction.

pub mod text;
pub mod trans;
pub mod visit;

use vstd::prelude::*;
use crate::driver::interner::{Ident, Interner};
use crate::front::ast;

verus! {

#[derive(Clone, Copy, Debug, PartialEq, Eq, Structural, Hash)]
pub struct Label(pub Ident);

impl Label {
    /// The label with the given name
    pub fn from_str(interner: &mut Interner, name: &str) -> (r: Label)
        requires
            old(interner).wf(),
        ensures
            final(interner).wf(),
            r.0.0 < final(interner)@.len(),
            final(interner)@[r.0.0 as int] == name@,
            forall|n: Seq<char>| old(interner)@.contains(n) ==> final(interner)@.contains(n),
            forall|i: int| 0 <= i < old(interner)@.len() ==> final(interner)@[i] == old(interner)@[i],
            old(interner)@.len() <= final(interner)@.len(),
    {
        let id = interner.intern_str(name);
        proof {
            assert forall|n: Seq<char>| old(interner)@.contains(n) implies final(interner)@.contains(n) by {
                let k = choose|k: int| 0 <= k < old(interner)@.len() && old(interner)@[k] == n;
                if !old(interner)@.contains(name@) {
                    assert(final(interner)@[k] == n);
                }
            }
        }
        Label(id)
    }

    pub fn ident(&self) -> (r: Ident)
        ensures
            r == self.0,
    {
        self.0
    }
}

#[derive(Clone, Copy, Debug, PartialEq, Eq, Structural, Hash)]
pub enum Register {
    /// A local register
    Local(Ident),
    /// A stack slot: a pointer to a variable stored on the stack
    Stack(Ident),
}

/// The name of a register
pub open spec fn register_ident(r: Register) -> Ident {
    match r {
        Register::Local(id) => id,
        Register::Stack(id) => id,
    }
}

impl Register {
    /// The local register with the given name
    pub fn local(interner: &mut Interner, name: &str) -> (r: Register)
        requires
            old(interner).wf(),
        ensures
            final(interner).wf(),
            r matches Register::Local(id) && id.0 < final(interner)@.len() && final(interner)@[id.0 as int] == name@,
    {
        Register::Local(interner.intern_str(name))
    }

    pub fn ident(&self) -> (r: Ident)
        ensures
            r == register_ident(*self),
    {
        match *self {
            Register::Local(id) => id,
            Register::Stack(id) => id,
        }
    }
}

#[derive(Clone, Copy, Debug, PartialEq, Eq, Structural, Hash)]
pub struct Immediate(pub u32);

impl Immediate {
    pub fn val(self) -> (r: u32)
        ensures
            r == self.0,
    {
        self.0
    }
}

#[derive(Clone, Copy, Debug, PartialEq, Eq, Structural, Hash)]
pub enum Value {
    /// Contents of a register
    Register(Register),
    /// An immediate value
    Immediate(Immediate),
    /// The address of a static symbol
    Static(Ident),
}

impl Value {
    pub fn reg(self) -> (r: Register)
        requires
            self is Register,
        ensures
            r == self->Register_0,
    {
        match self {
            Value::Register(r) => r,
            _ => vstd::pervasive::unreached(),
        }
    }
}

#[derive(Clone, Copy, Debug, PartialEq, Eq, Structural, Hash)]
pub enum InfixOp {
    // Arithmetical
    Add,
    Sub,
    Mul,
    Div,
    Pow,
    Mod,
    Shl,
    Shr,
    // Bitwise
    And,
    Or,
    Xor,
}

/// The IR operator of an arithmetic or bitwise AST operator
pub open spec fn infix_of_binop(op: ast::BinOp) -> InfixOp {
    match op {
        ast::BinOp::Add => InfixOp::Add,
        ast::BinOp::Sub => InfixOp::Sub,
        ast::BinOp::Mul => InfixOp::Mul,
        ast::BinOp::Div => InfixOp::Div,
        ast::BinOp::Mod => InfixOp::Mod,
        ast::BinOp::Pow => InfixOp::Pow,
        ast::BinOp::BitXor => InfixOp::Xor,
        ast::BinOp::BitAnd => InfixOp::And,
        ast::BinOp::BitOr => InfixOp::Or,
        ast::BinOp::Shl => InfixOp::Shl,
        _ => InfixOp::Shr,
    }
}

/// What an arithmetic or bitwise operator of the source computes on two
/// integers (the bitwise operators act on their 64-bit patterns)
pub open spec fn source_binop_value(op: ast::BinOp, a: int, b: int) -> int {
    match op {
        ast::BinOp::Add => a + b,
        ast::BinOp::Sub => a - b,
        ast::BinOp::Mul => a * b,
        ast::BinOp::Div => a / b,
        ast::BinOp::Mod => a % b,
        ast::BinOp::Pow => vstd::arithmetic::power::pow(a, b as nat),
        ast::BinOp::Shl => a * vstd::arithmetic::power::pow(2, b as nat),
        ast::BinOp::Shr => a / vstd::arithmetic::power::pow(2, b as nat),
        ast::BinOp::BitAnd => ((a as u64) & (b as u64)) as int,
        ast::BinOp::BitOr => ((a as u64) | (b as u64)) as int,
        ast::BinOp::BitXor => ((a as u64) ^ (b as u64)) as int,
        _ => 0,
    }
}

/// What an IR binary operation computes on two integers (the bitwise
/// operations act on their 64-bit patterns)
pub open spec fn ir_infix_value(op: InfixOp, a: int, b: int) -> int {
    match op {
        InfixOp::Add => a + b,
        InfixOp::Sub => a - b,
        InfixOp::Mul => a * b,
        InfixOp::Div => a / b,
        InfixOp::Mod => a % b,
        InfixOp::Pow => vstd::arithmetic::power::pow(a, b as nat),
        InfixOp::Shl => a * vstd::arithmetic::power::pow(2, b as nat),
        InfixOp::Shr => a / vstd::arithmetic::power::pow(2, b as nat),
        InfixOp::And => ((a as u64) & (b as u64)) as int,
        InfixOp::Or => ((a as u64) | (b as u64)) as int,
        InfixOp::Xor => ((a as u64) ^ (b as u64)) as int,
    }
}

/// The IR operation that an arithmetic or bitwise source operator becomes
/// computes what the source operator computes, on any two integers
pub proof fn law_ir_operator_computes_source_operator(op: ast::BinOp, a: int, b: int)
    requires
        ast::binop_type(op) == ast::BinOpType::Arithmetic || ast::binop_type(op) == ast::BinOpType::Bitwise,
    ensures
        ir_infix_value(infix_of_binop(op), a, b) == source_binop_value(op, a, b),
{
}

/// Distinct arithmetic or bitwise source operators become distinct IR
/// operations
pub proof fn law_distinct_operators_stay_distinct(op1: ast::BinOp, op2: ast::BinOp)
    requires
        ast::binop_type(op1) == ast::BinOpType::Arithmetic || ast::binop_type(op1) == ast::BinOpType::Bitwise,
        ast::binop_type(op2) == ast::BinOpType::Arithmetic || ast::binop_type(op2) == ast::BinOpType::Bitwise,
        op1 != op2,
    ensures
        infix_of_binop(op1) != infix_of_binop(op2),
{
}

/// The name of an IR operation's variant, as Rust code names it
pub open spec fn infix_variant_name(op: InfixOp) -> Seq<char> {
    match op {
        InfixOp::Add => "Add"@,
        InfixOp::Sub => "Sub"@,
        InfixOp::Mul => "Mul"@,
        InfixOp::Div => "Div"@,
        InfixOp::Pow => "Pow"@,
        InfixOp::Mod => "Mod"@,
        InfixOp::Shl => "Shl"@,
        InfixOp::Shr => "Shr"@,
        InfixOp::And => "And"@,
        InfixOp::Or => "Or"@,
        InfixOp::Xor => "Xor"@,
    }
}

impl InfixOp {
    /// Translate an arithmetic or bitwise AST operator
    pub fn from_ast_op(op: ast::BinOp) -> (r: InfixOp)
        requires
            ast::binop_type(op) == ast::BinOpType::Arithmetic || ast::binop_type(op) == ast::BinOpType::Bitwise,
        ensures
            r == infix_of_binop(op),
    {
        match op {
            ast::BinOp::Add => InfixOp::Add,
            ast::BinOp::Sub => InfixOp::Sub,
            ast::BinOp::Mul => InfixOp::Mul,
            ast::BinOp::Div => InfixOp::Div,
            ast::BinOp::Mod => InfixOp::Mod,
            ast::BinOp::Pow => InfixOp::Pow,
            ast::BinOp::BitXor => InfixOp::Xor,
            ast::BinOp::BitAnd => InfixOp::And,
            ast::BinOp::BitOr => InfixOp::Or,
            ast::BinOp::Shl => InfixOp::Shl,
            _ => InfixOp::Shr,
        }
    }
}

#[derive(Clone, Copy, Debug, PartialEq, Eq, Structural, Hash)]
pub enum PrefixOp {
    /// Arithmetic negation
    Neg,
    /// Bitwise/logical not
    Not,
}

impl PrefixOp {
    pub fn from_ast_op(op: ast::UnOp) -> (r: PrefixOp)
        ensures
            op == ast::UnOp::Neg ==> r == PrefixOp::Neg,
            op == ast::UnOp::Not ==> r == PrefixOp::Not,
    {
        match op {
            ast::UnOp::Neg => PrefixOp::Neg,
            ast::UnOp::Not => PrefixOp::Not,
        }
    }
}

#[derive(Clone, Copy, Debug, PartialEq, Eq, Structural, Hash)]
pub enum CmpOp {
    Lt,
    Le,
    Eq,
    Ne,
    Ge,
    Gt,
}

/// The IR comparison of an AST comparison operator
pub open spec fn cmp_of_binop(op: ast::BinOp) -> CmpOp {
    match op {
        ast::BinOp::Lt => CmpOp::Lt,
        ast::BinOp::Le => CmpOp::Le,
        ast::BinOp::EqEq => CmpOp::Eq,
        ast::BinOp::Ne => CmpOp::Ne,
        ast::BinOp::Ge => CmpOp::Ge,
        _ => CmpOp::Gt,
    }
}

/// Whether a comparison of the source holds between two integers
pub open spec fn source_cmp_holds(op: ast::BinOp, a: int, b: int) -> bool {
    match op {
        ast::BinOp::Lt => a < b,
        ast::BinOp::Le => a <= b,
        ast::BinOp::EqEq => a == b,
        ast::BinOp::Ne => a != b,
        ast::BinOp::Ge => a >= b,
        ast::BinOp::Gt => a > b,
        _ => false,
    }
}

/// Whether an IR comparison holds between two integers
pub open spec fn ir_cmp_holds(op: CmpOp, a: int, b: int) -> bool {
    match op {
        CmpOp::Lt => a < b,
        CmpOp::Le => a <= b,
        CmpOp::Eq => a == b,
        CmpOp::Ne => a != b,
        CmpOp::Ge => a >= b,
        CmpOp::Gt => a > b,
    }
}

/// The IR comparison that a source comparison becomes holds exactly when
/// the source comparison does, between any two integers
pub proof fn law_ir_comparison_decides_source_comparison(op: ast::BinOp, a: int, b: int)
    requires
        ast::binop_type(op) == ast::BinOpType::Comparison,
    ensures
        ir_cmp_holds(cmp_of_binop(op), a, b) == source_cmp_holds(op, a, b),
{
}

/// The name of an IR comparison's variant, as Rust code names it
pub open spec fn cmp_variant_name(op: CmpOp) -> Seq<char> {
    match op {
        CmpOp::Lt => "Lt"@,
        CmpOp::Le => "Le"@,
        CmpOp::Eq => "Eq"@,
        CmpOp::Ne => "Ne"@,
        CmpOp::Ge => "Ge"@,
        CmpOp::Gt => "Gt"@,
    }
}

/// The name of an IR unary operation's variant, as Rust code names it
pub open spec fn prefix_variant_name(op: PrefixOp) -> Seq<char> {
    match op {
        PrefixOp::Neg => "Neg"@,
        PrefixOp::Not => "Not"@,
    }
}

impl CmpOp {
    pub fn from_ast_op(op: ast::BinOp) -> (r: CmpOp)
        requires
            ast::binop_type(op) == ast::BinOpType::Comparison,
        ensures
            r == cmp_of_binop(op),
    {
        match op {
            ast::BinOp::Lt => CmpOp::Lt,
            ast::BinOp::Le => CmpOp::Le,
            ast::BinOp::EqEq => CmpOp::Eq,
            ast::BinOp::Ne => CmpOp::Ne,
            ast::BinOp::Ge => CmpOp::Ge,
            _ => CmpOp::Gt,
        }
    }
}

#[derive(Debug)]
pub struct Phi {
    pub srcs: Vec<(Value, Label)>,
    pub dst: Register,
}

#[derive(Debug)]
#[allow(inconsistent_fields)]
pub enum Instruction {
    BinOp { op: InfixOp, lhs: Value, rhs: Value, dst: Register },
    UnOp { op: PrefixOp, item: Value, dst: Register },
    Cmp { op: CmpOp, lhs: Value, rhs: Value, dst: Register },
    /// Reserve a stack slot; `dst` receives its address
    Alloca { dst: Register },
    /// Read the memory at `src` into `dst`
    Load { src: Value, dst: Register },
    /// Write `src` to the memory address `dst` (a register or a static)
    Store { src: Value, dst: Value },
    Call { name: Ident, args: Vec<Value>, dst: Register },
}

#[derive(Clone, Copy, Debug, PartialEq, Eq, Structural)]
pub enum ControlFlowInstruction {
    Return { value: Option<Value> },
    Branch { cond: Value, conseq: Label, altern: Label },
    Jump { dest: Label },
    NotYetProcessed,
}

/// The labels a block may continue with
pub open spec fn successors_spec(c: ControlFlowInstruction) -> Seq<Ident> {
    match c {
        ControlFlowInstruction::Branch { conseq, altern, .. } => seq![conseq.0, altern.0],
        ControlFlowInstruction::Jump { dest } => seq![dest.0],
        _ => Seq::empty(),
    }
}

impl ControlFlowInstruction {
    pub fn successors(&self) -> (r: Vec<Ident>)
        ensures
            r@ == successors_spec(*self),
    {
        match *self {
            ControlFlowInstruction::Branch { conseq, altern, .. } => {
                let mut v = Vec::new();
                v.push(conseq.ident());
                v.push(altern.ident());
                assert(v@ =~= successors_spec(*self));
                v
            },
            ControlFlowInstruction::Jump { dest } => {
                let mut v = Vec::new();
                v.push(dest.ident());
                assert(v@ =~= successors_spec(*self));
                v
            },
            _ => {
                let v = Vec::new();
                assert(v@ =~= successors_spec(*self));
                v
            },
        }
    }
}

/// A basic block
#[derive(Debug)]
pub struct Block {
    pub label: Label,
    pub inst: Vec<Instruction>,
    pub last: ControlFlowInstruction,
    pub phis: Vec<Phi>,
}

/// The number of leading `alloca`s
pub open spec fn alloca_prefix(inst: Seq<Instruction>) -> int
    decreases inst.len(),
{
    if inst.len() == 0 {
        0
    } else if inst[0] is Alloca {
        1 + alloca_prefix(inst.drop_first())
    } else {
        0
    }
}

/// The instructions with an `alloca` of `reg` after their leading `alloca`s
pub open spec fn with_alloca(inst: Seq<Instruction>, reg: Register) -> Seq<Instruction> {
    inst.subrange(0, alloca_prefix(inst)).push(Instruction::Alloca { dst: reg })
        + inst.subrange(alloca_prefix(inst), inst.len() as int)
}

impl Block {
    /// A fresh, empty block
    pub fn new(label: Label) -> (r: Block)
        ensures
            r.label == label,
            r.inst@.len() == 0,
            r.phis@.len() == 0,
            r.last == ControlFlowInstruction::NotYetProcessed,
    {
        Block { label, inst: Vec::new(), last: ControlFlowInstruction::NotYetProcessed, phis: Vec::new() }
    }

    pub open spec fn spec_finalized(&self) -> bool {
        self.last != ControlFlowInstruction::NotYetProcessed
    }

    /// Whether the block has its control flow instruction
    #[verifier::when_used_as_spec(spec_finalized)]
    pub fn finalized(&self) -> (r: bool)
        ensures
            r == self.spec_finalized(),
    {
        !matches!(self.last, ControlFlowInstruction::NotYetProcessed)
    }

    pub fn ret(&mut self, value: Option<Value>)
        requires
            !old(self).spec_finalized(),
        ensures
            final(self).last == (ControlFlowInstruction::Return { value }),
            final(self).label == old(self).label,
            final(self).inst == old(self).inst,
            final(self).phis == old(self).phis,
    {
        self.last = ControlFlowInstruction::Return { value };
    }

    pub fn branch(&mut self, cond: Value, conseq: Label, altern: Label)
        requires
            !old(self).spec_finalized(),
        ensures
            final(self).last == (ControlFlowInstruction::Branch { cond, conseq, altern }),
            final(self).label == old(self).label,
            final(self).inst == old(self).inst,
            final(self).phis == old(self).phis,
    {
        self.last = ControlFlowInstruction::Branch { cond, conseq, altern };
    }

    pub fn jump(&mut self, dest: Label)
        requires
            !old(self).spec_finalized(),
        ensures
            final(self).last == (ControlFlowInstruction::Jump { dest }),
            final(self).label == old(self).label,
            final(self).inst == old(self).inst,
            final(self).phis == old(self).phis,
    {
        self.last = ControlFlowInstruction::Jump { dest };
    }

    /// Append an instruction to a block that is not yet finalized
    fn emit(&mut self, i: Instruction)
        requires
            !old(self).spec_finalized(),
        ensures
            final(self).inst@ == old(self).inst@.push(i),
            final(self).last == old(self).last,
            final(self).label == old(self).label,
            final(self).phis == old(self).phis,
    {
        self.inst.push(i);
    }

    pub fn binop(&mut self, op: InfixOp, lhs: Value, rhs: Value, dst: Register)
        requires
            !old(self).spec_finalized(),
        ensures
            final(self).inst@ == old(self).inst@.push(Instruction::BinOp { op, lhs, rhs, dst }),
            final(self).last == old(self).last,
            final(self).label == old(self).label,
            final(self).phis == old(self).phis,
    {
        self.emit(Instruction::BinOp { op, lhs, rhs, dst })
    }

    pub fn unop(&mut self, op: PrefixOp, item: Value, dst: Register)
        requires
            !old(self).spec_finalized(),
        ensures
            final(self).inst@ == old(self).inst@.push(Instruction::UnOp { op, item, dst }),
            final(self).last == old(self).last,
            final(self).label == old(self).label,
            final(self).phis == old(self).phis,
    {
        self.emit(Instruction::UnOp { op, item, dst })
    }

    pub fn cmp(&mut self, cmp: CmpOp, lhs: Value, rhs: Value, dst: Register)
        requires
            !old(self).spec_finalized(),
        ensures
            final(self).inst@ == old(self).inst@.push(Instruction::Cmp { op: cmp, lhs, rhs, dst }),
            final(self).last == old(self).last,
            final(self).label == old(self).label,
            final(self).phis == old(self).phis,
    {
        self.emit(Instruction::Cmp { op: cmp, lhs, rhs, dst })
    }

    /// Insert an `alloca` after the existing leading `alloca`s (allowed on
    /// finalized blocks, as allocas always go into the first block)
    pub fn add_alloca(&mut self, reg: Register)
        ensures
            final(self).inst@ == with_alloca(old(self).inst@, reg),
            final(self).last == old(self).last,
            final(self).label == old(self).label,
            final(self).phis == old(self).phis,
    {
        let mut i: usize = 0;
        let mut done = false;
        assert(self.inst@.subrange(0, self.inst@.len() as int) =~= self.inst@);
        while !done && i < self.inst.len()
            invariant
                i <= self.inst@.len(),
                self.inst == old(self).inst,
                alloca_prefix(self.inst@) == i + alloca_prefix(self.inst@.subrange(i as int, self.inst@.len() as int)),
                done ==> i < self.inst@.len() && !(self.inst@[i as int] is Alloca),
            decreases self.inst@.len() - i, if done { 0int } else { 1int },
        {
            if let Instruction::Alloca { .. } = self.inst[i] {
                proof {
                    let rest = self.inst@.subrange(i as int, self.inst@.len() as int);
                    assert(rest.drop_first() =~= self.inst@.subrange(i + 1, self.inst@.len() as int));
                }
                i = i + 1;
            } else {
                done = true;
            }
        }
        proof {
            let rest = self.inst@.subrange(i as int, self.inst@.len() as int);
            if done {
                assert(rest[0] == self.inst@[i as int]);
            }
            assert(alloca_prefix(rest) == 0);
        }
        self.inst.insert(i, Instruction::Alloca { dst: reg });
        assert(self.inst@ =~= old(self).inst@.subrange(0, i as int).push(Instruction::Alloca { dst: reg })
            + old(self).inst@.subrange(i as int, old(self).inst@.len() as int));
    }

    pub fn load(&mut self, src: Value, dst: Register)
        requires
            !old(self).spec_finalized(),
        ensures
            final(self).inst@ == old(self).inst@.push(Instruction::Load { src, dst }),
            final(self).last == old(self).last,
            final(self).label == old(self).label,
            final(self).phis == old(self).phis,
    {
        self.emit(Instruction::Load { src, dst })
    }

    /// Store a value into the memory a register points to
    pub fn store_reg(&mut self, src: Value, dst: Register)
        requires
            !old(self).spec_finalized(),
        ensures
            final(self).inst@ == old(self).inst@.push(Instruction::Store { src, dst: Value::Register(dst) }),
            final(self).last == old(self).last,
            final(self).label == old(self).label,
            final(self).phis == old(self).phis,
    {
        self.emit(Instruction::Store { src, dst: Value::Register(dst) })
    }

    pub fn store(&mut self, src: Value, dst: Value)
        requires
            !old(self).spec_finalized(),
            !(dst is Immediate),
        ensures
            final(self).inst@ == old(self).inst@.push(Instruction::Store { src, dst }),
            final(self).last == old(self).last,
            final(self).label == old(self).label,
            final(self).phis == old(self).phis,
    {
        self.emit(Instruction::Store { src, dst })
    }

    pub fn call(&mut self, name: Ident, args: Vec<Value>, dst: Register)
        requires
            !old(self).spec_finalized(),
        ensures
            final(self).inst@ == old(self).inst@.push(Instruction::Call { name, args, dst }),
            final(self).last == old(self).last,
            final(self).label == old(self).label,
            final(self).phis == old(self).phis,
    {
        self.emit(Instruction::Call { name, args, dst })
    }

    pub fn phi(&mut self, srcs: Vec<(Value, Label)>, dst: Register)
        requires
            !old(self).spec_finalized(),
        ensures
            final(self).phis@ == old(self).phis@.push(Phi { srcs, dst }),
            final(self).last == old(self).last,
            final(self).label == old(self).label,
            final(self).inst == old(self).inst,
    {
        self.phis.push(Phi { srcs, dst })
    }
}

#[derive(Debug)]
pub enum Symbol {
    Global { name: Ident, value: Immediate },
    Function { name: Ident, body: Vec<Block>, args: Vec<Ident> },
}

/// The name of a symbol
pub open spec fn symbol_name(s: Symbol) -> Ident {
    match s {
        Symbol::Global { name, .. } => name,
        Symbol::Function { name, .. } => name,
    }
}

/// An IR program: globals and functions in order of definition
#[derive(Debug)]
pub struct Program(pub Vec<Symbol>);

impl Program {
    pub fn new() -> (r: Program)
        ensures
            r.0@.len() == 0,
    {
        Program(Vec::new())
    }

    pub fn emit(&mut self, s: Symbol)
        ensures
            final(self).0@ == old(self).0@.push(s),
    {
        self.0.push(s);
    }

    pub fn symbols(&self) -> (r: &[Symbol])
        ensures
            r@ == self.0@,
    {
        self.0.as_slice()
    }

    /// Iterate over the symbols in order of definition
    pub fn iter(&self) -> (r: std::slice::Iter<'_, Symbol>)
        ensures
            vstd::std_specs::iter::IteratorSpec::remaining(&r) == self.0@.as_ref(),
    {
        broadcast use vstd::std_specs::slice::axiom_spec_slice_iter;
        self.0.as_slice().iter()
    }

    /// The symbols, to be changed in place (in order of definition)
    pub fn iter_mut(&mut self) -> (r: &mut [Symbol])
        ensures
            r@ == old(self).0@,
            final(self).0@ == final(r)@,
    {
        self.0.as_mut_slice()
    }
}

} // verus!
