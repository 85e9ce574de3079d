//! The syntax tree of instruction selection rules
//!
//! A rule maps a pattern of IR instructions (optionally ending in a control
//! flow instruction, and optionally guarded by a Rust condition) to either
//! assembly instructions or Rust code.

use vstd::prelude::*;
use crate::back::machine::MachineRegister;
use crate::back::machine::assembly::OperandSize;
use crate::driver::interner::Ident;
use crate::front::ast::Spanned;

verus! {

#[derive(Debug)]
pub struct Rule {
    pub pattern: Spanned<Pattern>,
    pub implementation: Impl,
}

/// How a rule is implemented
#[derive(Debug)]
pub enum Impl {
    /// Rust code, used verbatim
    Rust(Spanned<Ident>),
    /// Assembly instructions
    Asm(Spanned<Vec<Spanned<AsmInstr>>>),
}

#[derive(Debug)]
pub struct Pattern {
    pub ir_patterns: Vec<Spanned<IrPattern>>,
    pub last: Option<Spanned<IrPatternLast>>,
    /// A Rust condition the match has to meet
    pub cond: Option<Ident>,
}

#[derive(Debug)]
#[allow(inconsistent_fields)]
pub enum IrPattern {
    Add(Spanned<IrRegister>, Spanned<IrArg>, Spanned<IrArg>),
    Sub(Spanned<IrRegister>, Spanned<IrArg>, Spanned<IrArg>),
    Mul(Spanned<IrRegister>, Spanned<IrArg>, Spanned<IrArg>),
    Div(Spanned<IrRegister>, Spanned<IrArg>, Spanned<IrArg>),
    Pow(Spanned<IrRegister>, Spanned<IrArg>, Spanned<IrArg>),
    Mod(Spanned<IrRegister>, Spanned<IrArg>, Spanned<IrArg>),
    Shl(Spanned<IrRegister>, Spanned<IrArg>, Spanned<IrArg>),
    Shr(Spanned<IrRegister>, Spanned<IrArg>, Spanned<IrArg>),
    And(Spanned<IrRegister>, Spanned<IrArg>, Spanned<IrArg>),
    Or(Spanned<IrRegister>, Spanned<IrArg>, Spanned<IrArg>),
    Xor(Spanned<IrRegister>, Spanned<IrArg>, Spanned<IrArg>),
    Neg(Spanned<IrRegister>, Spanned<IrArg>),
    Not(Spanned<IrRegister>, Spanned<IrArg>),
    CmpLt(Spanned<IrRegister>, Spanned<IrArg>, Spanned<IrArg>),
    CmpLe(Spanned<IrRegister>, Spanned<IrArg>, Spanned<IrArg>),
    CmpEq(Spanned<IrRegister>, Spanned<IrArg>, Spanned<IrArg>),
    CmpNe(Spanned<IrRegister>, Spanned<IrArg>, Spanned<IrArg>),
    CmpGe(Spanned<IrRegister>, Spanned<IrArg>, Spanned<IrArg>),
    CmpGt(Spanned<IrRegister>, Spanned<IrArg>, Spanned<IrArg>),
    Alloca(Spanned<IrRegister>),
    Load(Spanned<IrRegister>, Spanned<IrArg>),
    Store(Spanned<IrArg>, Spanned<IrArg>),
    Call(Spanned<IrRegister>, Spanned<Ident>, Spanned<Ident>),
}

#[derive(Debug)]
pub enum IrPatternLast {
    Ret(Option<Spanned<IrArg>>),
    Br(Spanned<IrArg>, Spanned<IrLabel>, Spanned<IrLabel>),
    Jmp(Spanned<IrLabel>),
}

/// An argument of an IR instruction in a pattern: a register, an immediate
/// value or a static, each bound to a name
#[derive(Clone, Copy, Debug, PartialEq, Eq, Structural)]
pub enum IrArg {
    Register(IrRegister),
    Literal(Ident),
    Static(Ident),
}

/// The name an argument is bound to
pub open spec fn arg_name(a: IrArg) -> Ident {
    match a {
        IrArg::Register(r) => r.0,
        IrArg::Literal(id) => id,
        IrArg::Static(id) => id,
    }
}

impl IrArg {
    pub fn get_name(&self) -> (r: Ident)
        ensures
            r == arg_name(*self),
    {
        match *self {
            IrArg::Register(r) => r.0,
            IrArg::Literal(id) => id,
            IrArg::Static(id) => id,
        }
    }
}

#[derive(Clone, Copy, Debug, PartialEq, Eq, Structural)]
pub enum IrRegisterKind {
    Local,
    Stack,
}

/// A register in a pattern, bound to a name
#[derive(Clone, Copy, Debug, PartialEq, Eq, Structural)]
pub struct IrRegister(pub Ident, pub IrRegisterKind);

/// A label in a pattern, bound to a name
#[derive(Clone, Copy, Debug, PartialEq, Eq, Structural)]
pub struct IrLabel(pub Ident);

#[derive(Debug)]
pub struct AsmInstr {
    pub mnemonic: Spanned<Ident>,
    pub args: Vec<Spanned<AsmArg>>,
}

/// An argument of an assembly instruction in a rule
#[derive(Debug)]
pub enum AsmArg {
    /// A machine register
    Register(MachineRegister),
    /// A fresh virtual register (`%(name)`)
    NewRegister(Spanned<Ident>),
    /// An argument of the matched IR (`$name`)
    IrArg(Spanned<Ident>),
    /// A number
    Literal(Spanned<Ident>),
    /// A stack slot (`{name}`)
    StackSlot(Spanned<Ident>),
    /// A label (`.name`)
    Label(Spanned<Ident>),
    /// A memory operand `size ptr [base + index * scale + disp]`
    Indirect {
        size: Option<OperandSize>,
        base: Option<Box<AsmArg>>,
        index: Option<(Box<AsmArg>, u32)>,
        disp: Option<i32>,
    },
}

} // verus!
