//! The instruction selection rules
//!
//! Each IR instruction is translated by a fixed sequence of x86 instructions
//! that still use virtual registers (`%name`):
//!
//! - `add`, `sub`, `and`, `or`, `xor`: `mov dst, lhs; op dst, rhs`
//! - `mul`: the three-operand `imul` where one operand is an immediate value
//! - `div`, `mod`: `idiv` with the dividend in `rax`, the quotient taken from
//!   `rax` and the remainder from `rdx` (an immediate divisor goes via `rcx`)
//! - `shl`, `shr`: `sal`/`sar` by an immediate value or by `cl`
//! - `pow`: a call of the intrinsic `pow`
//! - comparisons: `cmp` and `setCC cl` (inverted when the left-hand side is
//!   an immediate value), or `cmp` and `jCC` when a branch on the result
//!   directly follows
//! - memory: `alloca` moves the stack pointer, `load`/`store` move through
//!   the address
//! - `ret`, `br`, `jmp`: `leave; ret`, a test and conditional jump, `jmp`

use vstd::prelude::*;
use crate::back::machine::MachineRegister;
use crate::back::machine::assembly::{Argument, AssemblyLine, Block, Instruction, OperandSize, Register};
use crate::back::machine::cconv::{is_instruction, translate_call, translate_value, value_argument};
use crate::driver::interner::Ident;
use crate::middle::ir;

verus! {

/// An instruction without a label, as a mnemonic and arguments
pub type InstrView = (Seq<char>, Seq<Argument>);

/// The view of a line: the mnemonic and arguments of an instruction without a
/// label
pub open spec fn line_view(l: AssemblyLine) -> Option<InstrView> {
    match l {
        AssemblyLine::Instruction(i) => if i.label is None { Some((i.mnemonic@, i.args@)) } else { None },
        AssemblyLine::Directive(_) => None,
    }
}

pub open spec fn views_of(lines: Seq<AssemblyLine>) -> Seq<Option<InstrView>> {
    lines.map_values(|l: AssemblyLine| line_view(l))
}

/// `new` starts with the lines of `old`
pub open spec fn prefix_kept(old: Seq<AssemblyLine>, new: Seq<AssemblyLine>) -> bool {
    &&& old.len() <= new.len()
    &&& forall|k: int| 0 <= k < old.len() ==> #[trigger] new[k] == old[k]
}

pub open spec fn as_lines(vs: Seq<InstrView>) -> Seq<Option<InstrView>> {
    vs.map_values(|v: InstrView| Some(v))
}

pub open spec fn mreg(r: MachineRegister) -> Argument {
    Argument::Register(Register::Machine(r))
}

/// The argument of a destination register
pub open spec fn dst_arg(r: ir::Register) -> Argument {
    value_argument(ir::Value::Register(r))
}

/// The memory an IR address refers to
pub open spec fn memory_arg(v: ir::Value) -> Argument {
    match v {
        ir::Value::Register(ir::Register::Local(r)) => Argument::Indirect {
            size: Some(OperandSize::QWord),
            base: Some(Register::Virtual(r)),
            index: None,
            disp: None,
        },
        _ => value_argument(v),
    }
}

/// The conditional jump of a comparison (`inverted`: with the operands
/// swapped)
pub open spec fn jump_mnemonic(c: ir::CmpOp, inverted: bool) -> Seq<char> {
    match c {
        ir::CmpOp::Lt => if inverted { "jge"@ } else { "jl"@ },
        ir::CmpOp::Le => if inverted { "jg"@ } else { "jle"@ },
        ir::CmpOp::Eq => if inverted { "jne"@ } else { "je"@ },
        ir::CmpOp::Ne => if inverted { "je"@ } else { "jne"@ },
        ir::CmpOp::Ge => if inverted { "jl"@ } else { "jge"@ },
        ir::CmpOp::Gt => if inverted { "jle"@ } else { "jg"@ },
    }
}

/// The conditional set of a comparison (`inverted`: with the operands
/// swapped)
pub open spec fn set_mnemonic(c: ir::CmpOp, inverted: bool) -> Seq<char> {
    match c {
        ir::CmpOp::Lt => if inverted { "setge"@ } else { "setl"@ },
        ir::CmpOp::Le => if inverted { "setg"@ } else { "setle"@ },
        ir::CmpOp::Eq => if inverted { "setne"@ } else { "sete"@ },
        ir::CmpOp::Ne => if inverted { "sete"@ } else { "setne"@ },
        ir::CmpOp::Ge => if inverted { "setl"@ } else { "setge"@ },
        ir::CmpOp::Gt => if inverted { "setle"@ } else { "setg"@ },
    }
}

/// The two-operand x86 instruction of an arithmetic or bitwise operator
pub open spec fn arith_mnemonic(op: ir::InfixOp) -> Seq<char> {
    match op {
        ir::InfixOp::Add => "add"@,
        ir::InfixOp::Sub => "sub"@,
        ir::InfixOp::Mul => "imul"@,
        ir::InfixOp::And => "and"@,
        ir::InfixOp::Or => "or"@,
        ir::InfixOp::Xor => "xor"@,
        ir::InfixOp::Shl => "sal"@,
        ir::InfixOp::Shr => "sar"@,
        _ => "idiv"@,
    }
}

/// The translation of a binary operation
pub open spec fn binop_rule(op: ir::InfixOp, l: ir::Value, r: ir::Value, dst: ir::Register, pow: Ident) -> Seq<InstrView> {
    let d = dst_arg(dst);
    let la = value_argument(l);
    let ra = value_argument(r);
    match op {
        ir::InfixOp::Mul => if l is Register && r is Immediate {
            seq![("imul"@, seq![d, la, ra])]
        } else if l is Immediate && r is Register {
            seq![("imul"@, seq![d, ra, la])]
        } else {
            seq![("mov"@, seq![d, la]), ("imul"@, seq![d, ra])]
        },
        ir::InfixOp::Div | ir::InfixOp::Mod => {
            let result = if op == ir::InfixOp::Div { mreg(MachineRegister::RAX) } else { mreg(MachineRegister::RDX) };
            seq![("xor"@, seq![mreg(MachineRegister::RDX), mreg(MachineRegister::RDX)]), ("mov"@, seq![mreg(MachineRegister::RAX), la])]
                + (if r is Immediate {
                    seq![("mov"@, seq![mreg(MachineRegister::RCX), ra]), ("idiv"@, seq![mreg(MachineRegister::RCX)])]
                } else {
                    seq![("idiv"@, seq![ra])]
                })
                + seq![("mov"@, seq![d, result])]
        },
        ir::InfixOp::Shl | ir::InfixOp::Shr => if r is Immediate {
            seq![("mov"@, seq![d, la]), (arith_mnemonic(op), seq![d, ra])]
        } else {
            seq![("mov"@, seq![d, la]), ("mov"@, seq![mreg(MachineRegister::RCX), ra]), (arith_mnemonic(op), seq![d, mreg(MachineRegister::CL)])]
        },
        ir::InfixOp::Pow => seq![("push"@, seq![la]), ("push"@, seq![ra]), ("call"@, seq![Argument::Label(pow)]),
            ("mov"@, seq![d, mreg(MachineRegister::RAX)])],
        _ => seq![("mov"@, seq![d, la]), (arith_mnemonic(op), seq![d, ra])],
    }
}

/// The value of an argument in a machine state that gives each register or
/// place a value: an immediate value is itself
pub open spec fn arg_value(s: spec_fn(Argument) -> int, a: Argument) -> int {
    match a {
        Argument::Immediate(w) => w as int,
        _ => s(a),
    }
}

/// The state with `a` set to `v`
pub open spec fn set_arg(s: spec_fn(Argument) -> int, a: Argument, v: int) -> spec_fn(Argument) -> int {
    |x: Argument| if x == a { v } else { s(x) }
}

/// The quotient of a division as x86 `idiv` rounds it: toward zero
pub open spec fn trunc_div(a: int, b: int) -> int {
    let q = (if a >= 0 { a } else { -a }) / (if b >= 0 { b } else { -b });
    if (a >= 0) == (b >= 0) { q } else { -q }
}

/// The remainder that goes with `trunc_div`
pub open spec fn trunc_rem(a: int, b: int) -> int {
    a - b * trunc_div(a, b)
}

/// What one x86 instruction does to a state: `mov d, s` copies, `xor r, r`
/// clears, and `idiv s` divides `rdx:rax` by `s`, leaving the quotient in
/// `rax` and the remainder in `rdx`; other instructions are not modelled
pub open spec fn x86_step(s: spec_fn(Argument) -> int, i: InstrView) -> spec_fn(Argument) -> int {
    let args = i.1;
    if i.0 == "mov"@ && args.len() == 2 {
        set_arg(s, args[0], arg_value(s, args[1]))
    } else if i.0 == "xor"@ && args.len() == 2 && args[0] == args[1] {
        set_arg(s, args[0], 0)
    } else if i.0 == "idiv"@ && args.len() == 1 {
        let n = arg_value(s, mreg(MachineRegister::RDX)) * 0x1_0000_0000_0000_0000 + arg_value(s, mreg(MachineRegister::RAX));
        let d = arg_value(s, args[0]);
        set_arg(set_arg(s, mreg(MachineRegister::RAX), trunc_div(n, d)), mreg(MachineRegister::RDX), trunc_rem(n, d))
    } else if i.0 == "add"@ && args.len() == 2 {
        set_arg(s, args[0], arg_value(s, args[0]) + arg_value(s, args[1]))
    } else if i.0 == "sub"@ && args.len() == 2 {
        set_arg(s, args[0], arg_value(s, args[0]) - arg_value(s, args[1]))
    } else if i.0 == "imul"@ && args.len() == 2 {
        set_arg(s, args[0], arg_value(s, args[0]) * arg_value(s, args[1]))
    } else if i.0 == "imul"@ && args.len() == 3 {
        set_arg(s, args[0], arg_value(s, args[1]) * arg_value(s, args[2]))
    } else if i.0 == "and"@ && args.len() == 2 {
        set_arg(s, args[0], ((arg_value(s, args[0]) as u64) & (arg_value(s, args[1]) as u64)) as int)
    } else if i.0 == "or"@ && args.len() == 2 {
        set_arg(s, args[0], ((arg_value(s, args[0]) as u64) | (arg_value(s, args[1]) as u64)) as int)
    } else if i.0 == "xor"@ && args.len() == 2 {
        set_arg(s, args[0], ((arg_value(s, args[0]) as u64) ^ (arg_value(s, args[1]) as u64)) as int)
    } else {
        s
    }
}

/// The mnemonics the machine model tells apart are distinct
proof fn lemma_mnemonics_distinct()
    ensures
        "xor"@ != "mov"@, "idiv"@ != "mov"@, "idiv"@ != "xor"@,
        "add"@ != "mov"@, "add"@ != "xor"@, "add"@ != "idiv"@,
        "sub"@ != "mov"@, "sub"@ != "xor"@, "sub"@ != "idiv"@, "sub"@ != "add"@,
        "imul"@ != "mov"@, "imul"@ != "xor"@, "imul"@ != "idiv"@, "imul"@ != "add"@, "imul"@ != "sub"@,
        "and"@ != "mov"@, "and"@ != "xor"@, "and"@ != "idiv"@, "and"@ != "add"@, "and"@ != "sub"@, "and"@ != "imul"@,
        "or"@ != "mov"@, "or"@ != "xor"@, "or"@ != "idiv"@, "or"@ != "add"@, "or"@ != "sub"@, "or"@ != "imul"@,
        "or"@ != "and"@,
{
    reveal_strlit("mov");
    reveal_strlit("xor");
    reveal_strlit("idiv");
    reveal_strlit("add");
    reveal_strlit("sub");
    reveal_strlit("imul");
    reveal_strlit("and");
    reveal_strlit("or");
    assert("xor"@[0] != "mov"@[0]);
    assert("add"@[0] != "mov"@[0] && "add"@[0] != "xor"@[0]);
    assert("sub"@[0] != "mov"@[0] && "sub"@[0] != "xor"@[0] && "sub"@[0] != "add"@[0]);
    assert("imul"@[1] != "idiv"@[1]);
    assert("and"@[1] != "add"@[1] && "and"@[0] != "mov"@[0] && "and"@[0] != "xor"@[0] && "and"@[0] != "sub"@[0]);
}

/// The code selected for an IR addition, subtraction, multiplication or
/// bitwise operation leaves what the operation computes in the destination,
/// where the destination is not the right-hand operand
pub proof fn law_arithmetic_code_computes_operation(s: spec_fn(Argument) -> int, op: ir::InfixOp,
    l: ir::Value, r: ir::Value, dst: ir::Register, pow: Ident)
    requires
        op == ir::InfixOp::Add || op == ir::InfixOp::Sub || op == ir::InfixOp::Mul
            || op == ir::InfixOp::And || op == ir::InfixOp::Or || op == ir::InfixOp::Xor,
        dst_arg(dst) != value_argument(r),
    ensures
        arg_value(x86_run(s, binop_rule(op, l, r, dst, pow)), dst_arg(dst))
            == ir::ir_infix_value(op, arg_value(s, value_argument(l)), arg_value(s, value_argument(r))),
{
    lemma_mnemonics_distinct();
    reveal_with_fuel(x86_run, 3);
    let is = binop_rule(op, l, r, dst, pow);
    let a = arg_value(s, value_argument(l));
    let b = arg_value(s, value_argument(r));
    let d = dst_arg(dst);
    let la = value_argument(l);
    let ra = value_argument(r);
    assert(d is Register || d is StackSlot);
    if op == ir::InfixOp::Mul && l is Register && r is Immediate {
        assert(is =~= seq![("imul"@, seq![d, la, ra])]);
        assert(is.drop_first() =~= Seq::<InstrView>::empty());
        assert(arg_value(x86_step(s, is[0]), d) == a * b);
    } else if op == ir::InfixOp::Mul && l is Immediate && r is Register {
        assert(is =~= seq![("imul"@, seq![d, ra, la])]);
        assert(is.drop_first() =~= Seq::<InstrView>::empty());
        assert(arg_value(x86_step(s, is[0]), d) == b * a);
        assert(b * a == a * b) by (nonlinear_arith);
    } else {
        let m = if op == ir::InfixOp::Mul { "imul"@ } else { arith_mnemonic(op) };
        assert(is =~= seq![("mov"@, seq![d, la]), (m, seq![d, ra])]);
        let s1 = x86_step(s, is[0]);
        assert(arg_value(s1, d) == a);
        assert(arg_value(s1, ra) == b);
        assert(is.drop_first()[0] == is[1]);
        assert(is.drop_first().drop_first() =~= Seq::<InstrView>::empty());
        reveal_strlit("add");
        reveal_strlit("sub");
        reveal_strlit("imul");
        reveal_strlit("and");
        reveal_strlit("or");
        reveal_strlit("xor");
    }
}

/// What a sequence of x86 instructions does to a state
pub open spec fn x86_run(s: spec_fn(Argument) -> int, is: Seq<InstrView>) -> spec_fn(Argument) -> int
    decreases is.len(),
{
    if is.len() == 0 { s } else { x86_run(x86_step(s, is[0]), is.drop_first()) }
}

/// The code selected for an IR division leaves the quotient of its operands
/// in the destination, and the code for a remainder the remainder (for a
/// dividend that is not negative, which `xor rdx, rdx` extends correctly)
pub proof fn law_division_code_computes_quotient_and_remainder(s: spec_fn(Argument) -> int, op: ir::InfixOp,
    l: ir::Value, r: ir::Value, dst: ir::Register, pow: Ident)
    requires
        op == ir::InfixOp::Div || op == ir::InfixOp::Mod,
        arg_value(s, value_argument(l)) >= 0,
        arg_value(s, value_argument(r)) != 0,
    ensures
        op == ir::InfixOp::Div ==> arg_value(x86_run(s, binop_rule(op, l, r, dst, pow)), dst_arg(dst))
            == trunc_div(arg_value(s, value_argument(l)), arg_value(s, value_argument(r))),
        op == ir::InfixOp::Mod ==> arg_value(x86_run(s, binop_rule(op, l, r, dst, pow)), dst_arg(dst))
            == trunc_rem(arg_value(s, value_argument(l)), arg_value(s, value_argument(r))),
{
    reveal_strlit("mov");
    reveal_strlit("xor");
    reveal_strlit("idiv");
    lemma_mnemonics_distinct();
    reveal_with_fuel(x86_run, 6);
    let is = binop_rule(op, l, r, dst, pow);
    let a = arg_value(s, value_argument(l));
    let b = arg_value(s, value_argument(r));
    let rax = mreg(MachineRegister::RAX);
    let rdx = mreg(MachineRegister::RDX);
    let rcx = mreg(MachineRegister::RCX);
    let la = value_argument(l);
    let ra = value_argument(r);
    let s1 = x86_step(s, is[0]);
    assert(is[0] == ("xor"@, seq![rdx, rdx]));
    assert(arg_value(s1, rdx) == 0);
    let s2 = x86_step(s1, is[1]);
    assert(is[1] == ("mov"@, seq![rax, la]));
    assert(ra != rax && ra != rdx && la != rdx);
    assert(arg_value(s2, rax) == a);
    assert(arg_value(s2, rdx) == 0);
    assert(arg_value(s2, ra) == b);
    if r is Immediate {
        let s3 = x86_step(s2, is[2]);
        assert(is[2] == ("mov"@, seq![rcx, ra]));
        assert(arg_value(s3, rcx) == b);
        assert(arg_value(s3, rax) == a && arg_value(s3, rdx) == 0);
        let s4 = x86_step(s3, is[3]);
        assert(is[3] == ("idiv"@, seq![rcx]));
        assert(arg_value(s4, rax) == trunc_div(a, b));
        assert(arg_value(s4, rdx) == trunc_rem(a, b));
        let s5 = x86_step(s4, is[4]);
        assert(is.len() == 5);
        assert(is.drop_first().drop_first().drop_first().drop_first().drop_first() =~= Seq::<InstrView>::empty());
        assert(x86_run(s, is) == x86_run(s5, Seq::<InstrView>::empty())) by {
            assert(is.drop_first()[0] == is[1]);
            assert(is.drop_first().drop_first()[0] == is[2]);
            assert(is.drop_first().drop_first().drop_first()[0] == is[3]);
            assert(is.drop_first().drop_first().drop_first().drop_first()[0] == is[4]);
        }
    } else {
        let s3 = x86_step(s2, is[2]);
        assert(is[2] == ("idiv"@, seq![ra]));
        assert(arg_value(s3, rax) == trunc_div(a, b));
        assert(arg_value(s3, rdx) == trunc_rem(a, b));
        let s4 = x86_step(s3, is[3]);
        assert(is.len() == 4);
        assert(is.drop_first().drop_first().drop_first().drop_first() =~= Seq::<InstrView>::empty());
        assert(x86_run(s, is) == x86_run(s4, Seq::<InstrView>::empty())) by {
            assert(is.drop_first()[0] == is[1]);
            assert(is.drop_first().drop_first()[0] == is[2]);
            assert(is.drop_first().drop_first().drop_first()[0] == is[3]);
        }
    }
}

/// The translation of a comparison whose result is stored
pub open spec fn compare_rule(c: ir::CmpOp, l: ir::Value, r: ir::Value, dst: ir::Register) -> Seq<InstrView> {
    let inverted = l is Immediate;
    let first = if inverted {
        ("cmp"@, seq![value_argument(r), value_argument(l)])
    } else {
        ("cmp"@, seq![value_argument(l), value_argument(r)])
    };
    seq![first, (set_mnemonic(c, inverted), seq![mreg(MachineRegister::CL)]),
        ("and"@, seq![mreg(MachineRegister::CL), Argument::Immediate(1)]),
        ("movzx"@, seq![dst_arg(dst), mreg(MachineRegister::CL)])]
}

/// The translation of a comparison directly followed by a branch on it
pub open spec fn compare_branch_rule(c: ir::CmpOp, l: ir::Value, r: ir::Value, conseq: ir::Label, altern: ir::Label) -> Seq<InstrView> {
    if l is Immediate {
        seq![("cmp"@, seq![value_argument(r), value_argument(l)]), (jump_mnemonic(c, true), seq![Argument::Label(altern.0)]),
            ("jmp"@, seq![Argument::Label(conseq.0)])]
    } else {
        seq![("cmp"@, seq![value_argument(l), value_argument(r)]), (jump_mnemonic(c, false), seq![Argument::Label(conseq.0)]),
            ("jmp"@, seq![Argument::Label(altern.0)])]
    }
}

/// The translation of an IR instruction
pub open spec fn instruction_rule(i: ir::Instruction, pow: Ident) -> Seq<InstrView> {
    match i {
        ir::Instruction::BinOp { op, lhs, rhs, dst } => binop_rule(op, lhs, rhs, dst, pow),
        ir::Instruction::UnOp { op, item, dst } => seq![("mov"@, seq![dst_arg(dst), value_argument(item)]),
            (if op == ir::PrefixOp::Neg { "neg"@ } else { "not"@ }, seq![dst_arg(dst)])],
        ir::Instruction::Cmp { op, lhs, rhs, dst } => compare_rule(op, lhs, rhs, dst),
        ir::Instruction::Alloca { dst } => seq![("mov"@, seq![dst_arg(dst), mreg(MachineRegister::RSP)]),
            ("sub"@, seq![mreg(MachineRegister::RSP), Argument::Immediate(4)])],
        ir::Instruction::Load { src, dst } => seq![("mov"@, seq![dst_arg(dst), memory_arg(src)])],
        ir::Instruction::Store { src, dst } => seq![("mov"@, seq![memory_arg(dst), value_argument(src)])],
        ir::Instruction::Call { name, args, dst } =>
            args@.map_values(|a: ir::Value| ("push"@, seq![value_argument(a)]))
            + seq![("call"@, seq![Argument::Label(name)]),
                ("mov"@, seq![Argument::Register(Register::Virtual(ir::register_ident(dst))), mreg(MachineRegister::RAX)])],
    }
}

/// The translation of a control flow instruction
pub open spec fn last_rule(c: ir::ControlFlowInstruction) -> Seq<InstrView> {
    match c {
        ir::ControlFlowInstruction::Return { value } => match value {
            Some(v) => seq![("mov"@, seq![mreg(MachineRegister::RAX), value_argument(v)]), ("leave"@, Seq::empty()), ("ret"@, Seq::empty())],
            None => seq![("leave"@, Seq::empty()), ("ret"@, Seq::empty())],
        },
        ir::ControlFlowInstruction::Branch { cond, conseq, altern } => seq![("cmp"@, seq![value_argument(cond), Argument::Immediate(0)]),
            ("jne"@, seq![Argument::Label(conseq.0)]), ("jmp"@, seq![Argument::Label(altern.0)])],
        ir::ControlFlowInstruction::Jump { dest } => seq![("jmp"@, seq![Argument::Label(dest.0)])],
        ir::ControlFlowInstruction::NotYetProcessed => Seq::empty(),
    }
}

/// Whether a comparison and the control flow instruction after it are
/// translated together: a branch on the comparison's result
pub open spec fn fuses(i: ir::Instruction, last: ir::ControlFlowInstruction) -> bool {
    &&& i is Cmp
    &&& last matches ir::ControlFlowInstruction::Branch { cond, .. }
    &&& cond == ir::Value::Register(i->Cmp_dst)
}

// --- Emitting -----------------------------------------------------------------

/// Append an instruction without a label
fn emit(code: &mut Block, mnemonic: &'static str, args: Vec<Argument>)
    ensures
        views_of(final(code).code@) == views_of(old(code).code@).push(Some((mnemonic@, args@))),
        final(code).label == old(code).label,
        final(code).phis == old(code).phis,
        final(code).successors == old(code).successors,
        prefix_kept(old(code).code@, final(code).code@),
{
    let ghost a = args@;
    code.emit_instruction(Instruction::new(mnemonic, args));
    assert(prefix_kept(old(code).code@, code.code@));
    assert(views_of(code.code@) =~= views_of(old(code).code@).push(Some((mnemonic@, a))));
}

fn emit0(code: &mut Block, mnemonic: &'static str)
    ensures
        views_of(final(code).code@) == views_of(old(code).code@).push(Some((mnemonic@, Seq::<Argument>::empty()))),
        final(code).label == old(code).label,
        final(code).phis == old(code).phis,
        final(code).successors == old(code).successors,
        prefix_kept(old(code).code@, final(code).code@),
{
    let args: Vec<Argument> = Vec::new();
    assert(args@ =~= Seq::<Argument>::empty());
    emit(code, mnemonic, args);
}

fn emit1(code: &mut Block, mnemonic: &'static str, a: Argument)
    ensures
        views_of(final(code).code@) == views_of(old(code).code@).push(Some((mnemonic@, seq![a]))),
        final(code).label == old(code).label,
        final(code).phis == old(code).phis,
        final(code).successors == old(code).successors,
        prefix_kept(old(code).code@, final(code).code@),
{
    let mut args: Vec<Argument> = Vec::new();
    args.push(a);
    assert(args@ =~= seq![a]);
    emit(code, mnemonic, args);
}

fn emit2(code: &mut Block, mnemonic: &'static str, a: Argument, b: Argument)
    ensures
        views_of(final(code).code@) == views_of(old(code).code@).push(Some((mnemonic@, seq![a, b]))),
        final(code).label == old(code).label,
        final(code).phis == old(code).phis,
        final(code).successors == old(code).successors,
        prefix_kept(old(code).code@, final(code).code@),
{
    let mut args: Vec<Argument> = Vec::new();
    args.push(a);
    args.push(b);
    assert(args@ =~= seq![a, b]);
    emit(code, mnemonic, args);
}

fn emit3(code: &mut Block, mnemonic: &'static str, a: Argument, b: Argument, c: Argument)
    ensures
        views_of(final(code).code@) == views_of(old(code).code@).push(Some((mnemonic@, seq![a, b, c]))),
        final(code).label == old(code).label,
        final(code).phis == old(code).phis,
        final(code).successors == old(code).successors,
        prefix_kept(old(code).code@, final(code).code@),
{
    let mut args: Vec<Argument> = Vec::new();
    args.push(a);
    args.push(b);
    args.push(c);
    assert(args@ =~= seq![a, b, c]);
    emit(code, mnemonic, args);
}

fn machine(r: MachineRegister) -> (a: Argument)
    ensures
        a == mreg(r),
{
    Argument::Register(Register::Machine(r))
}

fn memory(v: ir::Value) -> (a: Argument)
    ensures
        a == memory_arg(v),
{
    match v {
        ir::Value::Register(ir::Register::Local(r)) => Argument::Indirect {
            size: Some(OperandSize::QWord),
            base: Some(Register::Virtual(r)),
            index: None,
            disp: None,
        },
        _ => translate_value(&v),
    }
}

fn jump_name(c: ir::CmpOp, inverted: bool) -> (r: &'static str)
    ensures
        r@ == jump_mnemonic(c, inverted),
{
    match c {
        ir::CmpOp::Lt => if inverted { "jge" } else { "jl" },
        ir::CmpOp::Le => if inverted { "jg" } else { "jle" },
        ir::CmpOp::Eq => if inverted { "jne" } else { "je" },
        ir::CmpOp::Ne => if inverted { "je" } else { "jne" },
        ir::CmpOp::Ge => if inverted { "jl" } else { "jge" },
        ir::CmpOp::Gt => if inverted { "jle" } else { "jg" },
    }
}

fn set_name(c: ir::CmpOp, inverted: bool) -> (r: &'static str)
    ensures
        r@ == set_mnemonic(c, inverted),
{
    match c {
        ir::CmpOp::Lt => if inverted { "setge" } else { "setl" },
        ir::CmpOp::Le => if inverted { "setg" } else { "setle" },
        ir::CmpOp::Eq => if inverted { "setne" } else { "sete" },
        ir::CmpOp::Ne => if inverted { "sete" } else { "setne" },
        ir::CmpOp::Ge => if inverted { "setl" } else { "setge" },
        ir::CmpOp::Gt => if inverted { "setle" } else { "setg" },
    }
}

fn arith_name(op: ir::InfixOp) -> (r: &'static str)
    ensures
        r@ == arith_mnemonic(op),
{
    match op {
        ir::InfixOp::Add => "add",
        ir::InfixOp::Sub => "sub",
        ir::InfixOp::Mul => "imul",
        ir::InfixOp::And => "and",
        ir::InfixOp::Or => "or",
        ir::InfixOp::Xor => "xor",
        ir::InfixOp::Shl => "sal",
        ir::InfixOp::Shr => "sar",
        _ => "idiv",
    }
}

/// Translate a binary operation
pub fn trans_binop(code: &mut Block, op: ir::InfixOp, l: ir::Value, r: ir::Value, dst: ir::Register, pow: Ident)
    ensures
        views_of(final(code).code@) == views_of(old(code).code@) + as_lines(binop_rule(op, l, r, dst, pow)),
        final(code).label == old(code).label,
        final(code).phis == old(code).phis,
        final(code).successors == old(code).successors,
        prefix_kept(old(code).code@, final(code).code@),
{
    let d = translate_value(&ir::Value::Register(dst));
    let la = translate_value(&l);
    let ra = translate_value(&r);
    match op {
        ir::InfixOp::Mul => {
            if matches!(l, ir::Value::Register(_)) && matches!(r, ir::Value::Immediate(_)) {
                emit3(code, "imul", d, la, ra);
            } else if matches!(l, ir::Value::Immediate(_)) && matches!(r, ir::Value::Register(_)) {
                emit3(code, "imul", d, ra, la);
            } else {
                emit2(code, "mov", d, la);
                emit2(code, "imul", d, ra);
            }
        },
        ir::InfixOp::Div | ir::InfixOp::Mod => {
            emit2(code, "xor", machine(MachineRegister::RDX), machine(MachineRegister::RDX));
            emit2(code, "mov", machine(MachineRegister::RAX), la);
            if matches!(r, ir::Value::Immediate(_)) {
                emit2(code, "mov", machine(MachineRegister::RCX), ra);
                emit1(code, "idiv", machine(MachineRegister::RCX));
            } else {
                emit1(code, "idiv", ra);
            }
            let result = if op == ir::InfixOp::Div { machine(MachineRegister::RAX) } else { machine(MachineRegister::RDX) };
            emit2(code, "mov", d, result);
        },
        ir::InfixOp::Shl | ir::InfixOp::Shr => {
            emit2(code, "mov", d, la);
            if matches!(r, ir::Value::Immediate(_)) {
                emit2(code, arith_name(op), d, ra);
            } else {
                emit2(code, "mov", machine(MachineRegister::RCX), ra);
                emit2(code, arith_name(op), d, machine(MachineRegister::CL));
            }
        },
        ir::InfixOp::Pow => {
            emit1(code, "push", la);
            emit1(code, "push", ra);
            emit1(code, "call", Argument::Label(pow));
            emit2(code, "mov", d, machine(MachineRegister::RAX));
        },
        _ => {
            emit2(code, "mov", d, la);
            emit2(code, arith_name(op), d, ra);
        },
    }
    assert(views_of(code.code@) =~= views_of(old(code).code@) + as_lines(binop_rule(op, l, r, dst, pow)));
}

/// Translate a comparison whose result is stored
pub fn trans_compare(code: &mut Block, c: ir::CmpOp, l: ir::Value, r: ir::Value, dst: ir::Register)
    ensures
        views_of(final(code).code@) == views_of(old(code).code@) + as_lines(compare_rule(c, l, r, dst)),
        final(code).label == old(code).label,
        final(code).phis == old(code).phis,
        final(code).successors == old(code).successors,
        prefix_kept(old(code).code@, final(code).code@),
{
    let inverted = matches!(l, ir::Value::Immediate(_));
    if inverted {
        emit2(code, "cmp", translate_value(&r), translate_value(&l));
    } else {
        emit2(code, "cmp", translate_value(&l), translate_value(&r));
    }
    emit1(code, set_name(c, inverted), machine(MachineRegister::CL));
    emit2(code, "and", machine(MachineRegister::CL), Argument::Immediate(1));
    emit2(code, "movzx", translate_value(&ir::Value::Register(dst)), machine(MachineRegister::CL));
    assert(views_of(code.code@) =~= views_of(old(code).code@) + as_lines(compare_rule(c, l, r, dst)));
}

/// Translate a comparison and the branch on its result
pub fn trans_compare_branch(code: &mut Block, c: ir::CmpOp, l: ir::Value, r: ir::Value, conseq: ir::Label, altern: ir::Label)
    ensures
        views_of(final(code).code@) == views_of(old(code).code@) + as_lines(compare_branch_rule(c, l, r, conseq, altern)),
        final(code).label == old(code).label,
        final(code).phis == old(code).phis,
        final(code).successors == old(code).successors,
        prefix_kept(old(code).code@, final(code).code@),
{
    if matches!(l, ir::Value::Immediate(_)) {
        // Inverted comparison
        emit2(code, "cmp", translate_value(&r), translate_value(&l));
        emit1(code, jump_name(c, true), Argument::Label(altern.0));
        emit1(code, "jmp", Argument::Label(conseq.0));
    } else {
        emit2(code, "cmp", translate_value(&l), translate_value(&r));
        emit1(code, jump_name(c, false), Argument::Label(conseq.0));
        emit1(code, "jmp", Argument::Label(altern.0));
    }
    assert(views_of(code.code@) =~= views_of(old(code).code@) + as_lines(compare_branch_rule(c, l, r, conseq, altern)));
}

/// Translate an IR instruction
pub fn trans_instruction(code: &mut Block, i: &ir::Instruction, pow: Ident)
    ensures
        views_of(final(code).code@) == views_of(old(code).code@) + as_lines(instruction_rule(*i, pow)),
        final(code).label == old(code).label,
        final(code).phis == old(code).phis,
        final(code).successors == old(code).successors,
        prefix_kept(old(code).code@, final(code).code@),
{
    match i {
        ir::Instruction::BinOp { op, lhs, rhs, dst } => trans_binop(code, *op, *lhs, *rhs, *dst, pow),
        ir::Instruction::UnOp { op, item, dst } => {
            let d = translate_value(&ir::Value::Register(*dst));
            emit2(code, "mov", d, translate_value(item));
            emit1(code, if *op == ir::PrefixOp::Neg { "neg" } else { "not" }, d);
            assert(views_of(code.code@) =~= views_of(old(code).code@) + as_lines(instruction_rule(*i, pow)));
        },
        ir::Instruction::Cmp { op, lhs, rhs, dst } => trans_compare(code, *op, *lhs, *rhs, *dst),
        ir::Instruction::Alloca { dst } => {
            emit2(code, "mov", translate_value(&ir::Value::Register(*dst)), machine(MachineRegister::RSP));
            emit2(code, "sub", machine(MachineRegister::RSP), Argument::Immediate(4));
            assert(views_of(code.code@) =~= views_of(old(code).code@) + as_lines(instruction_rule(*i, pow)));
        },
        ir::Instruction::Load { src, dst } => {
            emit2(code, "mov", translate_value(&ir::Value::Register(*dst)), memory(*src));
            assert(views_of(code.code@) =~= views_of(old(code).code@) + as_lines(instruction_rule(*i, pow)));
        },
        ir::Instruction::Store { src, dst } => {
            emit2(code, "mov", memory(*dst), translate_value(src));
            assert(views_of(code.code@) =~= views_of(old(code).code@) + as_lines(instruction_rule(*i, pow)));
        },
        ir::Instruction::Call { name, args, dst } => {
            let target = match dst {
                ir::Register::Local(id) => *id,
                ir::Register::Stack(id) => *id,
            };
            translate_call(code, *name, args.as_slice(), target);
            proof {
                let n = old(code).code@.len() as int;
                let want = views_of(old(code).code@) + as_lines(instruction_rule(*i, pow));
                assert forall|k: int| 0 <= k < want.len() implies #[trigger] views_of(code.code@)[k] == want[k] by {
                    if n <= k < n + args@.len() {
                        assert(is_instruction(code.code@[n + (k - n)], "push"@, seq![value_argument(args@[k - n])]));
                    }
                }
                assert(views_of(code.code@) =~= want);
            }
        },
    }
}

/// Translate a control flow instruction
pub fn trans_last(code: &mut Block, c: &ir::ControlFlowInstruction)
    ensures
        views_of(final(code).code@) == views_of(old(code).code@) + as_lines(last_rule(*c)),
        final(code).label == old(code).label,
        final(code).phis == old(code).phis,
        final(code).successors == old(code).successors,
        prefix_kept(old(code).code@, final(code).code@),
{
    match c {
        ir::ControlFlowInstruction::Return { value } => {
            if let Some(v) = value {
                emit2(code, "mov", machine(MachineRegister::RAX), translate_value(v));
            }
            emit0(code, "leave");
            emit0(code, "ret");
        },
        ir::ControlFlowInstruction::Branch { cond, conseq, altern } => {
            emit2(code, "cmp", translate_value(cond), Argument::Immediate(0));
            emit1(code, "jne", Argument::Label(conseq.0));
            emit1(code, "jmp", Argument::Label(altern.0));
        },
        ir::ControlFlowInstruction::Jump { dest } => emit1(code, "jmp", Argument::Label(dest.0)),
        ir::ControlFlowInstruction::NotYetProcessed => {},
    }
    assert(views_of(code.code@) =~= views_of(old(code).code@) + as_lines(last_rule(*c)));
}

} // verus!
