//! The textual form of the IR
//!
//! Registers print as `%name`, stack slots as `{name}`, statics as `@name`;
//! each instruction goes on a line of its own, indented by four spaces, after
//! its block's label.

use vstd::prelude::*;
use crate::driver::interner::{Ident, Interner};
use crate::middle::ir::{Block, CmpOp, ControlFlowInstruction, InfixOp, Instruction, Label, Phi, PrefixOp, Program,
    Register, Symbol, Value};
use crate::util::text::{decimal, push_chars, push_str, push_u64};

verus! {

/// The name of an identifier (empty if the interner does not know it)
pub open spec fn name_text(id: Ident, names: Seq<Seq<char>>) -> Seq<char> {
    if id.0 < names.len() { names[id.0 as int] } else { Seq::empty() }
}

pub open spec fn register_text(r: Register, names: Seq<Seq<char>>) -> Seq<char> {
    match r {
        Register::Local(id) => "%"@ + name_text(id, names),
        Register::Stack(id) => "{"@ + name_text(id, names) + "}"@,
    }
}

pub open spec fn value_text(v: Value, names: Seq<Seq<char>>) -> Seq<char> {
    match v {
        Value::Immediate(i) => decimal(i.0 as nat),
        Value::Register(r) => register_text(r, names),
        Value::Static(s) => "@"@ + name_text(s, names),
    }
}

pub open spec fn infix_text(op: InfixOp) -> Seq<char> {
    match op {
        InfixOp::Add => "add"@,
        InfixOp::Sub => "sub"@,
        InfixOp::Mul => "mul"@,
        InfixOp::Div => "div"@,
        InfixOp::Pow => "pow"@,
        InfixOp::Mod => "mod"@,
        InfixOp::Shl => "shl"@,
        InfixOp::Shr => "shr"@,
        InfixOp::And => "and"@,
        InfixOp::Or => "or"@,
        InfixOp::Xor => "xor"@,
    }
}

pub open spec fn prefix_text(op: PrefixOp) -> Seq<char> {
    match op {
        PrefixOp::Neg => "neg"@,
        PrefixOp::Not => "not"@,
    }
}

pub open spec fn cmp_text(op: CmpOp) -> Seq<char> {
    match op {
        CmpOp::Lt => "lt"@,
        CmpOp::Le => "le"@,
        CmpOp::Eq => "eq"@,
        CmpOp::Ne => "ne"@,
        CmpOp::Ge => "ge"@,
        CmpOp::Gt => "gt"@,
    }
}

/// Values separated by single spaces
pub open spec fn values_text(vs: Seq<Value>, names: Seq<Seq<char>>) -> Seq<char>
    decreases vs.len(),
{
    if vs.len() == 0 {
        Seq::empty()
    } else if vs.len() == 1 {
        value_text(vs[0], names)
    } else {
        values_text(vs.drop_last(), names) + " "@ + value_text(vs.last(), names)
    }
}

pub open spec fn inst_text(i: Instruction, names: Seq<Seq<char>>) -> Seq<char> {
    match i {
        Instruction::BinOp { op, lhs, rhs, dst } => register_text(dst, names) + " = "@ + infix_text(op) + " "@
            + value_text(lhs, names) + " "@ + value_text(rhs, names),
        Instruction::UnOp { op, item, dst } => register_text(dst, names) + " = "@ + prefix_text(op) + " "@
            + value_text(item, names),
        Instruction::Cmp { op, lhs, rhs, dst } => register_text(dst, names) + " = cmp "@ + cmp_text(op) + " "@
            + value_text(lhs, names) + " "@ + value_text(rhs, names),
        Instruction::Alloca { dst } => register_text(dst, names) + " = alloca"@,
        Instruction::Load { src, dst } => register_text(dst, names) + " = load "@ + value_text(src, names),
        Instruction::Store { src, dst } => "store "@ + value_text(src, names) + " "@ + value_text(dst, names),
        Instruction::Call { name, args, dst } => if args@.len() == 0 {
            register_text(dst, names) + " = call "@ + name_text(name, names)
        } else {
            register_text(dst, names) + " = call "@ + name_text(name, names) + " "@ + values_text(args@, names)
        },
    }
}

pub open spec fn cf_text(c: ControlFlowInstruction, names: Seq<Seq<char>>) -> Seq<char> {
    match c {
        ControlFlowInstruction::Return { value } => match value {
            Some(v) => "ret "@ + value_text(v, names),
            None => "ret void"@,
        },
        ControlFlowInstruction::Branch { cond, conseq, altern } => "br "@ + value_text(cond, names) + " "@
            + name_text(conseq.0, names) + " "@ + name_text(altern.0, names),
        ControlFlowInstruction::Jump { dest } => "jmp "@ + name_text(dest.0, names),
        ControlFlowInstruction::NotYetProcessed => "<...>"@,
    }
}

/// The sources of a phi function: `[ value, label ]` separated by spaces
pub open spec fn phi_sources_text(srcs: Seq<(Value, Label)>, names: Seq<Seq<char>>) -> Seq<char>
    decreases srcs.len(),
{
    if srcs.len() == 0 {
        Seq::empty()
    } else {
        let last = "[ "@ + value_text(srcs.last().0, names) + ", "@ + name_text(srcs.last().1.0, names) + " ]"@;
        if srcs.len() == 1 {
            last
        } else {
            phi_sources_text(srcs.drop_last(), names) + " "@ + last
        }
    }
}

pub open spec fn phi_text(p: Phi, names: Seq<Seq<char>>) -> Seq<char> {
    register_text(p.dst, names) + " = phi "@ + phi_sources_text(p.srcs@, names)
}

/// One indented line per phi function
pub open spec fn phis_text(ps: Seq<Phi>, names: Seq<Seq<char>>) -> Seq<char>
    decreases ps.len(),
{
    if ps.len() == 0 {
        Seq::empty()
    } else {
        phis_text(ps.drop_last(), names) + "    "@ + phi_text(ps.last(), names) + "\n"@
    }
}

/// One indented line per instruction
pub open spec fn insts_text(is: Seq<Instruction>, names: Seq<Seq<char>>) -> Seq<char>
    decreases is.len(),
{
    if is.len() == 0 {
        Seq::empty()
    } else {
        insts_text(is.drop_last(), names) + "    "@ + inst_text(is.last(), names) + "\n"@
    }
}

/// A block: its label, then its phi functions, instructions and control flow
/// instruction, one per line
pub open spec fn block_text(b: Block, names: Seq<Seq<char>>) -> Seq<char> {
    name_text(b.label.0, names) + ":\n"@ + phis_text(b.phis@, names) + insts_text(b.inst@, names)
        + "    "@ + cf_text(b.last, names) + "\n"@
}

pub open spec fn blocks_text(bs: Seq<Block>, names: Seq<Seq<char>>) -> Seq<char>
    decreases bs.len(),
{
    if bs.len() == 0 {
        Seq::empty()
    } else {
        blocks_text(bs.drop_last(), names) + block_text(bs.last(), names)
    }
}

/// Names separated by `, `
pub open spec fn args_text(args: Seq<Ident>, names: Seq<Seq<char>>) -> Seq<char>
    decreases args.len(),
{
    if args.len() == 0 {
        Seq::empty()
    } else if args.len() == 1 {
        name_text(args[0], names)
    } else {
        args_text(args.drop_last(), names) + ", "@ + name_text(args.last(), names)
    }
}

pub open spec fn symbol_text(s: Symbol, names: Seq<Seq<char>>) -> Seq<char> {
    match s {
        Symbol::Global { name, value } => "static "@ + name_text(name, names) + " = "@ + decimal(value.0 as nat) + "\n\n"@,
        Symbol::Function { name, body, args } => "fn "@ + name_text(name, names) + "("@ + args_text(args@, names) + ") {\n"@
            + blocks_text(body@, names) + "}\n\n"@,
    }
}

pub open spec fn program_text(p: Seq<Symbol>, names: Seq<Seq<char>>) -> Seq<char>
    decreases p.len(),
{
    if p.len() == 0 {
        Seq::empty()
    } else {
        program_text(p.drop_last(), names) + symbol_text(p.last(), names)
    }
}

// --- Printing -----------------------------------------------------------------

/// Append the name of an identifier
pub fn push_name(s: &mut String, id: Ident, interner: &Interner)
    ensures
        final(s)@ == old(s)@ + name_text(id, interner@),
{
    if id.0 < interner.len() {
        push_chars(s, interner.resolve(id));
    } else {
        assert(old(s)@ + Seq::<char>::empty() =~= old(s)@);
    }
}

pub fn push_register(s: &mut String, r: Register, interner: &Interner)
    ensures
        final(s)@ == old(s)@ + register_text(r, interner@),
{
    let ghost s0 = s@;
    match r {
        Register::Local(id) => {
            push_str(s, "%");
            push_name(s, id, interner);
            assert(s@ =~= s0 + register_text(r, interner@));
        },
        Register::Stack(id) => {
            push_str(s, "{");
            push_name(s, id, interner);
            push_str(s, "}");
            assert(s@ =~= s0 + register_text(r, interner@));
        },
    }
}

pub fn push_value(s: &mut String, v: Value, interner: &Interner)
    ensures
        final(s)@ == old(s)@ + value_text(v, interner@),
{
    let ghost s0 = s@;
    match v {
        Value::Immediate(i) => push_u64(s, i.0 as u64),
        Value::Register(r) => push_register(s, r, interner),
        Value::Static(id) => {
            push_str(s, "@");
            push_name(s, id, interner);
            assert(s@ =~= s0 + value_text(v, interner@));
        },
    }
}

pub fn infix_name(op: InfixOp) -> (r: &'static str)
    ensures
        r@ == infix_text(op),
{
    let r = match op {
        InfixOp::Add => "add",
        InfixOp::Sub => "sub",
        InfixOp::Mul => "mul",
        InfixOp::Div => "div",
        InfixOp::Pow => "pow",
        InfixOp::Mod => "mod",
        InfixOp::Shl => "shl",
        InfixOp::Shr => "shr",
        InfixOp::And => "and",
        InfixOp::Or => "or",
        InfixOp::Xor => "xor",
    };
    r
}

pub fn prefix_name(op: PrefixOp) -> (r: &'static str)
    ensures
        r@ == prefix_text(op),
{
    match op {
        PrefixOp::Neg => "neg",
        PrefixOp::Not => "not",
    }
}

pub fn cmp_name(op: CmpOp) -> (r: &'static str)
    ensures
        r@ == cmp_text(op),
{
    match op {
        CmpOp::Lt => "lt",
        CmpOp::Le => "le",
        CmpOp::Eq => "eq",
        CmpOp::Ne => "ne",
        CmpOp::Ge => "ge",
        CmpOp::Gt => "gt",
    }
}

/// Append values separated by single spaces
pub fn push_values(s: &mut String, vs: &Vec<Value>, interner: &Interner)
    ensures
        final(s)@ == old(s)@ + values_text(vs@, interner@),
{
    let ghost s0 = s@;
    let mut i: usize = 0;
    while i < vs.len()
        invariant
            i <= vs@.len(),
            s@ == s0 + values_text(vs@.subrange(0, i as int), interner@),
        decreases vs@.len() - i,
    {
        let ghost pre = s@;
        if i > 0 {
            push_str(s, " ");
        }
        push_value(s, vs[i], interner);
        proof {
            let p = vs@.subrange(0, i + 1);
            assert(p.drop_last() =~= vs@.subrange(0, i as int));
            assert(p.last() == vs@[i as int]);
            if i == 0 {
                assert(p =~= seq![vs@[0]]);
                assert(s@ =~= s0 + values_text(p, interner@));
            } else {
                assert(s@ =~= s0 + values_text(p, interner@));
            }
        }
        i = i + 1;
    }
    assert(vs@.subrange(0, vs@.len() as int) =~= vs@);
}

/// Append the text of an instruction
pub fn push_inst(s: &mut String, i: &Instruction, interner: &Interner)
    ensures
        final(s)@ == old(s)@ + inst_text(*i, interner@),
{
    let ghost s0 = s@;
    match i {
        Instruction::BinOp { op, lhs, rhs, dst } => {
            push_register(s, *dst, interner);
            push_str(s, " = ");
            push_str(s, infix_name(*op));
            push_str(s, " ");
            push_value(s, *lhs, interner);
            push_str(s, " ");
            push_value(s, *rhs, interner);
        },
        Instruction::UnOp { op, item, dst } => {
            push_register(s, *dst, interner);
            push_str(s, " = ");
            push_str(s, prefix_name(*op));
            push_str(s, " ");
            push_value(s, *item, interner);
        },
        Instruction::Cmp { op, lhs, rhs, dst } => {
            push_register(s, *dst, interner);
            push_str(s, " = cmp ");
            push_str(s, cmp_name(*op));
            push_str(s, " ");
            push_value(s, *lhs, interner);
            push_str(s, " ");
            push_value(s, *rhs, interner);
        },
        Instruction::Alloca { dst } => {
            push_register(s, *dst, interner);
            push_str(s, " = alloca");
        },
        Instruction::Load { src, dst } => {
            push_register(s, *dst, interner);
            push_str(s, " = load ");
            push_value(s, *src, interner);
        },
        Instruction::Store { src, dst } => {
            push_str(s, "store ");
            push_value(s, *src, interner);
            push_str(s, " ");
            push_value(s, *dst, interner);
        },
        Instruction::Call { name, args, dst } => {
            push_register(s, *dst, interner);
            push_str(s, " = call ");
            push_name(s, *name, interner);
            if args.len() > 0 {
                push_str(s, " ");
                push_values(s, args, interner);
            }
        },
    }
    assert(s@ =~= s0 + inst_text(*i, interner@));
}

/// Append the text of a control flow instruction
pub fn push_cf(s: &mut String, c: &ControlFlowInstruction, interner: &Interner)
    ensures
        final(s)@ == old(s)@ + cf_text(*c, interner@),
{
    let ghost s0 = s@;
    match c {
        ControlFlowInstruction::Return { value } => match value {
            Some(v) => {
                push_str(s, "ret ");
                push_value(s, *v, interner);
            },
            None => push_str(s, "ret void"),
        },
        ControlFlowInstruction::Branch { cond, conseq, altern } => {
            push_str(s, "br ");
            push_value(s, *cond, interner);
            push_str(s, " ");
            push_name(s, conseq.0, interner);
            push_str(s, " ");
            push_name(s, altern.0, interner);
        },
        ControlFlowInstruction::Jump { dest } => {
            push_str(s, "jmp ");
            push_name(s, dest.0, interner);
        },
        ControlFlowInstruction::NotYetProcessed => push_str(s, "<...>"),
    }
    assert(s@ =~= s0 + cf_text(*c, interner@));
}

/// Append the text of a phi function
pub fn push_phi(s: &mut String, p: &Phi, interner: &Interner)
    ensures
        final(s)@ == old(s)@ + phi_text(*p, interner@),
{
    let ghost s0 = s@;
    push_register(s, p.dst, interner);
    push_str(s, " = phi ");
    let ghost s1 = s@;
    let srcs = &p.srcs;
    let mut i: usize = 0;
    while i < srcs.len()
        invariant
            i <= srcs@.len(),
            srcs == &p.srcs,
            s@ == s1 + phi_sources_text(srcs@.subrange(0, i as int), interner@),
        decreases srcs@.len() - i,
    {
        let ghost pre = s@;
        if i > 0 {
            push_str(s, " ");
        }
        let ghost mid = s@;
        push_str(s, "[ ");
        push_value(s, srcs[i].0, interner);
        push_str(s, ", ");
        push_name(s, srcs[i].1.0, interner);
        push_str(s, " ]");
        proof {
            let q = srcs@.subrange(0, i + 1);
            assert(q.drop_last() =~= srcs@.subrange(0, i as int));
            assert(q.last() == srcs@[i as int]);
            assert(s@ =~= s1 + phi_sources_text(q, interner@));
        }
        i = i + 1;
    }
    assert(srcs@.subrange(0, srcs@.len() as int) =~= srcs@);
    assert(s@ =~= s0 + phi_text(*p, interner@));
}

/// Append the text of a block
pub fn push_block(s: &mut String, b: &Block, interner: &Interner)
    ensures
        final(s)@ == old(s)@ + block_text(*b, interner@),
{
    let ghost s0 = s@;
    push_name(s, b.label.0, interner);
    push_str(s, ":\n");
    let ghost s1 = s@;
    let mut i: usize = 0;
    while i < b.phis.len()
        invariant
            i <= b.phis@.len(),
            s@ == s1 + phis_text(b.phis@.subrange(0, i as int), interner@),
        decreases b.phis@.len() - i,
    {
        push_str(s, "    ");
        push_phi(s, &b.phis[i], interner);
        push_str(s, "\n");
        proof {
            let q = b.phis@.subrange(0, i + 1);
            assert(q.drop_last() =~= b.phis@.subrange(0, i as int));
            assert(s@ =~= s1 + phis_text(q, interner@));
        }
        i = i + 1;
    }
    assert(b.phis@.subrange(0, b.phis@.len() as int) =~= b.phis@);
    let ghost s2 = s@;
    let mut j: usize = 0;
    while j < b.inst.len()
        invariant
            j <= b.inst@.len(),
            s@ == s2 + insts_text(b.inst@.subrange(0, j as int), interner@),
        decreases b.inst@.len() - j,
    {
        push_str(s, "    ");
        push_inst(s, &b.inst[j], interner);
        push_str(s, "\n");
        proof {
            let q = b.inst@.subrange(0, j + 1);
            assert(q.drop_last() =~= b.inst@.subrange(0, j as int));
            assert(s@ =~= s2 + insts_text(q, interner@));
        }
        j = j + 1;
    }
    assert(b.inst@.subrange(0, b.inst@.len() as int) =~= b.inst@);
    push_str(s, "    ");
    push_cf(s, &b.last, interner);
    push_str(s, "\n");
    assert(s@ =~= s0 + block_text(*b, interner@));
}

/// Append the text of a symbol
pub fn push_symbol(s: &mut String, sym: &Symbol, interner: &Interner)
    ensures
        final(s)@ == old(s)@ + symbol_text(*sym, interner@),
{
    let ghost s0 = s@;
    match sym {
        Symbol::Global { name, value } => {
            push_str(s, "static ");
            push_name(s, *name, interner);
            push_str(s, " = ");
            push_u64(s, value.0 as u64);
            push_str(s, "\n\n");
        },
        Symbol::Function { name, body, args } => {
            push_str(s, "fn ");
            push_name(s, *name, interner);
            push_str(s, "(");
            let ghost s1 = s@;
            let mut i: usize = 0;
            while i < args.len()
                invariant
                    i <= args@.len(),
                    s@ == s1 + args_text(args@.subrange(0, i as int), interner@),
                decreases args@.len() - i,
            {
                if i > 0 {
                    push_str(s, ", ");
                }
                push_name(s, args[i], interner);
                proof {
                    let q = args@.subrange(0, i + 1);
                    assert(q.drop_last() =~= args@.subrange(0, i as int));
                    if i == 0 {
                        assert(q =~= seq![args@[0]]);
                    }
                    assert(s@ =~= s1 + args_text(q, interner@));
                }
                i = i + 1;
            }
            assert(args@.subrange(0, args@.len() as int) =~= args@);
            push_str(s, ") {\n");
            let ghost s2 = s@;
            let mut j: usize = 0;
            while j < body.len()
                invariant
                    j <= body@.len(),
                    s@ == s2 + blocks_text(body@.subrange(0, j as int), interner@),
                decreases body@.len() - j,
            {
                push_block(s, &body[j], interner);
                proof {
                    let q = body@.subrange(0, j + 1);
                    assert(q.drop_last() =~= body@.subrange(0, j as int));
                    assert(s@ =~= s2 + blocks_text(q, interner@));
                }
                j = j + 1;
            }
            assert(body@.subrange(0, body@.len() as int) =~= body@);
            push_str(s, "}\n\n");
        },
    }
    assert(s@ =~= s0 + symbol_text(*sym, interner@));
}

impl Program {
    /// The program's text
    pub fn to_text(&self, interner: &Interner) -> (r: String)
        ensures
            r@ == program_text(self.0@, interner@),
    {
        let mut s = String::new();
        let mut i: usize = 0;
        while i < self.0.len()
            invariant
                i <= self.0@.len(),
                s@ == program_text(self.0@.subrange(0, i as int), interner@),
            decreases self.0@.len() - i,
        {
            push_symbol(&mut s, &self.0[i], interner);
            proof {
                let q = self.0@.subrange(0, i + 1);
                assert(q.drop_last() =~= self.0@.subrange(0, i as int));
            }
            i = i + 1;
        }
        assert(self.0@.subrange(0, self.0@.len() as int) =~= self.0@);
        s
    }
}

} // verus!
