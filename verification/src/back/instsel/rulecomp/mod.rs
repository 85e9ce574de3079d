//! The Instruction Selection Rule Compiler
//!
//! We need a lot of rules how to select assembler instructions based on our
//! IR. The rules are written in a small language and compiled to Rust code
//! by this module: each rule becomes an arm of a `match` over a window of IR
//! instructions, whose body emits assembly instructions (or is Rust code
//! given in the rule itself).
//!
//! The basic idea of the instruction selector is based on *Introduction to
//! Compiler Design*, chapter 7 which proposes a greedy algorithm. Basically,
//! we compare the IR code with a list of possible matches where the more
//! complex patterns are listed before simpler patterns.

pub mod ast;
pub mod lexer;
pub mod parser;
pub mod tokens;

use vstd::prelude::*;
use crate::back::instsel::rulecomp::ast::{
    AsmArg, AsmInstr, Impl, IrArg, IrLabel, IrPattern, IrPatternLast, IrRegister, IrRegisterKind,
    Pattern, Rule, arg_name,
};
use crate::back::machine::MachineRegister;
use crate::back::machine::assembly::OperandSize;
use crate::back::instsel::rulecomp::lexer::{Lexer, reads};
use crate::back::instsel::rulecomp::parser::{Parser, assign_tokens, ir_pattern_tokens, rules_tokens, two_args_tokens};
use crate::middle::ir::{CmpOp, InfixOp, PrefixOp, cmp_variant_name, infix_variant_name, prefix_variant_name};
use crate::middle::ir::text::{cmp_text, infix_text, prefix_text};
use crate::back::instsel::rulecomp::parser::arg_tokens;
use crate::back::instsel::rulecomp::tokens::{Keyword, Token, all_keywords, keyword_text};
use crate::driver::interner::{Ident, Interner};
use crate::driver::session::{Diagnostic, Session};
use crate::util::chars::utf8_total;
use crate::front::ast::Spanned;
use crate::util::pretty::{ident_text, push_ident};
use crate::util::text::{decimal, join, push_join, push_str, push_u64, push_i64, signed_decimal, texts};

verus! {

// --- The text of the generated code: IR patterns -------------------------------

pub open spec fn ir_register_text(r: IrRegister, n: Seq<Seq<char>>) -> Seq<char> {
    match r.1 {
        IrRegisterKind::Local => "ir::Register::Local("@ + ident_text(r.0, n) + ")"@,
        IrRegisterKind::Stack => "ir::Register::Stack("@ + ident_text(r.0, n) + ")"@,
    }
}

pub open spec fn ir_arg_text(a: IrArg, n: Seq<Seq<char>>) -> Seq<char> {
    match a {
        IrArg::Register(IrRegister(reg, IrRegisterKind::Local)) =>
            "ir::Value::Register(ir::Register::Local("@ + ident_text(reg, n) + "))"@,
        IrArg::Register(IrRegister(reg, IrRegisterKind::Stack)) =>
            "ir::Value::Register(ir::Register::Stack("@ + ident_text(reg, n) + "))"@,
        IrArg::Literal(lit) => "ir::Value::Immediate(ir::Immediate("@ + ident_text(lit, n) + "))"@,
        IrArg::Static(lit) => "ir::Value::Static("@ + ident_text(lit, n) + ")"@,
    }
}

pub open spec fn ir_label_text(l: IrLabel, n: Seq<Seq<char>>) -> Seq<char> {
    "ir::Label("@ + ident_text(l.0, n) + ")"@
}

/// A binary operation of the IR: `op` is the name of the operator
pub open spec fn binop_pattern_text(op: Seq<char>, d: IrRegister, a: IrArg, b: IrArg, n: Seq<Seq<char>>) -> Seq<char> {
    "IrLine::Instruction(&ir::Instruction::BinOp { op: ir::InfixOp::"@ + op + ", lhs: "@ + ir_arg_text(a, n)
        + ", rhs: "@ + ir_arg_text(b, n) + ", dst: "@ + ir_register_text(d, n) + " })"@
}

/// A comparison of the IR: `op` is the name of the comparison
pub open spec fn cmp_pattern_text(op: Seq<char>, d: IrRegister, a: IrArg, b: IrArg, n: Seq<Seq<char>>) -> Seq<char> {
    "IrLine::Instruction(&ir::Instruction::Cmp { cmp: ir::CmpOp::"@ + op + ", lhs: "@ + ir_arg_text(a, n)
        + ", rhs: "@ + ir_arg_text(b, n) + ", dst: "@ + ir_register_text(d, n) + " })"@
}

/// A unary operation of the IR: `op` is the name of the operator
pub open spec fn unop_pattern_text(op: Seq<char>, d: IrRegister, a: IrArg, n: Seq<Seq<char>>) -> Seq<char> {
    "IrLine::Instruction(&ir::Instruction::UnOp { op: ir::PrefixOp::"@ + op + ", item: "@ + ir_arg_text(a, n)
        + ", dst: "@ + ir_register_text(d, n) + " })"@
}

/// The Rust pattern that matches an IR instruction
pub open spec fn ir_pattern_text(p: IrPattern, n: Seq<Seq<char>>) -> Seq<char> {
    match p {
        IrPattern::Add(d, a, b) => binop_pattern_text("Add"@, d.value, a.value, b.value, n),
        IrPattern::Sub(d, a, b) => binop_pattern_text("Sub"@, d.value, a.value, b.value, n),
        IrPattern::Mul(d, a, b) => binop_pattern_text("Mul"@, d.value, a.value, b.value, n),
        IrPattern::Div(d, a, b) => binop_pattern_text("Div"@, d.value, a.value, b.value, n),
        IrPattern::Pow(d, a, b) => binop_pattern_text("Pow"@, d.value, a.value, b.value, n),
        IrPattern::Mod(d, a, b) => binop_pattern_text("Mod"@, d.value, a.value, b.value, n),
        IrPattern::Shl(d, a, b) => binop_pattern_text("Shl"@, d.value, a.value, b.value, n),
        IrPattern::Shr(d, a, b) => binop_pattern_text("Shr"@, d.value, a.value, b.value, n),
        IrPattern::And(d, a, b) => binop_pattern_text("And"@, d.value, a.value, b.value, n),
        IrPattern::Or(d, a, b) => binop_pattern_text("Or"@, d.value, a.value, b.value, n),
        IrPattern::Xor(d, a, b) => binop_pattern_text("Xor"@, d.value, a.value, b.value, n),
        IrPattern::Neg(d, a) => unop_pattern_text("Neg"@, d.value, a.value, n),
        IrPattern::Not(d, a) => unop_pattern_text("Not"@, d.value, a.value, n),
        IrPattern::CmpLt(d, a, b) => cmp_pattern_text("Lt"@, d.value, a.value, b.value, n),
        IrPattern::CmpLe(d, a, b) => cmp_pattern_text("Le"@, d.value, a.value, b.value, n),
        IrPattern::CmpEq(d, a, b) => cmp_pattern_text("Eq"@, d.value, a.value, b.value, n),
        IrPattern::CmpNe(d, a, b) => cmp_pattern_text("Ne"@, d.value, a.value, b.value, n),
        IrPattern::CmpGe(d, a, b) => cmp_pattern_text("Ge"@, d.value, a.value, b.value, n),
        IrPattern::CmpGt(d, a, b) => cmp_pattern_text("Gt"@, d.value, a.value, b.value, n),
        IrPattern::Alloca(d) => "IrLine::Instruction(&ir::Instruction::Alloca { dst: "@
            + ir_register_text(d.value, n) + " })"@,
        IrPattern::Load(d, v) => "IrLine::Instruction(&ir::Instruction::Load { src: "@ + ir_arg_text(v.value, n)
            + ", dst: "@ + ir_register_text(d.value, n) + " })"@,
        IrPattern::Store(v, d) => "IrLine::Instruction(&ir::Instruction::Store { src: "@ + ir_arg_text(v.value, n)
            + ", dst: "@ + ir_arg_text(d.value, n) + " })"@,
        IrPattern::Call(d, f, args) => "IrLine::Instruction(&ir::Instruction::Call { name: "@ + ident_text(f.value, n)
            + ", args: ref "@ + ident_text(args.value, n) + ", dst: "@ + ir_register_text(d.value, n) + " })"@,
    }
}

/// The Rust pattern of a rule's binary operation `d = k a, b` matches the IR
/// operation whose mnemonic in the IR is the rule's keyword `k`: it names
/// that operation's variant, with the rule's operands
pub proof fn law_binop_pattern_names_ir_operation(p: IrPattern, d: Spanned<IrRegister>, a: Spanned<IrArg>,
    b: Spanned<IrArg>, k: Keyword, op: InfixOp, n: Seq<Seq<char>>)
    requires
        p == IrPattern::Add(d, a, b) || p == IrPattern::Sub(d, a, b) || p == IrPattern::Mul(d, a, b)
            || p == IrPattern::Div(d, a, b) || p == IrPattern::Pow(d, a, b) || p == IrPattern::Mod(d, a, b)
            || p == IrPattern::Shl(d, a, b) || p == IrPattern::Shr(d, a, b) || p == IrPattern::And(d, a, b)
            || p == IrPattern::Or(d, a, b) || p == IrPattern::Xor(d, a, b),
        ir_pattern_tokens(p) == assign_tokens(d.value, seq![Token::Keyword(k)], two_args_tokens(a.value, b.value)),
        infix_text(op) == keyword_text(k),
    ensures
        ir_pattern_text(p, n) == binop_pattern_text(infix_variant_name(op), d.value, a.value, b.value, n),
{
    reveal_strlit("add");
    reveal_strlit("sub");
    reveal_strlit("mul");
    reveal_strlit("div");
    reveal_strlit("pow");
    reveal_strlit("mod");
    reveal_strlit("shl");
    reveal_strlit("shr");
    reveal_strlit("and");
    reveal_strlit("or");
    reveal_strlit("xor");
    let t = ir_pattern_tokens(p);
    let pre = crate::back::instsel::rulecomp::parser::register_tokens(d.value) + seq![Token::Equal];
    let i = pre.len() as int;
    assert(assign_tokens(d.value, seq![Token::Keyword(k)], two_args_tokens(a.value, b.value))[i] == Token::Keyword(k));
    assert(t[i] == Token::Keyword(k));
    let named = match p {
        IrPattern::Add(..) => InfixOp::Add,
        IrPattern::Sub(..) => InfixOp::Sub,
        IrPattern::Mul(..) => InfixOp::Mul,
        IrPattern::Div(..) => InfixOp::Div,
        IrPattern::Pow(..) => InfixOp::Pow,
        IrPattern::Mod(..) => InfixOp::Mod,
        IrPattern::Shl(..) => InfixOp::Shl,
        IrPattern::Shr(..) => InfixOp::Shr,
        IrPattern::And(..) => InfixOp::And,
        IrPattern::Or(..) => InfixOp::Or,
        _ => InfixOp::Xor,
    };
    assert(assign_tokens(d.value, seq![t[i]], two_args_tokens(a.value, b.value))[i] == t[i]);
    assert(infix_text(named) == keyword_text(k));
    lemma_infix_text_injective(op, named);
}

/// The Rust pattern of a rule's comparison `d = cmp k a, b` matches the IR
/// comparison whose mnemonic in the IR is the rule's keyword `k`
pub proof fn law_cmp_pattern_names_ir_comparison(p: IrPattern, d: Spanned<IrRegister>, a: Spanned<IrArg>,
    b: Spanned<IrArg>, k: Keyword, op: CmpOp, n: Seq<Seq<char>>)
    requires
        p == IrPattern::CmpLt(d, a, b) || p == IrPattern::CmpLe(d, a, b) || p == IrPattern::CmpEq(d, a, b)
            || p == IrPattern::CmpNe(d, a, b) || p == IrPattern::CmpGe(d, a, b) || p == IrPattern::CmpGt(d, a, b),
        ir_pattern_tokens(p) == assign_tokens(d.value, seq![Token::Keyword(Keyword::Cmp), Token::Keyword(k)],
            two_args_tokens(a.value, b.value)),
        cmp_text(op) == keyword_text(k),
    ensures
        ir_pattern_text(p, n) == cmp_pattern_text(cmp_variant_name(op), d.value, a.value, b.value, n),
{
    let t = ir_pattern_tokens(p);
    let i = (crate::back::instsel::rulecomp::parser::register_tokens(d.value) + seq![Token::Equal]).len() + 1int;
    assert(assign_tokens(d.value, seq![Token::Keyword(Keyword::Cmp), Token::Keyword(k)],
        two_args_tokens(a.value, b.value))[i] == Token::Keyword(k));
    let named = match p {
        IrPattern::CmpLt(..) => CmpOp::Lt,
        IrPattern::CmpLe(..) => CmpOp::Le,
        IrPattern::CmpEq(..) => CmpOp::Eq,
        IrPattern::CmpNe(..) => CmpOp::Ne,
        IrPattern::CmpGe(..) => CmpOp::Ge,
        _ => CmpOp::Gt,
    };
    assert(t[i] == Token::Keyword(k));
    assert(cmp_text(named) == keyword_text(k));
    reveal_strlit("lt");
    reveal_strlit("le");
    reveal_strlit("eq");
    reveal_strlit("ne");
    reveal_strlit("ge");
    reveal_strlit("gt");
    assert(cmp_text(op)[0] == cmp_text(named)[0] && cmp_text(op)[1] == cmp_text(named)[1]);
}

/// The Rust pattern of a rule's unary operation `d = k a` matches the IR
/// operation whose mnemonic in the IR is the rule's keyword `k`
pub proof fn law_unop_pattern_names_ir_operation(p: IrPattern, d: Spanned<IrRegister>, a: Spanned<IrArg>,
    k: Keyword, op: PrefixOp, n: Seq<Seq<char>>)
    requires
        p == IrPattern::Neg(d, a) || p == IrPattern::Not(d, a),
        ir_pattern_tokens(p) == assign_tokens(d.value, seq![Token::Keyword(k)], arg_tokens(a.value)),
        prefix_text(op) == keyword_text(k),
    ensures
        ir_pattern_text(p, n) == unop_pattern_text(prefix_variant_name(op), d.value, a.value, n),
{
    let t = ir_pattern_tokens(p);
    let i = (crate::back::instsel::rulecomp::parser::register_tokens(d.value) + seq![Token::Equal]).len() as int;
    assert(assign_tokens(d.value, seq![Token::Keyword(k)], arg_tokens(a.value))[i] == Token::Keyword(k));
    assert(t[i] == Token::Keyword(k));
    let named = match p {
        IrPattern::Neg(..) => PrefixOp::Neg,
        _ => PrefixOp::Not,
    };
    assert(prefix_text(named) == keyword_text(k));
    reveal_strlit("neg");
    reveal_strlit("not");
    assert(prefix_text(op)[0] == prefix_text(named)[0] && prefix_text(op)[1] == prefix_text(named)[1]);
}

/// Distinct IR operations have distinct mnemonics
proof fn lemma_infix_text_injective(o1: InfixOp, o2: InfixOp)
    requires
        infix_text(o1) == infix_text(o2),
    ensures
        o1 == o2,
{
    reveal_strlit("add");
    reveal_strlit("sub");
    reveal_strlit("mul");
    reveal_strlit("div");
    reveal_strlit("pow");
    reveal_strlit("mod");
    reveal_strlit("shl");
    reveal_strlit("shr");
    reveal_strlit("and");
    reveal_strlit("or");
    reveal_strlit("xor");
    let t1 = infix_text(o1);
    let t2 = infix_text(o2);
    assert(t1.len() == t2.len());
    assert(t1[0] == t2[0]);
    assert(t1[1] == t2[1]);
    if t1.len() > 2 {
        assert(t1[2] == t2[2]);
    }
}

/// The Rust pattern that matches a control flow instruction of the IR
pub open spec fn ir_pattern_last_text(l: IrPatternLast, n: Seq<Seq<char>>) -> Seq<char> {
    match l {
        IrPatternLast::Ret(Some(v)) => "IrLine::CFInstruction(&ir::ControlFlowInstruction::Return { value: Some("@
            + ir_arg_text(v.value, n) + ") })"@,
        IrPatternLast::Ret(None) => "IrLine::CFInstruction(&ir::ControlFlowInstruction::Return { value: None })"@,
        IrPatternLast::Br(c, t, e) => "IrLine::CFInstruction(&ir::ControlFlowInstruction::Branch { cond: "@
            + ir_arg_text(c.value, n) + ", conseq: "@ + ir_label_text(t.value, n) + ", altern: "@
            + ir_label_text(e.value, n) + " })"@,
        IrPatternLast::Jmp(d) => "IrLine::CFInstruction(&ir::ControlFlowInstruction::Jump { dest: "@
            + ir_label_text(d.value, n) + " })"@,
    }
}

/// The texts of the IR patterns
pub open spec fn ir_patterns_texts(ps: Seq<Spanned<IrPattern>>, n: Seq<Seq<char>>) -> Seq<Seq<char>> {
    Seq::new(ps.len(), |i: int| ir_pattern_text(ps[i].value, n))
}

/// The Rust pattern of a whole rule: a slice pattern, and the rule's
/// condition as a match guard
pub open spec fn pattern_text(p: Pattern, n: Seq<Seq<char>>) -> Seq<char> {
    "["@ + join(ir_patterns_texts(p.ir_patterns@, n), ", "@) + (match p.last {
        Some(l) => (if p.ir_patterns@.len() > 0 { ", "@ } else { Seq::empty() }) + ir_pattern_last_text(l.value, n),
        None => ", .."@,
    }) + "]"@ + (match p.cond {
        Some(snippet) => " if "@ + ident_text(snippet, n),
        None => Seq::empty(),
    })
}

// --- Translating IR patterns ---------------------------------------------------

pub fn translate_ir_register(arg: &IrRegister, interner: &Interner) -> (r: String)
    ensures
        r@ == ir_register_text(*arg, interner@),
{
    let mut s = String::new();
    match arg.1 {
        IrRegisterKind::Local => push_str(&mut s, "ir::Register::Local("),
        IrRegisterKind::Stack => push_str(&mut s, "ir::Register::Stack("),
    }
    push_ident(&mut s, arg.0, interner);
    push_str(&mut s, ")");
    assert(s@ =~= ir_register_text(*arg, interner@));
    s
}

pub fn translate_ir_arg(arg: &IrArg, interner: &Interner) -> (r: String)
    ensures
        r@ == ir_arg_text(*arg, interner@),
{
    let mut s = String::new();
    match *arg {
        IrArg::Register(IrRegister(reg, IrRegisterKind::Local)) => {
            push_str(&mut s, "ir::Value::Register(ir::Register::Local(");
            push_ident(&mut s, reg, interner);
            push_str(&mut s, "))");
        },
        IrArg::Register(IrRegister(reg, IrRegisterKind::Stack)) => {
            push_str(&mut s, "ir::Value::Register(ir::Register::Stack(");
            push_ident(&mut s, reg, interner);
            push_str(&mut s, "))");
        },
        IrArg::Literal(lit) => {
            push_str(&mut s, "ir::Value::Immediate(ir::Immediate(");
            push_ident(&mut s, lit, interner);
            push_str(&mut s, "))");
        },
        IrArg::Static(lit) => {
            push_str(&mut s, "ir::Value::Static(");
            push_ident(&mut s, lit, interner);
            push_str(&mut s, ")");
        },
    }
    assert(s@ =~= ir_arg_text(*arg, interner@));
    s
}

pub fn translate_ir_label(arg: &IrLabel, interner: &Interner) -> (r: String)
    ensures
        r@ == ir_label_text(*arg, interner@),
{
    let mut s = String::new();
    push_str(&mut s, "ir::Label(");
    push_ident(&mut s, arg.0, interner);
    push_str(&mut s, ")");
    assert(s@ =~= ir_label_text(*arg, interner@));
    s
}

/// Append the pattern of a binary operation
fn push_binop(s: &mut String, op: &str, d: &IrRegister, a: &IrArg, b: &IrArg, interner: &Interner)
    ensures
        final(s)@ == old(s)@ + binop_pattern_text(op@, *d, *a, *b, interner@),
{
    let ghost s0 = s@;
    push_str(s, "IrLine::Instruction(&ir::Instruction::BinOp { op: ir::InfixOp::");
    push_str(s, op);
    push_str(s, ", lhs: ");
    push_str(s, translate_ir_arg(a, interner).as_str());
    push_str(s, ", rhs: ");
    push_str(s, translate_ir_arg(b, interner).as_str());
    push_str(s, ", dst: ");
    push_str(s, translate_ir_register(d, interner).as_str());
    push_str(s, " })");
    assert(s@ =~= s0 + binop_pattern_text(op@, *d, *a, *b, interner@));
}

/// Append the pattern of a comparison
fn push_cmp(s: &mut String, op: &str, d: &IrRegister, a: &IrArg, b: &IrArg, interner: &Interner)
    ensures
        final(s)@ == old(s)@ + cmp_pattern_text(op@, *d, *a, *b, interner@),
{
    let ghost s0 = s@;
    push_str(s, "IrLine::Instruction(&ir::Instruction::Cmp { cmp: ir::CmpOp::");
    push_str(s, op);
    push_str(s, ", lhs: ");
    push_str(s, translate_ir_arg(a, interner).as_str());
    push_str(s, ", rhs: ");
    push_str(s, translate_ir_arg(b, interner).as_str());
    push_str(s, ", dst: ");
    push_str(s, translate_ir_register(d, interner).as_str());
    push_str(s, " })");
    assert(s@ =~= s0 + cmp_pattern_text(op@, *d, *a, *b, interner@));
}

/// Append the pattern of a unary operation
fn push_unop(s: &mut String, op: &str, d: &IrRegister, a: &IrArg, interner: &Interner)
    ensures
        final(s)@ == old(s)@ + unop_pattern_text(op@, *d, *a, interner@),
{
    let ghost s0 = s@;
    push_str(s, "IrLine::Instruction(&ir::Instruction::UnOp { op: ir::PrefixOp::");
    push_str(s, op);
    push_str(s, ", item: ");
    push_str(s, translate_ir_arg(a, interner).as_str());
    push_str(s, ", dst: ");
    push_str(s, translate_ir_register(d, interner).as_str());
    push_str(s, " })");
    assert(s@ =~= s0 + unop_pattern_text(op@, *d, *a, interner@));
}

/// The Rust pattern that matches an IR instruction
pub fn translate_ir_pattern(ir_pattern: &IrPattern, interner: &Interner) -> (r: String)
    ensures
        r@ == ir_pattern_text(*ir_pattern, interner@),
{
    let mut s = String::new();
    match ir_pattern {
        IrPattern::Add(d, a, b) => push_binop(&mut s, "Add", &d.value, &a.value, &b.value, interner),
        IrPattern::Sub(d, a, b) => push_binop(&mut s, "Sub", &d.value, &a.value, &b.value, interner),
        IrPattern::Mul(d, a, b) => push_binop(&mut s, "Mul", &d.value, &a.value, &b.value, interner),
        IrPattern::Div(d, a, b) => push_binop(&mut s, "Div", &d.value, &a.value, &b.value, interner),
        IrPattern::Pow(d, a, b) => push_binop(&mut s, "Pow", &d.value, &a.value, &b.value, interner),
        IrPattern::Mod(d, a, b) => push_binop(&mut s, "Mod", &d.value, &a.value, &b.value, interner),
        IrPattern::Shl(d, a, b) => push_binop(&mut s, "Shl", &d.value, &a.value, &b.value, interner),
        IrPattern::Shr(d, a, b) => push_binop(&mut s, "Shr", &d.value, &a.value, &b.value, interner),
        IrPattern::And(d, a, b) => push_binop(&mut s, "And", &d.value, &a.value, &b.value, interner),
        IrPattern::Or(d, a, b) => push_binop(&mut s, "Or", &d.value, &a.value, &b.value, interner),
        IrPattern::Xor(d, a, b) => push_binop(&mut s, "Xor", &d.value, &a.value, &b.value, interner),
        IrPattern::Neg(d, a) => push_unop(&mut s, "Neg", &d.value, &a.value, interner),
        IrPattern::Not(d, a) => push_unop(&mut s, "Not", &d.value, &a.value, interner),
        IrPattern::CmpLt(d, a, b) => push_cmp(&mut s, "Lt", &d.value, &a.value, &b.value, interner),
        IrPattern::CmpLe(d, a, b) => push_cmp(&mut s, "Le", &d.value, &a.value, &b.value, interner),
        IrPattern::CmpEq(d, a, b) => push_cmp(&mut s, "Eq", &d.value, &a.value, &b.value, interner),
        IrPattern::CmpNe(d, a, b) => push_cmp(&mut s, "Ne", &d.value, &a.value, &b.value, interner),
        IrPattern::CmpGe(d, a, b) => push_cmp(&mut s, "Ge", &d.value, &a.value, &b.value, interner),
        IrPattern::CmpGt(d, a, b) => push_cmp(&mut s, "Gt", &d.value, &a.value, &b.value, interner),
        IrPattern::Alloca(d) => {
            push_str(&mut s, "IrLine::Instruction(&ir::Instruction::Alloca { dst: ");
            push_str(&mut s, translate_ir_register(&d.value, interner).as_str());
            push_str(&mut s, " })");
        },
        IrPattern::Load(d, v) => {
            push_str(&mut s, "IrLine::Instruction(&ir::Instruction::Load { src: ");
            push_str(&mut s, translate_ir_arg(&v.value, interner).as_str());
            push_str(&mut s, ", dst: ");
            push_str(&mut s, translate_ir_register(&d.value, interner).as_str());
            push_str(&mut s, " })");
        },
        IrPattern::Store(v, d) => {
            push_str(&mut s, "IrLine::Instruction(&ir::Instruction::Store { src: ");
            push_str(&mut s, translate_ir_arg(&v.value, interner).as_str());
            push_str(&mut s, ", dst: ");
            push_str(&mut s, translate_ir_arg(&d.value, interner).as_str());
            push_str(&mut s, " })");
        },
        IrPattern::Call(d, f, args) => {
            push_str(&mut s, "IrLine::Instruction(&ir::Instruction::Call { name: ");
            push_ident(&mut s, f.value, interner);
            push_str(&mut s, ", args: ref ");
            push_ident(&mut s, args.value, interner);
            push_str(&mut s, ", dst: ");
            push_str(&mut s, translate_ir_register(&d.value, interner).as_str());
            push_str(&mut s, " })");
        },
    }
    assert(s@ =~= ir_pattern_text(*ir_pattern, interner@));
    s
}

/// The Rust pattern that matches a control flow instruction of the IR
pub fn translate_ir_pattern_last(ir_pattern_last: &IrPatternLast, interner: &Interner) -> (r: String)
    ensures
        r@ == ir_pattern_last_text(*ir_pattern_last, interner@),
{
    let mut s = String::new();
    match ir_pattern_last {
        IrPatternLast::Ret(Some(val)) => {
            push_str(&mut s, "IrLine::CFInstruction(&ir::ControlFlowInstruction::Return { value: Some(");
            push_str(&mut s, translate_ir_arg(&val.value, interner).as_str());
            push_str(&mut s, ") })");
        },
        IrPatternLast::Ret(None) => {
            push_str(&mut s, "IrLine::CFInstruction(&ir::ControlFlowInstruction::Return { value: None })");
        },
        IrPatternLast::Br(cond, conseq, altern) => {
            push_str(&mut s, "IrLine::CFInstruction(&ir::ControlFlowInstruction::Branch { cond: ");
            push_str(&mut s, translate_ir_arg(&cond.value, interner).as_str());
            push_str(&mut s, ", conseq: ");
            push_str(&mut s, translate_ir_label(&conseq.value, interner).as_str());
            push_str(&mut s, ", altern: ");
            push_str(&mut s, translate_ir_label(&altern.value, interner).as_str());
            push_str(&mut s, " })");
        },
        IrPatternLast::Jmp(dest) => {
            push_str(&mut s, "IrLine::CFInstruction(&ir::ControlFlowInstruction::Jump { dest: ");
            push_str(&mut s, translate_ir_label(&dest.value, interner).as_str());
            push_str(&mut s, " })");
        },
    }
    assert(s@ =~= ir_pattern_last_text(*ir_pattern_last, interner@));
    s
}

/// The Rust pattern of a whole rule
pub fn translate_pattern(pattern: &Pattern, interner: &Interner) -> (r: String)
    ensures
        r@ == pattern_text(*pattern, interner@),
{
    let mut s = String::new();
    push_str(&mut s, "[");
    let mut patterns: Vec<String> = Vec::new();
    let mut i: usize = 0;
    while i < pattern.ir_patterns.len()
        invariant
            i <= pattern.ir_patterns@.len(),
            patterns@.len() == i,
            forall|j: int| 0 <= j < i ==> #[trigger] patterns@[j]@ == ir_pattern_text(pattern.ir_patterns@[j].value, interner@),
        decreases pattern.ir_patterns@.len() - i,
    {
        patterns.push(translate_ir_pattern(&pattern.ir_patterns[i].value, interner));
        i = i + 1;
    }
    assert(texts(patterns@) =~= ir_patterns_texts(pattern.ir_patterns@, interner@));
    push_join(&mut s, &patterns, ", ");
    let ghost s1 = s@;

    match &pattern.last {
        Some(last) => {
            if patterns.len() > 0 {
                push_str(&mut s, ", ");
            }
            push_str(&mut s, translate_ir_pattern_last(&last.value, interner).as_str());
        },
        None => push_str(&mut s, ", .."),
    }
    push_str(&mut s, "]");

    if let Some(snippet) = pattern.cond {
        push_str(&mut s, " if ");
        push_ident(&mut s, snippet, interner);
    }
    assert(s@ =~= pattern_text(*pattern, interner@));
    s
}


// --- What the names of a rule stand for ----------------------------------------

/// The argument a name stands for: the latest binding of the name
pub open spec fn lookup_binding(b: Seq<(Ident, IrArg)>, id: Ident) -> Option<IrArg>
    decreases b.len(),
{
    if b.len() == 0 {
        None
    } else if b.last().0 == id {
        Some(b.last().1)
    } else {
        lookup_binding(b.drop_last(), id)
    }
}

/// Binding a name makes it stand for the new argument, and leaves what the
/// other names stand for
pub proof fn lemma_lookup_after_insert(b: Seq<(Ident, IrArg)>, id: Ident, arg: IrArg, other: Ident)
    ensures
        lookup_binding(b.push((id, arg)), id) == Some(arg),
        other != id ==> lookup_binding(b.push((id, arg)), other) == lookup_binding(b, other),
{
    assert(b.push((id, arg)).drop_last() =~= b);
}

/// A destination register binds its name to itself
pub open spec fn reg_binding(d: IrRegister) -> (Ident, IrArg) {
    (d.0, IrArg::Register(IrRegister(d.0, d.1)))
}

/// An argument binds its name to itself
pub open spec fn arg_binding(a: IrArg) -> (Ident, IrArg) {
    (arg_name(a), a)
}

/// The names an IR instruction of a pattern binds, in order
pub open spec fn pattern_bindings(p: IrPattern) -> Seq<(Ident, IrArg)> {
    match p {
        IrPattern::Add(d, a, b) => seq![reg_binding(d.value), arg_binding(a.value), arg_binding(b.value)],
        IrPattern::Sub(d, a, b) => seq![reg_binding(d.value), arg_binding(a.value), arg_binding(b.value)],
        IrPattern::Mul(d, a, b) => seq![reg_binding(d.value), arg_binding(a.value), arg_binding(b.value)],
        IrPattern::Div(d, a, b) => seq![reg_binding(d.value), arg_binding(a.value), arg_binding(b.value)],
        IrPattern::Pow(d, a, b) => seq![reg_binding(d.value), arg_binding(a.value), arg_binding(b.value)],
        IrPattern::Mod(d, a, b) => seq![reg_binding(d.value), arg_binding(a.value), arg_binding(b.value)],
        IrPattern::Shl(d, a, b) => seq![reg_binding(d.value), arg_binding(a.value), arg_binding(b.value)],
        IrPattern::Shr(d, a, b) => seq![reg_binding(d.value), arg_binding(a.value), arg_binding(b.value)],
        IrPattern::And(d, a, b) => seq![reg_binding(d.value), arg_binding(a.value), arg_binding(b.value)],
        IrPattern::Or(d, a, b) => seq![reg_binding(d.value), arg_binding(a.value), arg_binding(b.value)],
        IrPattern::Xor(d, a, b) => seq![reg_binding(d.value), arg_binding(a.value), arg_binding(b.value)],
        IrPattern::CmpLt(d, a, b) => seq![reg_binding(d.value), arg_binding(a.value), arg_binding(b.value)],
        IrPattern::CmpLe(d, a, b) => seq![reg_binding(d.value), arg_binding(a.value), arg_binding(b.value)],
        IrPattern::CmpEq(d, a, b) => seq![reg_binding(d.value), arg_binding(a.value), arg_binding(b.value)],
        IrPattern::CmpNe(d, a, b) => seq![reg_binding(d.value), arg_binding(a.value), arg_binding(b.value)],
        IrPattern::CmpGe(d, a, b) => seq![reg_binding(d.value), arg_binding(a.value), arg_binding(b.value)],
        IrPattern::CmpGt(d, a, b) => seq![reg_binding(d.value), arg_binding(a.value), arg_binding(b.value)],
        IrPattern::Neg(d, a) => seq![reg_binding(d.value), arg_binding(a.value)],
        IrPattern::Not(d, a) => seq![reg_binding(d.value), arg_binding(a.value)],
        IrPattern::Alloca(d) => seq![reg_binding(d.value)],
        IrPattern::Call(d, _, _) => seq![reg_binding(d.value)],
        IrPattern::Load(d, a) => seq![reg_binding(d.value), arg_binding(a.value)],
        IrPattern::Store(v, a) => seq![arg_binding(v.value), arg_binding(a.value)],
    }
}

/// The names a control flow instruction of a pattern binds
pub open spec fn last_bindings(l: IrPatternLast) -> Seq<(Ident, IrArg)> {
    match l {
        IrPatternLast::Ret(Some(v)) => seq![arg_binding(v.value)],
        IrPatternLast::Br(c, _, _) => seq![arg_binding(c.value)],
        _ => Seq::empty(),
    }
}

/// The names IR instructions bind, in order
pub open spec fn patterns_bindings(ps: Seq<Spanned<IrPattern>>) -> Seq<(Ident, IrArg)>
    decreases ps.len(),
{
    if ps.len() == 0 {
        Seq::empty()
    } else {
        patterns_bindings(ps.drop_last()) + pattern_bindings(ps.last().value)
    }
}

/// The fresh registers arguments of assembly instructions introduce
pub open spec fn args_new_registers(args: Seq<Spanned<AsmArg>>) -> Seq<(Ident, IrArg)>
    decreases args.len(),
{
    if args.len() == 0 {
        Seq::empty()
    } else {
        args_new_registers(args.drop_last()) + match args.last().value {
            AsmArg::NewRegister(name) => seq![(name.value, IrArg::Register(IrRegister(name.value, IrRegisterKind::Local)))],
            _ => Seq::empty(),
        }
    }
}

/// The fresh registers assembly instructions introduce
pub open spec fn instrs_new_registers(instrs: Seq<Spanned<AsmInstr>>) -> Seq<(Ident, IrArg)>
    decreases instrs.len(),
{
    if instrs.len() == 0 {
        Seq::empty()
    } else {
        instrs_new_registers(instrs.drop_last()) + args_new_registers(instrs.last().value.args@)
    }
}

/// All bindings of a rule: its pattern's, then the fresh registers of its
/// assembly
pub open spec fn rule_bindings(rule: Rule) -> Seq<(Ident, IrArg)> {
    patterns_bindings(rule.pattern.value.ir_patterns@) + (match rule.pattern.value.last {
        Some(l) => last_bindings(l.value),
        None => Seq::empty(),
    }) + (match rule.implementation {
        Impl::Asm(instrs) => instrs_new_registers(instrs.value@),
        Impl::Rust(_) => Seq::empty(),
    })
}

/// What the names of a rule stand for; a later entry for a name takes
/// precedence over an earlier one
pub struct Bindings {
    pub entries: Vec<(Ident, IrArg)>,
}

impl Bindings {
    pub fn new() -> (r: Bindings)
        ensures
            r.entries@ == Seq::<(Ident, IrArg)>::empty(),
    {
        Bindings { entries: Vec::new() }
    }

    /// Bind a name
    pub fn insert(&mut self, id: Ident, arg: IrArg)
        ensures
            final(self).entries@ == old(self).entries@.push((id, arg)),
    {
        self.entries.push((id, arg));
    }

    /// What a name stands for
    pub fn get(&self, id: Ident) -> (r: Option<IrArg>)
        ensures
            r == lookup_binding(self.entries@, id),
    {
        let mut i = self.entries.len();
        assert(self.entries@.subrange(0, i as int) =~= self.entries@);
        while i > 0
            invariant
                i <= self.entries@.len(),
                lookup_binding(self.entries@, id) == lookup_binding(self.entries@.subrange(0, i as int), id),
            decreases i,
        {
            let (k, v) = self.entries[i - 1];
            let ghost prefix = self.entries@.subrange(0, i as int);
            assert(prefix.last() == (k, v));
            assert(prefix.drop_last() =~= self.entries@.subrange(0, i - 1));
            if k.0 == id.0 {
                assert(k == id);
                return Some(v);
            }
            i = i - 1;
        }
        assert(self.entries@.subrange(0, 0) =~= Seq::<(Ident, IrArg)>::empty());
        None
    }
}

/// Bind the names an IR instruction of a pattern mentions
pub fn update_pattern_types(pattern: &IrPattern, map: &mut Bindings)
    ensures
        final(map).entries@ == old(map).entries@ + pattern_bindings(*pattern),
{
    let ghost m0 = map.entries@;
    match pattern {
        IrPattern::Add(dest, lhs, rhs) | IrPattern::Sub(dest, lhs, rhs) | IrPattern::Mul(dest, lhs, rhs)
        | IrPattern::Div(dest, lhs, rhs) | IrPattern::Pow(dest, lhs, rhs) | IrPattern::Mod(dest, lhs, rhs)
        | IrPattern::Shl(dest, lhs, rhs) | IrPattern::Shr(dest, lhs, rhs) | IrPattern::And(dest, lhs, rhs)
        | IrPattern::Or(dest, lhs, rhs) | IrPattern::Xor(dest, lhs, rhs) | IrPattern::CmpLt(dest, lhs, rhs)
        | IrPattern::CmpLe(dest, lhs, rhs) | IrPattern::CmpEq(dest, lhs, rhs) | IrPattern::CmpNe(dest, lhs, rhs)
        | IrPattern::CmpGe(dest, lhs, rhs) | IrPattern::CmpGt(dest, lhs, rhs) => {
            map.insert(dest.value.0, IrArg::Register(IrRegister(dest.value.0, dest.value.1)));
            map.insert(lhs.value.get_name(), lhs.value);
            map.insert(rhs.value.get_name(), rhs.value);
        },
        IrPattern::Neg(dest, arg) | IrPattern::Not(dest, arg) => {
            map.insert(dest.value.0, IrArg::Register(IrRegister(dest.value.0, dest.value.1)));
            map.insert(arg.value.get_name(), arg.value);
        },
        IrPattern::Alloca(dest) | IrPattern::Call(dest, _, _) => {
            map.insert(dest.value.0, IrArg::Register(IrRegister(dest.value.0, dest.value.1)));
        },
        IrPattern::Load(dest, addr) => {
            map.insert(dest.value.0, IrArg::Register(IrRegister(dest.value.0, dest.value.1)));
            map.insert(addr.value.get_name(), addr.value);
        },
        IrPattern::Store(value, addr) => {
            map.insert(value.value.get_name(), value.value);
            map.insert(addr.value.get_name(), addr.value);
        },
    }
    assert(map.entries@ =~= m0 + pattern_bindings(*pattern));
}

/// Bind the names a control flow instruction of a pattern mentions
pub fn update_pattern_last_types(pattern: &IrPatternLast, map: &mut Bindings)
    ensures
        final(map).entries@ == old(map).entries@ + last_bindings(*pattern),
{
    let ghost m0 = map.entries@;
    match pattern {
        IrPatternLast::Ret(Some(val)) => {
            map.insert(val.value.get_name(), val.value);
        },
        IrPatternLast::Br(cond, _, _) => {
            map.insert(cond.value.get_name(), cond.value);
        },
        IrPatternLast::Ret(None) | IrPatternLast::Jmp(_) => {},
    }
    assert(map.entries@ =~= m0 + last_bindings(*pattern));
}


// --- The text of the generated code: assembly ----------------------------------

/// The name of a machine register's variant
pub open spec fn register_debug(r: MachineRegister) -> Seq<char> {
    match r {
        MachineRegister::RAX => "RAX"@,
        MachineRegister::RBX => "RBX"@,
        MachineRegister::RCX => "RCX"@,
        MachineRegister::RDX => "RDX"@,
        MachineRegister::RSI => "RSI"@,
        MachineRegister::RDI => "RDI"@,
        MachineRegister::R8 => "R8"@,
        MachineRegister::R9 => "R9"@,
        MachineRegister::R10 => "R10"@,
        MachineRegister::R11 => "R11"@,
        MachineRegister::R12 => "R12"@,
        MachineRegister::R13 => "R13"@,
        MachineRegister::R14 => "R14"@,
        MachineRegister::R15 => "R15"@,
        MachineRegister::RSP => "RSP"@,
        MachineRegister::RBP => "RBP"@,
        MachineRegister::CL => "CL"@,
    }
}

fn register_variant(r: MachineRegister) -> (t: &'static str)
    ensures
        t@ == register_debug(r),
{
    match r {
        MachineRegister::RAX => "RAX",
        MachineRegister::RBX => "RBX",
        MachineRegister::RCX => "RCX",
        MachineRegister::RDX => "RDX",
        MachineRegister::RSI => "RSI",
        MachineRegister::RDI => "RDI",
        MachineRegister::R8 => "R8",
        MachineRegister::R9 => "R9",
        MachineRegister::R10 => "R10",
        MachineRegister::R11 => "R11",
        MachineRegister::R12 => "R12",
        MachineRegister::R13 => "R13",
        MachineRegister::R14 => "R14",
        MachineRegister::R15 => "R15",
        MachineRegister::RSP => "RSP",
        MachineRegister::RBP => "RBP",
        MachineRegister::CL => "CL",
    }
}

/// The name of an operand size's variant
pub open spec fn size_debug(s: OperandSize) -> Seq<char> {
    match s {
        OperandSize::Byte => "Byte"@,
        OperandSize::Word => "Word"@,
        OperandSize::DWord => "DWord"@,
        OperandSize::QWord => "QWord"@,
    }
}

fn size_variant(s: OperandSize) -> (t: &'static str)
    ensures
        t@ == size_debug(s),
{
    match s {
        OperandSize::Byte => "Byte",
        OperandSize::Word => "Word",
        OperandSize::DWord => "DWord",
        OperandSize::QWord => "QWord",
    }
}

/// An optional value in Rust syntax
pub open spec fn option_text(o: Option<Seq<char>>) -> Seq<char> {
    match o {
        Some(t) => "Some("@ + t + ")"@,
        None => "None"@,
    }
}

/// A register argument of a memory operand (`None` for other arguments)
pub open spec fn asm_register_text(a: AsmArg, n: Seq<Seq<char>>) -> Option<Seq<char>> {
    match a {
        AsmArg::Register(reg) => Some("asm::Register::Machine(MachineRegister::"@ + register_debug(reg) + ")"@),
        AsmArg::NewRegister(reg) => Some("asm::Register::Virtual("@ + ident_text(reg.value, n) + ")"@),
        AsmArg::IrArg(arg) => Some("asm::Register::Virtual("@ + ident_text(arg.value, n) + ")"@),
        _ => None,
    }
}

/// The text of a register argument that is known to be one
pub open spec fn register_part(a: AsmArg, n: Seq<Seq<char>>) -> Seq<char> {
    match asm_register_text(a, n) {
        Some(t) => t,
        None => Seq::empty(),
    }
}

/// A memory operand (`None` if its base or index is no register)
pub open spec fn indirect_text(
    size: Option<OperandSize>,
    base: Option<Box<AsmArg>>,
    index: Option<(Box<AsmArg>, u32)>,
    disp: Option<i32>,
    n: Seq<Seq<char>>,
) -> Option<Seq<char>> {
    if (base matches Some(b) && asm_register_text(*b, n) is None)
        || (index matches Some((i, _)) && asm_register_text(*i, n) is None) {
        None
    } else {
        Some("asm::Argument::Indirect { size: "@ + option_text(match size {
            Some(s) => Some("asm::OperandSize::"@ + size_debug(s)),
            None => None,
        }) + ", base: "@ + option_text(match base {
            Some(b) => Some(register_part(*b, n)),
            None => None,
        }) + ", index: "@ + option_text(match index {
            Some((i, f)) => Some("("@ + register_part(*i, n) + ", "@ + decimal(f as nat) + ")"@),
            None => None,
        }) + ", disp: "@ + option_text(match disp {
            Some(d) => Some(signed_decimal(d as int)),
            None => None,
        }) + " }"@)
    }
}

/// An argument of an assembly instruction (`None` if it names an IR
/// argument that the rule does not bind, or is a memory operand with a part
/// that is no register)
pub open spec fn asm_arg_text(a: AsmArg, b: Seq<(Ident, IrArg)>, n: Seq<Seq<char>>) -> Option<Seq<char>> {
    match a {
        AsmArg::Register(reg) => Some("asm::Argument::Register(asm::Register::Machine(MachineRegister::"@
            + register_debug(reg) + "))"@),
        AsmArg::StackSlot(reg) => Some("asm::Argument::StackSlot(asm::Register::Virtual("@ + ident_text(reg.value, n) + "))"@),
        AsmArg::NewRegister(reg) => Some("asm::Argument::Register(asm::Register::Virtual("@ + ident_text(reg.value, n) + "))"@),
        AsmArg::IrArg(arg) => match lookup_binding(b, arg.value) {
            Some(IrArg::Register(IrRegister(id, IrRegisterKind::Local))) =>
                Some("asm::Argument::Register(asm::Register::Virtual("@ + ident_text(id, n) + "))"@),
            Some(IrArg::Register(IrRegister(id, IrRegisterKind::Stack))) =>
                Some("asm::Argument::StackSlot("@ + ident_text(id, n) + ")"@),
            Some(IrArg::Literal(_)) => Some("asm::Argument::Immediate(machine::Word::from("@ + ident_text(arg.value, n) + "))"@),
            Some(IrArg::Static(_)) => Some("asm::Argument::Address("@ + ident_text(arg.value, n) + ")"@),
            None => None,
        },
        AsmArg::Literal(lit) => Some("asm::Argument::Immediate("@ + ident_text(lit.value, n) + ")"@),
        AsmArg::Label(target) => Some("asm::Argument::Label("@ + ident_text(target.value, n) + ")"@),
        AsmArg::Indirect { size, base, index, disp } => indirect_text(size, base, index, disp, n),
    }
}

/// The texts of the arguments of an instruction (`None` if one has none)
pub open spec fn args_texts(args: Seq<Spanned<AsmArg>>, b: Seq<(Ident, IrArg)>, n: Seq<Seq<char>>) -> Option<Seq<Seq<char>>>
    decreases args.len(),
{
    if args.len() == 0 {
        Some(Seq::empty())
    } else {
        match (args_texts(args.drop_last(), b, n), asm_arg_text(args.last().value, b, n)) {
            (Some(ts), Some(t)) => Some(ts.push(t)),
            _ => None,
        }
    }
}

/// The statement that emits an assembly instruction
pub open spec fn asm_instr_text(i: AsmInstr, b: Seq<(Ident, IrArg)>, n: Seq<Seq<char>>) -> Option<Seq<char>> {
    match args_texts(i.args@, b, n) {
        Some(ts) => Some("code.emit_instruction(asm::Instruction::new(Ident::from_str(\""@ + ident_text(i.mnemonic.value, n)
            + "\"), vec!["@ + join(ts, ", "@) + "]));"@),
        None => None,
    }
}

/// The statements of a list of instructions (`None` if one has none)
pub open spec fn instrs_texts(instrs: Seq<Spanned<AsmInstr>>, b: Seq<(Ident, IrArg)>, n: Seq<Seq<char>>) -> Option<Seq<Seq<char>>>
    decreases instrs.len(),
{
    if instrs.len() == 0 {
        Some(Seq::empty())
    } else {
        match (instrs_texts(instrs.drop_last(), b, n), asm_instr_text(instrs.last().value, b, n)) {
            (Some(ts), Some(t)) => Some(ts.push(t)),
            _ => None,
        }
    }
}

/// The declaration of a fresh register
pub open spec fn new_register_let(name: Ident, n: Seq<Seq<char>>) -> Seq<char> {
    "let "@ + ident_text(name, n) + " = Ident::from_str(\""@ + ident_text(name, n) + "\");\n            "@
}

/// The declarations of the fresh registers of arguments
pub open spec fn args_lets(args: Seq<Spanned<AsmArg>>, n: Seq<Seq<char>>) -> Seq<char>
    decreases args.len(),
{
    if args.len() == 0 {
        Seq::empty()
    } else {
        args_lets(args.drop_last(), n) + match args.last().value {
            AsmArg::NewRegister(name) => new_register_let(name.value, n),
            _ => Seq::empty(),
        }
    }
}

/// The declarations of the fresh registers of instructions
pub open spec fn instrs_lets(instrs: Seq<Spanned<AsmInstr>>, n: Seq<Seq<char>>) -> Seq<char>
    decreases instrs.len(),
{
    if instrs.len() == 0 {
        Seq::empty()
    } else {
        instrs_lets(instrs.drop_last(), n) + args_lets(instrs.last().value.args@, n)
    }
}

/// The body of a rule implemented by assembly instructions
pub open spec fn asm_text(instrs: Seq<Spanned<AsmInstr>>, b: Seq<(Ident, IrArg)>, n: Seq<Seq<char>>) -> Option<Seq<char>> {
    match instrs_texts(instrs, b, n) {
        Some(ts) => Some("            "@ + instrs_lets(instrs, n) + join(ts, "\n            "@) + "\n"@),
        None => None,
    }
}

// --- Translating assembly -------------------------------------------------------

/// An optional value in Rust syntax
pub fn translate_option(val: Option<String>) -> (r: String)
    ensures
        r@ == option_text(match val {
            Some(v) => Some(v@),
            None => None,
        }),
{
    let mut s = String::new();
    match val {
        Some(v) => {
            push_str(&mut s, "Some(");
            push_str(&mut s, v.as_str());
            push_str(&mut s, ")");
        },
        None => push_str(&mut s, "None"),
    }
    assert(s@ =~= option_text(match val {
        Some(v) => Some(v@),
        None => None,
    }));
    s
}

/// A register argument of a memory operand (`None` for other arguments)
pub fn translate_asm_arg_register(arg: &AsmArg, interner: &Interner) -> (r: Option<String>)
    ensures
        r is Some <==> asm_register_text(*arg, interner@) is Some,
        r matches Some(t) ==> asm_register_text(*arg, interner@) == Some(t@),
{
    let mut s = String::new();
    match arg {
        AsmArg::Register(reg) => {
            push_str(&mut s, "asm::Register::Machine(MachineRegister::");
            push_str(&mut s, register_variant(*reg));
            push_str(&mut s, ")");
        },
        AsmArg::NewRegister(reg) => {
            push_str(&mut s, "asm::Register::Virtual(");
            push_ident(&mut s, reg.value, interner);
            push_str(&mut s, ")");
        },
        AsmArg::IrArg(arg) => {
            push_str(&mut s, "asm::Register::Virtual(");
            push_ident(&mut s, arg.value, interner);
            push_str(&mut s, ")");
        },
        _ => return None,
    }
    assert(Some(s@) == asm_register_text(*arg, interner@));
    Some(s)
}


/// Declarations cannot fail: a missing prefix of arguments means a missing whole
proof fn lemma_args_texts_none(args: Seq<Spanned<AsmArg>>, k: int, b: Seq<(Ident, IrArg)>, n: Seq<Seq<char>>)
    requires
        0 <= k <= args.len(),
        args_texts(args.subrange(0, k), b, n) is None,
    ensures
        args_texts(args, b, n) is None,
    decreases args.len(),
{
    if args.len() > k {
        assert(args.drop_last().subrange(0, k) =~= args.subrange(0, k));
        lemma_args_texts_none(args.drop_last(), k, b, n);
    } else {
        assert(args.subrange(0, k) =~= args);
    }
}

/// If the statements of a prefix of instructions are missing, so are those of all
proof fn lemma_instrs_texts_none(instrs: Seq<Spanned<AsmInstr>>, k: int, b: Seq<(Ident, IrArg)>, n: Seq<Seq<char>>)
    requires
        0 <= k <= instrs.len(),
        instrs_texts(instrs.subrange(0, k), b, n) is None,
    ensures
        instrs_texts(instrs, b, n) is None,
    decreases instrs.len(),
{
    if instrs.len() > k {
        assert(instrs.drop_last().subrange(0, k) =~= instrs.subrange(0, k));
        lemma_instrs_texts_none(instrs.drop_last(), k, b, n);
    } else {
        assert(instrs.subrange(0, k) =~= instrs);
    }
}

/// An argument of an assembly instruction (`None` where the rule is faulty)
pub fn translate_asm_arg(arg: &AsmArg, types: &Bindings, interner: &Interner) -> (r: Option<String>)
    ensures
        r is Some <==> asm_arg_text(*arg, types.entries@, interner@) is Some,
        r matches Some(t) ==> asm_arg_text(*arg, types.entries@, interner@) == Some(t@),
{
    let ghost n = interner@;
    let mut s = String::new();
    match arg {
        AsmArg::Register(reg) => {
            push_str(&mut s, "asm::Argument::Register(asm::Register::Machine(MachineRegister::");
            push_str(&mut s, register_variant(*reg));
            push_str(&mut s, "))");
        },
        AsmArg::StackSlot(reg) => {
            push_str(&mut s, "asm::Argument::StackSlot(asm::Register::Virtual(");
            push_ident(&mut s, reg.value, interner);
            push_str(&mut s, "))");
        },
        AsmArg::NewRegister(reg) => {
            push_str(&mut s, "asm::Argument::Register(asm::Register::Virtual(");
            push_ident(&mut s, reg.value, interner);
            push_str(&mut s, "))");
        },
        AsmArg::IrArg(arg) => match types.get(arg.value) {
            Some(IrArg::Register(IrRegister(id, IrRegisterKind::Local))) => {
                push_str(&mut s, "asm::Argument::Register(asm::Register::Virtual(");
                push_ident(&mut s, id, interner);
                push_str(&mut s, "))");
            },
            Some(IrArg::Register(IrRegister(id, IrRegisterKind::Stack))) => {
                push_str(&mut s, "asm::Argument::StackSlot(");
                push_ident(&mut s, id, interner);
                push_str(&mut s, ")");
            },
            Some(IrArg::Literal(_)) => {
                push_str(&mut s, "asm::Argument::Immediate(machine::Word::from(");
                push_ident(&mut s, arg.value, interner);
                push_str(&mut s, "))");
            },
            Some(IrArg::Static(_)) => {
                push_str(&mut s, "asm::Argument::Address(");
                push_ident(&mut s, arg.value, interner);
                push_str(&mut s, ")");
            },
            None => return None,
        },
        AsmArg::Literal(lit) => {
            push_str(&mut s, "asm::Argument::Immediate(");
            push_ident(&mut s, lit.value, interner);
            push_str(&mut s, ")");
        },
        AsmArg::Label(target) => {
            push_str(&mut s, "asm::Argument::Label(");
            push_ident(&mut s, target.value, interner);
            push_str(&mut s, ")");
        },
        AsmArg::Indirect { size, base, index, disp } => {
            let size_t = match size {
                Some(sz) => {
                    let mut t = String::new();
                    push_str(&mut t, "asm::OperandSize::");
                    push_str(&mut t, size_variant(*sz));
                    Some(t)
                },
                None => None,
            };
            let base_t = match base {
                Some(b) => match translate_asm_arg_register(&**b, interner) {
                    Some(t) => Some(t),
                    None => return None,
                },
                None => None,
            };
            let index_t = match index {
                Some((i, f)) => match translate_asm_arg_register(&**i, interner) {
                    Some(t) => {
                        let mut u = String::new();
                        push_str(&mut u, "(");
                        push_str(&mut u, t.as_str());
                        push_str(&mut u, ", ");
                        push_u64(&mut u, *f as u64);
                        push_str(&mut u, ")");
                        Some(u)
                    },
                    None => return None,
                },
                None => None,
            };
            let disp_t = match disp {
                Some(d) => {
                    let mut u = String::new();
                    push_i64(&mut u, *d as i64);
                    Some(u)
                },
                None => None,
            };
            let ghost size_o = match size_t { Some(ref t) => Some(t@), None => None };
            let ghost base_o = match base_t { Some(ref t) => Some(t@), None => None };
            let ghost index_o = match index_t { Some(ref t) => Some(t@), None => None };
            let ghost disp_o = match disp_t { Some(ref t) => Some(t@), None => None };
            assert(size_o == (match *size {
                Some(s) => Some("asm::OperandSize::"@ + size_debug(s)),
                None => None,
            }));
            assert(base_o == (match *base {
                Some(b) => Some(register_part(*b, n)),
                None => None,
            }));
            assert(index_o == (match *index {
                Some((i, f)) => Some("("@ + register_part(*i, n) + ", "@ + decimal(f as nat) + ")"@),
                None => None,
            }));
            assert(disp_o == (match *disp {
                Some(d) => Some(signed_decimal(d as int)),
                None => None,
            }));
            push_str(&mut s, "asm::Argument::Indirect { size: ");
            push_str(&mut s, translate_option(size_t).as_str());
            push_str(&mut s, ", base: ");
            push_str(&mut s, translate_option(base_t).as_str());
            push_str(&mut s, ", index: ");
            push_str(&mut s, translate_option(index_t).as_str());
            push_str(&mut s, ", disp: ");
            push_str(&mut s, translate_option(disp_t).as_str());
            push_str(&mut s, " }");
        },
    }
    assert(asm_arg_text(*arg, types.entries@, n) == Some(s@));
    Some(s)
}


/// The statement that emits an assembly instruction (`None` where the rule
/// is faulty)
pub fn translate_asm_instr(instr: &AsmInstr, types: &Bindings, interner: &Interner) -> (r: Option<String>)
    ensures
        r is Some <==> asm_instr_text(*instr, types.entries@, interner@) is Some,
        r matches Some(t) ==> asm_instr_text(*instr, types.entries@, interner@) == Some(t@),
{
    let ghost b = types.entries@;
    let ghost n = interner@;
    let mut args: Vec<String> = Vec::new();
    let mut i: usize = 0;
    while i < instr.args.len()
        invariant
            i <= instr.args@.len(),
            b == types.entries@,
            n == interner@,
            args_texts(instr.args@.subrange(0, i as int), b, n) == Some(texts(args@)),
        decreases instr.args@.len() - i,
    {
        let ghost prefix = instr.args@.subrange(0, i + 1);
        assert(prefix.drop_last() =~= instr.args@.subrange(0, i as int));
        match translate_asm_arg(&instr.args[i].value, types, interner) {
            Some(t) => {
                let ghost before = args@;
                args.push(t);
                assert(texts(args@) =~= texts(before).push(t@));
            },
            None => {
                proof {
                    lemma_args_texts_none(instr.args@, i + 1, b, n);
                }
                return None;
            },
        }
        i = i + 1;
    }
    assert(instr.args@.subrange(0, instr.args@.len() as int) =~= instr.args@);
    let mut s = String::new();
    push_str(&mut s, "code.emit_instruction(asm::Instruction::new(Ident::from_str(\"");
    push_ident(&mut s, instr.mnemonic.value, interner);
    push_str(&mut s, "\"), vec![");
    push_join(&mut s, &args, ", ");
    push_str(&mut s, "]));");
    assert(asm_instr_text(*instr, b, n) == Some(s@));
    Some(s)
}

/// Append the declarations of the fresh registers of arguments
fn push_new_registers(s: &mut String, args: &Vec<Spanned<AsmArg>>, interner: &Interner)
    ensures
        final(s)@ == old(s)@ + args_lets(args@, interner@),
{
    let ghost s0 = s@;
    let mut i: usize = 0;
    while i < args.len()
        invariant
            i <= args@.len(),
            s@ == s0 + args_lets(args@.subrange(0, i as int), interner@),
        decreases args@.len() - i,
    {
        let ghost prefix = args@.subrange(0, i + 1);
        assert(prefix.drop_last() =~= args@.subrange(0, i as int));
        let ghost before = s@;
        if let AsmArg::NewRegister(name) = &args[i].value {
            push_str(s, "let ");
            push_ident(s, name.value, interner);
            push_str(s, " = Ident::from_str(\"");
            push_ident(s, name.value, interner);
            push_str(s, "\");\n            ");
            assert(s@ =~= before + new_register_let(name.value, interner@));
        } else {
            assert(before + Seq::<char>::empty() =~= before);
        }
        assert(s@ =~= s0 + args_lets(prefix, interner@));
        i = i + 1;
    }
    assert(args@.subrange(0, args@.len() as int) =~= args@);
}

/// The body of a rule implemented by assembly instructions (`None` where the
/// rule is faulty)
pub fn translate_asm(code: &[Spanned<AsmInstr>], types: &Bindings, interner: &Interner) -> (r: Option<String>)
    ensures
        r is Some <==> asm_text(code@, types.entries@, interner@) is Some,
        r matches Some(t) ==> asm_text(code@, types.entries@, interner@) == Some(t@),
{
    let ghost b = types.entries@;
    let ghost n = interner@;
    let mut s = String::new();
    push_str(&mut s, "            ");
    let ghost s0 = s@;

    // Declare the fresh registers
    let mut i: usize = 0;
    while i < code.len()
        invariant
            i <= code@.len(),
            n == interner@,
            s@ == s0 + instrs_lets(code@.subrange(0, i as int), n),
        decreases code@.len() - i,
    {
        let ghost prefix = code@.subrange(0, i + 1);
        assert(prefix.drop_last() =~= code@.subrange(0, i as int));
        push_new_registers(&mut s, &code[i].value.args, interner);
        assert(s@ =~= s0 + instrs_lets(prefix, n));
        i = i + 1;
    }
    assert(code@.subrange(0, code@.len() as int) =~= code@);

    // Emit the instructions
    let mut instrs: Vec<String> = Vec::new();
    let mut j: usize = 0;
    while j < code.len()
        invariant
            j <= code@.len(),
            b == types.entries@,
            n == interner@,
            instrs_texts(code@.subrange(0, j as int), b, n) == Some(texts(instrs@)),
        decreases code@.len() - j,
    {
        let ghost prefix = code@.subrange(0, j + 1);
        assert(prefix.drop_last() =~= code@.subrange(0, j as int));
        match translate_asm_instr(&code[j].value, types, interner) {
            Some(t) => {
                let ghost before = instrs@;
                instrs.push(t);
                assert(texts(instrs@) =~= texts(before).push(t@));
            },
            None => {
                proof {
                    lemma_instrs_texts_none(code@, j + 1, b, n);
                }
                return None;
            },
        }
        j = j + 1;
    }
    assert(code@.subrange(0, code@.len() as int) =~= code@);
    push_join(&mut s, &instrs, "\n            ");
    push_str(&mut s, "\n");
    assert(asm_text(code@, b, n) == Some(s@));
    Some(s)
}

// --- Translating rules -----------------------------------------------------------

/// The `match` arm a rule compiles to (`None` if the rule uses a name its
/// pattern does not bind, or a memory operand part that is no register)
pub open spec fn rule_text(rule: Rule, n: Seq<Seq<char>>) -> Option<Seq<char>> {
    let body = match rule.implementation {
        Impl::Asm(instrs) => asm_text(instrs.value@, rule_bindings(rule), n),
        Impl::Rust(source) => Some(ident_text(source.value, n)),
    };
    match body {
        Some(t) => Some("        "@ + pattern_text(rule.pattern.value, n) + " => {\n"@ + t + "            ("@
            + decimal(rule.pattern.value.ir_patterns@.len()) + ", "@
            + (if rule.pattern.value.last is Some { "true"@ } else { "false"@ }) + ")\n"@ + "        }"@),
        None => None,
    }
}

/// Bind the fresh registers of assembly instructions
fn bind_new_registers(code: &Vec<Spanned<AsmInstr>>, map: &mut Bindings)
    ensures
        final(map).entries@ == old(map).entries@ + instrs_new_registers(code@),
{
    let ghost m0 = map.entries@;
    let mut i: usize = 0;
    while i < code.len()
        invariant
            i <= code@.len(),
            map.entries@ == m0 + instrs_new_registers(code@.subrange(0, i as int)),
        decreases code@.len() - i,
    {
        let ghost prefix = code@.subrange(0, i + 1);
        assert(prefix.drop_last() =~= code@.subrange(0, i as int));
        let ghost m1 = map.entries@;
        let args = &code[i].value.args;
        let mut j: usize = 0;
        while j < args.len()
            invariant
                j <= args@.len(),
                map.entries@ == m1 + args_new_registers(args@.subrange(0, j as int)),
            decreases args@.len() - j,
        {
            let ghost aprefix = args@.subrange(0, j + 1);
            assert(aprefix.drop_last() =~= args@.subrange(0, j as int));
            let ghost before = map.entries@;
            if let AsmArg::NewRegister(name) = &args[j].value {
                map.insert(name.value, IrArg::Register(IrRegister(name.value, IrRegisterKind::Local)));
            }
            assert(map.entries@ =~= m1 + args_new_registers(aprefix));
            j = j + 1;
        }
        assert(args@.subrange(0, args@.len() as int) =~= args@);
        assert(map.entries@ =~= m0 + instrs_new_registers(prefix));
        i = i + 1;
    }
    assert(code@.subrange(0, code@.len() as int) =~= code@);
}

/// The `match` arm a rule compiles to (`None` where the rule is faulty)
pub fn translate_rule(rule: &Rule, interner: &Interner) -> (r: Option<String>)
    ensures
        r is Some <==> rule_text(*rule, interner@) is Some,
        r matches Some(t) ==> rule_text(*rule, interner@) == Some(t@),
{
    let ghost n = interner@;
    let mut arg_types = Bindings::new();
    let pattern = &rule.pattern.value;
    let mut i: usize = 0;
    while i < pattern.ir_patterns.len()
        invariant
            i <= pattern.ir_patterns@.len(),
            arg_types.entries@ == patterns_bindings(pattern.ir_patterns@.subrange(0, i as int)),
        decreases pattern.ir_patterns@.len() - i,
    {
        let ghost prefix = pattern.ir_patterns@.subrange(0, i + 1);
        assert(prefix.drop_last() =~= pattern.ir_patterns@.subrange(0, i as int));
        update_pattern_types(&pattern.ir_patterns[i].value, &mut arg_types);
        i = i + 1;
    }
    assert(pattern.ir_patterns@.subrange(0, pattern.ir_patterns@.len() as int) =~= pattern.ir_patterns@);
    let ghost m1 = arg_types.entries@;
    if let Some(l) = &pattern.last {
        update_pattern_last_types(&l.value, &mut arg_types);
    } else {
        assert(m1 + Seq::<(Ident, IrArg)>::empty() =~= m1);
    }

    let mut s = String::new();
    push_str(&mut s, "        ");
    push_str(&mut s, translate_pattern(pattern, interner).as_str());
    push_str(&mut s, " => {\n");

    match &rule.implementation {
        Impl::Asm(code) => {
            bind_new_registers(&code.value, &mut arg_types);
            assert(arg_types.entries@ =~= rule_bindings(*rule));
            match translate_asm(code.value.as_slice(), &arg_types, interner) {
                Some(t) => push_str(&mut s, t.as_str()),
                None => return None,
            }
        },
        Impl::Rust(source) => {
            push_ident(&mut s, source.value, interner);
        },
    }

    push_str(&mut s, "            (");
    push_u64(&mut s, pattern.ir_patterns.len() as u64);
    push_str(&mut s, ", ");
    push_str(&mut s, if pattern.last.is_some() { "true" } else { "false" });
    push_str(&mut s, ")\n");
    push_str(&mut s, "        }");

    assert(rule_text(*rule, n) == Some(s@));
    Some(s)
}


// --- Compiling a rules file --------------------------------------------------------

/// What the generated file starts with: the imports and the head of the
/// selection function, up to the arms of its `match`
pub open spec fn rules_prefix() -> Seq<char> {
    "// AUTOGENERATED CODE! DO NOT EDIT!\nuse driver::interner::Ident;\nuse middle::ir;\nuse back::machine::{self, MachineRegister};\nuse back::machine::cconv;\nuse back::machine::asm;\n\n#[derive(Debug)]\nenum IrLine<'a> {\n    Instruction(&'a ir::Instruction),\n    CFInstruction(&'a ir::ControlFlowInstruction),\n}\n\n#[allow(non_shorthand_field_patterns)]\n#[allow(unused_variables)]\npub fn trans_instr(instr: &[&ir::Instruction],\n                   last: &ir::ControlFlowInstruction,\n                   code: &mut asm::Block)\n                   -> (usize, bool)\n{\n    let mut lines: Vec<_> = instr.iter().map(|i| IrLine::Instruction(i)).collect();\n    lines.push(IrLine::CFInstruction(last));\n\n    match *lines {\n"@
}

/// What the generated file ends with: the fallback arm of the `match`
pub open spec fn rules_suffix() -> Seq<char> {
    ",\n        _ => {\n            println!(\"instr: {:?}\", instr);\n            println!(\"last: {:?}\", last);\n            println!(\"lines: {:?}\", lines);\n            panic!(\"No rule to translate {:?} to asm\", lines)\n        }\n    }\n}\n"@
}

/// The arms of a list of rules (`None` if one of the rules is faulty)
pub open spec fn rules_texts(rules: Seq<Spanned<Rule>>, n: Seq<Seq<char>>) -> Option<Seq<Seq<char>>>
    decreases rules.len(),
{
    if rules.len() == 0 {
        Some(Seq::empty())
    } else {
        match (rules_texts(rules.drop_last(), n), rule_text(rules.last().value, n)) {
            (Some(ts), Some(t)) => Some(ts.push(t)),
            _ => None,
        }
    }
}

/// The generated file for a list of rules
pub open spec fn rules_file_text(rules: Seq<Spanned<Rule>>, n: Seq<Seq<char>>) -> Option<Seq<char>> {
    match rules_texts(rules, n) {
        Some(ts) => Some(rules_prefix() + join(ts, ",\n"@) + rules_suffix()),
        None => None,
    }
}

/// If the arms of a prefix of rules are missing, so are those of all
proof fn lemma_rules_texts_none(rules: Seq<Spanned<Rule>>, k: int, n: Seq<Seq<char>>)
    requires
        0 <= k <= rules.len(),
        rules_texts(rules.subrange(0, k), n) is None,
    ensures
        rules_texts(rules, n) is None,
    decreases rules.len(),
{
    if rules.len() > k {
        assert(rules.drop_last().subrange(0, k) =~= rules.subrange(0, k));
        lemma_rules_texts_none(rules.drop_last(), k, n);
    } else {
        assert(rules.subrange(0, k) =~= rules);
    }
}

/// Generate the code of the instruction selector from parsed rules (`None`
/// if a rule uses a name its pattern does not bind, or a memory operand part
/// that is no register)
pub fn generate(rules: &Vec<Spanned<Rule>>, interner: &Interner) -> (r: Option<String>)
    ensures
        r is Some <==> rules_file_text(rules@, interner@) is Some,
        r matches Some(t) ==> rules_file_text(rules@, interner@) == Some(t@),
{
    let ghost n = interner@;
    let mut arms: Vec<String> = Vec::new();
    let mut i: usize = 0;
    while i < rules.len()
        invariant
            i <= rules@.len(),
            n == interner@,
            rules_texts(rules@.subrange(0, i as int), n) == Some(texts(arms@)),
        decreases rules@.len() - i,
    {
        let ghost prefix = rules@.subrange(0, i + 1);
        assert(prefix.drop_last() =~= rules@.subrange(0, i as int));
        match translate_rule(&rules[i].value, interner) {
            Some(t) => {
                let ghost before = arms@;
                arms.push(t);
                assert(texts(arms@) =~= texts(before).push(t@));
            },
            None => {
                proof {
                    lemma_rules_texts_none(rules@, i + 1, n);
                }
                return None;
            },
        }
        i = i + 1;
    }
    assert(rules@.subrange(0, rules@.len() as int) =~= rules@);
    let mut s = String::new();
    push_str(&mut s, "// AUTOGENERATED CODE! DO NOT EDIT!\nuse driver::interner::Ident;\nuse middle::ir;\nuse back::machine::{self, MachineRegister};\nuse back::machine::cconv;\nuse back::machine::asm;\n\n#[derive(Debug)]\nenum IrLine<'a> {\n    Instruction(&'a ir::Instruction),\n    CFInstruction(&'a ir::ControlFlowInstruction),\n}\n\n#[allow(non_shorthand_field_patterns)]\n#[allow(unused_variables)]\npub fn trans_instr(instr: &[&ir::Instruction],\n                   last: &ir::ControlFlowInstruction,\n                   code: &mut asm::Block)\n                   -> (usize, bool)\n{\n    let mut lines: Vec<_> = instr.iter().map(|i| IrLine::Instruction(i)).collect();\n    lines.push(IrLine::CFInstruction(last));\n\n    match *lines {\n");
    push_join(&mut s, &arms, ",\n");
    push_str(&mut s, ",\n        _ => {\n            println!(\"instr: {:?}\", instr);\n            println!(\"last: {:?}\", last);\n            println!(\"lines: {:?}\", lines);\n            panic!(\"No rule to translate {:?} to asm\", lines)\n        }\n    }\n}\n");
    assert(rules_file_text(rules@, n) == Some(s@));
    Some(s)
}

/// Load all keywords of the rule language into the interner
pub fn setup(interner: &mut Interner)
    requires
        old(interner).wf(),
    ensures
        final(interner).wf(),
        forall|i: int| 0 <= i < all_keywords().len() ==> #[trigger] final(interner)@.contains(keyword_text(all_keywords()[i])),
        forall|n: Seq<char>| old(interner)@.contains(n) ==> final(interner)@.contains(n),
        forall|k: int| 0 <= k < old(interner)@.len() ==> #[trigger] final(interner)@[k] == old(interner)@[k],
        (forall|i: int| 0 <= i < all_keywords().len() ==> #[trigger] old(interner)@.contains(keyword_text(all_keywords()[i])))
            ==> final(interner)@ == old(interner)@,
{
    Keyword::setup(interner);
}

/// Compile a rules file into the Rust code of the instruction selector.
/// Parse errors are returned with their position; a rule that uses a name
/// its pattern does not bind, or a memory operand part that is no register,
/// is an error without a position.
pub fn compile_rules(input: &str, filename: &str) -> (r: Result<String, Diagnostic>)
    requires
        utf8_total(input@) < u32::MAX,
        input@.len() > 0 ==> input@[0] != '\n',
    ensures
        r matches Ok(t) ==> exists|toks: Seq<Token>, gaps: Seq<bool>, c: int, rules: Seq<Spanned<Rule>>, n: Seq<Seq<char>>|
            #![trigger reads(input@, n, 0, toks, gaps, c), rules_file_text(rules, n)]
            reads(input@, n, 0, toks, gaps, c) && rules_tokens(toks.drop_last(), rules, n)
                && rules_file_text(rules, n) == Some(t@),
{
    let mut session = Session::new();
    setup(&mut session.interner);

    let mut parser = Parser::new(Lexer::new(input, filename, session))?;
    let rules = parser.parse()?;
    proof {
        let t = choose|t: Seq<Token>| parser.consumed@ == Seq::<Token>::empty() + t
            && rules_tokens(t, rules@, parser.names());
        let toks = parser.consumed@.push(parser.token);
        assert(toks.drop_last() =~= t);
        assert(reads(input@, parser.names(), 0, toks, parser.gaps@, parser.lexer.index()));
    }

    match generate(&rules, &parser.lexer.cursor.session.interner) {
        Some(t) => Ok(t),
        None => {
            let mut msg = String::new();
            push_str(&mut msg, "a rule uses an unbound name or a memory operand part that is no register");
            Err(Diagnostic::general(msg))
        },
    }
}

} // verus!
