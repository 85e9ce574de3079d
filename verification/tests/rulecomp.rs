use rustiny::back::instsel::rulecomp::ast::{AsmArg, IrArg, IrLabel, IrPattern, IrPatternLast, IrRegister, IrRegisterKind};
use rustiny::back::instsel::rulecomp::lexer::Lexer;
use rustiny::back::instsel::rulecomp::parser::Parser;
use rustiny::back::instsel::rulecomp::tokens::{lookup_keyword, Keyword, Token};
use rustiny::back::instsel::rulecomp::{
    compile_rules, translate_asm_arg, translate_ir_arg, translate_ir_pattern, translate_ir_pattern_last,
    translate_option, translate_pattern, Bindings,
};
use rustiny::back::machine::MachineRegister;
use rustiny::back::machine::assembly::OperandSize;
use rustiny::driver::interner::{Ident, Interner};
use rustiny::driver::session::Session;
use rustiny::front::ast::{Span, Spanned};

const PREFIX: &str = "// AUTOGENERATED CODE! DO NOT EDIT!
use driver::interner::Ident;
use middle::ir;
use back::machine::{self, MachineRegister};
use back::machine::cconv;
use back::machine::asm;

#[derive(Debug)]
enum IrLine<'a> {
    Instruction(&'a ir::Instruction),
    CFInstruction(&'a ir::ControlFlowInstruction),
}

#[allow(non_shorthand_field_patterns)]
#[allow(unused_variables)]
pub fn trans_instr(instr: &[&ir::Instruction],
                   last: &ir::ControlFlowInstruction,
                   code: &mut asm::Block)
                   -> (usize, bool)
{
    let mut lines: Vec<_> = instr.iter().map(|i| IrLine::Instruction(i)).collect();
    lines.push(IrLine::CFInstruction(last));

    match *lines {
";

const SUFFIX: &str = ",
        _ => {
            println!(\"instr: {:?}\", instr);
            println!(\"last: {:?}\", last);
            println!(\"lines: {:?}\", lines);
            panic!(\"No rule to translate {:?} to asm\", lines)
        }
    }
}
";

fn tokens(source: &str) -> Result<Vec<Token>, String> {
    let mut lx = Lexer::new(source, "<rules>", Session::new());
    let mut out = Vec::new();
    loop {
        let t = lx.next_token().map_err(|d| d.msg)?;
        out.push(t.value);
        if t.value == Token::EOF {
            return Ok(out);
        }
    }
}

fn name(interner: &Interner, id: Ident) -> String {
    interner.resolve(id).iter().collect()
}

fn sp<T>(value: T) -> Spanned<T> {
    Spanned { value, span: Span { pos: 0, len: 0 } }
}

#[test]
fn rule_lexer_reads_punctuation() {
    let toks = tokens("! $ % 0 = => + - -> * . .. ( ) [ ] { } , ;").unwrap();
    assert_eq!(
        toks,
        vec![
            Token::Bang,
            Token::Dollar,
            Token::Percent,
            Token::Zero,
            Token::Equal,
            Token::FatArrow,
            Token::Plus,
            Token::Minus,
            Token::Arrow,
            Token::Asterisk,
            Token::Dot,
            Token::DoubleDot,
            Token::LParen,
            Token::RParen,
            Token::LBracket,
            Token::RBracket,
            Token::LBrace,
            Token::RBrace,
            Token::Comma,
            Token::Semicolon,
            Token::EOF,
        ]
    );
}

#[test]
fn rule_lexer_reads_keywords_idents_and_literals() {
    let mut lx = Lexer::new("rules mov 12 // a comment\n add", "<rules>", Session::new());
    assert_eq!(lx.next_token().unwrap().value, Token::Keyword(Keyword::Rules));
    let mov = lx.next_token().unwrap();
    let lit = lx.next_token().unwrap();
    assert_eq!(lx.next_token().unwrap().value, Token::Keyword(Keyword::Add));
    assert_eq!(lx.next_token().unwrap().value, Token::EOF);
    let interner = &lx.cursor.session.interner;
    match mov.value {
        Token::Ident(id) => assert_eq!(name(interner, id), "mov"),
        t => panic!("expected an identifier, got {:?}", t),
    }
    assert_eq!((mov.span.pos, mov.span.len), (6, 3));
    match lit.value {
        Token::Literal(id) => assert_eq!(name(interner, id), "12"),
        t => panic!("expected a literal, got {:?}", t),
    }
}

#[test]
fn rule_lexer_rejects_unknown_characters() {
    assert_eq!(tokens("@(x)").unwrap_err(), "unexpected character: `@`");
    assert_eq!(tokens("a / b").unwrap_err(), "unexpected character: `/`");
}

#[test]
fn rule_lexer_reads_snippets() {
    let mut lx = Lexer::new("{ a == b } x", "<rules>", Session::new());
    assert_eq!(lx.next_token().unwrap().value, Token::LBrace);
    let id = lx.tokenize_snippet().unwrap();
    assert_eq!(name(&lx.cursor.session.interner, id), "a == b ");
    match lx.next_token().unwrap().value {
        Token::Ident(_) => {},
        t => panic!("expected an identifier, got {:?}", t),
    }
    let mut empty = Lexer::new("{}", "<rules>", Session::new());
    assert_eq!(empty.next_token().unwrap().value, Token::LBrace);
    assert!(empty.tokenize_snippet().is_err());
}

#[test]
fn keywords_are_looked_up() {
    let chars: Vec<char> = "qword".chars().collect();
    assert_eq!(lookup_keyword(&chars), Some(Keyword::QWord));
    let chars: Vec<char> = "mov".chars().collect();
    assert_eq!(lookup_keyword(&chars), None);
}

#[test]
fn rule_parser_reads_a_rule() {
    let source = "rules! { [%(dst) = sub %(a), 0(b); ret %(dst)] => { sub %(dst), $b; } }";
    let mut p = Parser::new(Lexer::new(source, "<rules>", Session::new())).unwrap();
    let rules = p.parse().unwrap();
    assert_eq!(rules.len(), 1);
    let pattern = &rules[0].value.pattern.value;
    assert_eq!(pattern.ir_patterns.len(), 1);
    match &pattern.ir_patterns[0].value {
        IrPattern::Sub(d, a, b) => {
            assert_eq!(d.value.1, IrRegisterKind::Local);
            assert!(matches!(a.value, IrArg::Register(IrRegister(_, IrRegisterKind::Local))));
            assert!(matches!(b.value, IrArg::Literal(_)));
        },
        p => panic!("expected a sub, got {:?}", p),
    }
    assert!(matches!(pattern.last.as_ref().map(|l| &l.value), Some(IrPatternLast::Ret(Some(_)))));
    assert!(pattern.cond.is_none());
}

#[test]
fn rule_parser_reads_memory_operands_and_registers() {
    let source = "rules! { [..] => { mov qword ptr [RBP - 8], rax; mov rcx, [$a * 4 - 16]; } }";
    let mut p = Parser::new(Lexer::new(source, "<rules>", Session::new())).unwrap();
    let rules = p.parse().unwrap();
    let code = match &rules[0].value.implementation {
        rustiny::back::instsel::rulecomp::ast::Impl::Asm(code) => &code.value,
        _ => panic!("expected assembly"),
    };
    assert_eq!(code.len(), 2);
    match &code[0].value.args[0].value {
        AsmArg::Indirect { size, base, index, disp } => {
            assert_eq!(*size, Some(OperandSize::QWord));
            assert!(matches!(base.as_deref(), Some(AsmArg::Register(MachineRegister::RBP))));
            assert!(index.is_none());
            assert_eq!(*disp, Some(-8));
        },
        a => panic!("expected a memory operand, got {:?}", a),
    }
    assert!(matches!(code[0].value.args[1].value, AsmArg::Register(MachineRegister::RAX)));
    match &code[1].value.args[1].value {
        AsmArg::Indirect { size, base, index, disp } => {
            assert_eq!(*size, None);
            assert!(base.is_none());
            assert!(matches!(index.as_ref().map(|(i, f)| (&**i, *f)), Some((AsmArg::IrArg(_), 4))));
            assert_eq!(*disp, Some(-16));
        },
        a => panic!("expected a memory operand, got {:?}", a),
    }
}

#[test]
fn rule_parser_reports_errors() {
    let mut p = Parser::new(Lexer::new("rules { }", "<rules>", Session::new())).unwrap();
    assert_eq!(p.parse().unwrap_err().msg, "expected `!`, found `{`");
    let mut p = Parser::new(Lexer::new("rules! { [..] => { mov foo; } }", "<rules>", Session::new())).unwrap();
    assert_eq!(p.parse().unwrap_err().msg, "Invalid register: foo");
    let mut p = Parser::new(Lexer::new("rules! { [%(a) = cmp xx %(b), %(c); ..] => { } }", "<rules>", Session::new())).unwrap();
    assert_eq!(p.parse().unwrap_err().msg, "Invalid comparison: xx");
}

#[test]
fn ir_patterns_are_translated() {
    let mut interner = Interner::new();
    let d = interner.intern_str("dst");
    let a = interner.intern_str("lhs");
    let b = interner.intern_str("rhs");
    let pattern = IrPattern::CmpLe(
        sp(IrRegister(d, IrRegisterKind::Local)),
        sp(IrArg::Register(IrRegister(a, IrRegisterKind::Stack))),
        sp(IrArg::Literal(b)),
    );
    assert_eq!(
        translate_ir_pattern(&pattern, &interner),
        "IrLine::Instruction(&ir::Instruction::Cmp { cmp: ir::CmpOp::Le, lhs: ir::Value::Register(ir::Register::Stack(lhs)), rhs: ir::Value::Immediate(ir::Immediate(rhs)), dst: ir::Register::Local(dst) })"
    );
    let store = IrPattern::Store(sp(IrArg::Static(a)), sp(IrArg::Register(IrRegister(d, IrRegisterKind::Local))));
    assert_eq!(
        translate_ir_pattern(&store, &interner),
        "IrLine::Instruction(&ir::Instruction::Store { src: ir::Value::Static(lhs), dst: ir::Value::Register(ir::Register::Local(dst)) })"
    );
    let br = IrPatternLast::Br(sp(IrArg::Register(IrRegister(d, IrRegisterKind::Local))), sp(IrLabel(a)), sp(IrLabel(b)));
    assert_eq!(
        translate_ir_pattern_last(&br, &interner),
        "IrLine::CFInstruction(&ir::ControlFlowInstruction::Branch { cond: ir::Value::Register(ir::Register::Local(dst)), conseq: ir::Label(lhs), altern: ir::Label(rhs) })"
    );
    assert_eq!(
        translate_ir_pattern_last(&IrPatternLast::Ret(None), &interner),
        "IrLine::CFInstruction(&ir::ControlFlowInstruction::Return { value: None })"
    );
    assert_eq!(translate_ir_arg(&IrArg::Static(b), &interner), "ir::Value::Static(rhs)");
}

#[test]
fn patterns_without_last_instruction_end_in_rest() {
    let mut interner = Interner::new();
    let d = interner.intern_str("d");
    let pattern = rustiny::back::instsel::rulecomp::ast::Pattern {
        ir_patterns: vec![sp(IrPattern::Alloca(sp(IrRegister(d, IrRegisterKind::Stack))))],
        last: None,
        cond: None,
    };
    assert_eq!(
        translate_pattern(&pattern, &interner),
        "[IrLine::Instruction(&ir::Instruction::Alloca { dst: ir::Register::Stack(d) }), ..]"
    );
    let only_last = rustiny::back::instsel::rulecomp::ast::Pattern {
        ir_patterns: vec![],
        last: Some(sp(IrPatternLast::Jmp(sp(IrLabel(d))))),
        cond: Some(d),
    };
    assert_eq!(
        translate_pattern(&only_last, &interner),
        "[IrLine::CFInstruction(&ir::ControlFlowInstruction::Jump { dest: ir::Label(d) })] if d"
    );
}

#[test]
fn later_bindings_take_precedence() {
    let mut interner = Interner::new();
    let x = interner.intern_str("x");
    let y = interner.intern_str("y");
    let mut b = Bindings::new();
    assert_eq!(b.get(x), None);
    b.insert(x, IrArg::Literal(x));
    b.insert(y, IrArg::Static(y));
    b.insert(x, IrArg::Register(IrRegister(x, IrRegisterKind::Stack)));
    assert_eq!(b.get(x), Some(IrArg::Register(IrRegister(x, IrRegisterKind::Stack))));
    assert_eq!(b.get(y), Some(IrArg::Static(y)));
    assert_eq!(translate_asm_arg(&AsmArg::IrArg(sp(x)), &b, &interner), Some("asm::Argument::StackSlot(x)".to_string()));
    assert_eq!(
        translate_asm_arg(&AsmArg::IrArg(sp(y)), &b, &interner),
        Some("asm::Argument::Address(y)".to_string())
    );
    let z = interner.intern_str("z");
    assert_eq!(translate_asm_arg(&AsmArg::IrArg(sp(z)), &b, &interner), None);
}

#[test]
fn memory_operands_are_translated() {
    let mut interner = Interner::new();
    let a = interner.intern_str("a");
    let b = Bindings::new();
    let arg = AsmArg::Indirect {
        size: Some(OperandSize::DWord),
        base: Some(Box::new(AsmArg::Register(MachineRegister::RBP))),
        index: Some((Box::new(AsmArg::NewRegister(sp(a))), 8)),
        disp: Some(-4),
    };
    assert_eq!(
        translate_asm_arg(&arg, &b, &interner),
        Some("asm::Argument::Indirect { size: Some(asm::OperandSize::DWord), base: Some(asm::Register::Machine(MachineRegister::RBP)), index: Some((asm::Register::Virtual(a), 8)), disp: Some(-4) }".to_string())
    );
    let bad = AsmArg::Indirect { size: None, base: Some(Box::new(AsmArg::Label(sp(a)))), index: None, disp: None };
    assert_eq!(translate_asm_arg(&bad, &b, &interner), None);
    assert_eq!(translate_option(None), "None");
    assert_eq!(translate_option(Some("1".to_string())), "Some(1)");
}

#[test]
fn rules_compile_to_match_arms() {
    let source = "rules! {\n    [%(dst) = add %(lhs), %(rhs); ..] => {\n        mov %(dst), $lhs;\n        add %(dst), $rhs;\n    }\n}\n";
    let arm = "        [IrLine::Instruction(&ir::Instruction::BinOp { op: ir::InfixOp::Add, lhs: ir::Value::Register(ir::Register::Local(lhs)), rhs: ir::Value::Register(ir::Register::Local(rhs)), dst: ir::Register::Local(dst) }), ..] => {\n            let dst = Ident::from_str(\"dst\");\n            let dst = Ident::from_str(\"dst\");\n            code.emit_instruction(asm::Instruction::new(Ident::from_str(\"mov\"), vec![asm::Argument::Register(asm::Register::Virtual(dst)), asm::Argument::Register(asm::Register::Virtual(lhs))]));\n            code.emit_instruction(asm::Instruction::new(Ident::from_str(\"add\"), vec![asm::Argument::Register(asm::Register::Virtual(dst)), asm::Argument::Register(asm::Register::Virtual(rhs))]));\n            (1, false)\n        }";
    assert_eq!(compile_rules(source, "<rules>").unwrap(), format!("{}{}{}", PREFIX, arm, SUFFIX));
}

#[test]
fn rules_with_rust_code_and_conditions() {
    let source = "rules! { [%(dst) = alloca; ..] if { true } -> { let x = 1; }, [..] => { } }";
    let arm1 = "        [IrLine::Instruction(&ir::Instruction::Alloca { dst: ir::Register::Local(dst) }), ..] if true  => {\nlet x = 1;             (1, false)\n        }";
    let arm2 = "        [, ..] => {\n            \n            (0, false)\n        }";
    assert_eq!(compile_rules(source, "<rules>").unwrap(), format!("{}{},\n{}{}", PREFIX, arm1, arm2, SUFFIX));
}

#[test]
fn rules_with_unbound_names_are_rejected() {
    let source = "rules! { [%(dst) = alloca; ..] => { mov $other; } }";
    assert!(compile_rules(source, "<rules>").unwrap_err().pos.is_none());
    assert!(compile_rules("rules! { [..] => { ", "<rules>").is_err());
    assert_eq!(compile_rules("rules! { }", "<rules>").unwrap(), format!("{}{}", PREFIX, SUFFIX));
}

#[test]
fn positive_displacements_are_not_consumed() {
    let source = "rules! { [..] => { mov rax, [rbp + 8]; } }";
    let mut p = Parser::new(Lexer::new(source, "<rules>", Session::new())).unwrap();
    assert_eq!(p.parse().unwrap_err().msg, "expected `]`, found `8`");
}

#[test]
fn rule_lexer_reads_longest_tokens() {
    assert_eq!(
        tokens("...=>=->-").unwrap(),
        vec![Token::DoubleDot, Token::Dot, Token::FatArrow, Token::Equal, Token::Arrow, Token::Minus, Token::EOF]
    );
}
