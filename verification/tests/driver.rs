use rustiny::driver::codemap::{locate, Loc};
use rustiny::front::ast::BinOp;
use rustiny::driver::interner::Interner;
use rustiny::driver::{compile_input, CompilationTarget};
use rustiny::front::lexer::Lexer;
use rustiny::front::parser::Parser;
use rustiny::front::tokens::Token;
use rustiny::util::pretty::PrettyPrinter;
use rustiny::driver::session::Session;
use rustiny::middle::ir::Register;
use rustiny::middle::ir::trans::{Translator, translate};
use rustiny::front::ast::Symbol;
use rustiny::front::semck;

fn pretty(source: &str) -> String {
    let mut p = Parser::new(Lexer::new(source, "<test>")).unwrap();
    let ast = p.parse().unwrap();
    PrettyPrinter::print(&ast, &p.session.interner)
}

#[test]
fn compiling_to_ir_gives_no_assembly() {
    let c = compile_input("fn main() {}", "<test>", CompilationTarget::Ir).unwrap();
    assert!(c.assembly.is_none());
    assert!(c.ir.starts_with("fn main() {\n"), "{}", c.ir);
    assert!(c.ir.ends_with("}\n\n"), "{}", c.ir);
}

#[test]
fn compiling_to_assembly_gives_both() {
    let source = "fn main() -> int { let a: int = 1 + 2; a }";
    let c = compile_input(source, "<test>", CompilationTarget::Asm).unwrap();
    let assembly = c.assembly.unwrap();
    assert!(assembly.starts_with(".intel_syntax noprefix\n"), "{}", assembly);
    assert!(assembly.contains(".text\n"), "{}", assembly);
    assert!(c.ir.contains("fn main() {\n"), "{}", c.ir);
    let bin = compile_input(source, "<test>", CompilationTarget::Bin).unwrap();
    assert_eq!(bin.assembly.unwrap(), assembly);
}

#[test]
fn programs_without_main_are_rejected() {
    assert!(compile_input("fn foo() {}", "<test>", CompilationTarget::Ir).is_err());
}

#[test]
fn type_errors_are_reported() {
    let e = compile_input("fn main() { let a: int = true; }", "<test>", CompilationTarget::Ir).unwrap_err();
    assert!(e.pos.is_some());
}

#[test]
fn syntax_errors_are_reported() {
    assert!(compile_input("fn main( {}", "<test>", CompilationTarget::Ir).is_err());
    assert!(compile_input("fn main() { # }", "<test>", CompilationTarget::Ir).is_err());
}

#[test]
fn breaks_outside_loops_are_rejected() {
    assert!(compile_input("fn main() { break; }", "<test>", CompilationTarget::Ir).is_err());
    assert!(compile_input("fn main() { while true { break; } }", "<test>", CompilationTarget::Ir).is_ok());
}

#[test]
fn locations_count_lines_and_columns() {
    assert_eq!(locate("ab\ncd", 0), Loc { line: 1, col: 1 });
    assert_eq!(locate("ab\ncd", 1), Loc { line: 1, col: 2 });
    assert_eq!(locate("ab\ncd", 3), Loc { line: 2, col: 1 });
    assert_eq!(locate("ab\ncd", 4), Loc { line: 2, col: 2 });
    assert_eq!(locate("é\nx", 3), Loc { line: 2, col: 1 });
}

#[test]
fn pretty_printing_keeps_the_program() {
    assert_eq!(pretty("fn main() {}"), "\nfn main() -> () {\n}");
    let once = pretty("fn main() -> int { let a: int = (1 + 2) * 3; while a < 10 { a += 1; } a }");
    assert_eq!(
        once,
        "\nfn main() -> int {\n    let a: int = (1 + 2) * 3;\n    while a < 10 {\n        a += 1;\n    };\n    a\n}"
    );
    assert_eq!(pretty(&once[1..]), once);
}

#[test]
fn interning_twice_gives_the_same_identifier() {
    let mut interner = Interner::new();
    let a = interner.intern_str("abc");
    let len = interner.len();
    let b = interner.intern_str("abc");
    assert_eq!(a, b);
    assert_eq!(interner.len(), len);
    let c = interner.intern_str("abd");
    assert_ne!(a, c);
    let name: String = interner.resolve(c).iter().collect();
    assert_eq!(name, "abd");
}

#[test]
fn lexer_gives_tokens_and_spans() {
    let mut lx = Lexer::new("let x = 42; // done\n'a'", "<test>");
    let tokens = lx.tokenize().unwrap();
    let values: Vec<Token> = tokens.iter().map(|t| t.value).collect();
    assert_eq!(values.len(), 7);
    assert_eq!(values[2], Token::Eq);
    assert_eq!(values[3], Token::Int(42));
    assert_eq!(values[4], Token::Semicolon);
    assert_eq!(values[5], Token::Char('a'));
    assert_eq!(values[6], Token::EOF);
    assert_eq!((tokens[3].span.pos, tokens[3].span.len), (8, 2));
    assert!(Lexer::new("'ab'", "<test>").tokenize().is_err());
    assert!(Lexer::new("99999999999", "<test>").tokenize().is_err());
}

#[test]
fn semantic_errors_are_reported() {
    // A variable that is not declared
    assert!(compile_input("fn main() { a; }", "<test>", CompilationTarget::Ir).is_err());
    // An assignment to something that is no variable
    assert!(compile_input("fn main() { 1 = 2; }", "<test>", CompilationTarget::Ir).is_err());
    // A symbol defined twice
    assert!(compile_input("fn main() {} fn main() {}", "<test>", CompilationTarget::Ir).is_err());
    // A call with too few arguments
    assert!(compile_input("fn f(a: int) {} fn main() { f(); }", "<test>", CompilationTarget::Ir).is_err());
    // A well-formed program with a call, a static and a constant
    let ok = "static s: int = 1; const c: int = 2; fn f(a: int) -> int { a + c } fn main() { s = f(s); }";
    let compiled = compile_input(ok, "<test>", CompilationTarget::Ir).unwrap();
    assert!(compiled.ir.starts_with("static s = 1\n\n"), "{}", compiled.ir);
    assert!(compiled.ir.contains("fn f(a) {\n"), "{}", compiled.ir);
}

#[test]
fn lexer_reads_longest_tokens() {
    let mut lx = Lexer::new("a<<=b ** c // note\n!=", "<test>");
    let values: Vec<Token> = lx.tokenize().unwrap().iter().map(|t| t.value).collect();
    assert_eq!(values.len(), 8);
    assert_eq!(values[1], Token::BinOp(BinOp::Shl));
    assert_eq!(values[2], Token::Eq);
    assert_eq!(values[4], Token::BinOp(BinOp::Pow));
    assert_eq!(values[6], Token::BinOp(BinOp::Ne));
}

fn name_of(session: &Session, id: rustiny::driver::interner::Ident) -> String {
    session.interner.resolve(id).iter().collect()
}

#[test]
fn translator_numbers_labels_per_base_name() {
    let mut t = Translator::new(Session::new());
    let a = t.next_free_label("unreachable").unwrap();
    let b = t.next_free_label("unreachable").unwrap();
    let c = t.next_free_label("next").unwrap();
    assert_eq!(name_of(&t.session, a.0), "unreachable1");
    assert_eq!(name_of(&t.session, b.0), "unreachable2");
    assert_eq!(name_of(&t.session, c.0), "next1");
}

#[test]
fn translator_numbers_registers() {
    let mut t = Translator::new(Session::new());
    let names: Vec<String> = (0..3)
        .map(|_| match t.next_free_register().unwrap() {
            Register::Local(id) => name_of(&t.session, id),
            other => panic!("not a local register: {:?}", other),
        })
        .collect();
    assert_eq!(names, vec!["0", "1", "2"]);
    assert_eq!(t.fcx.next_register, 3);
}

#[test]
fn shadowed_variables_get_numbered_stack_slots() {
    let mut t = Translator::new(Session::new());
    let x = t.session.interner.intern_str("x");
    let first = t.fresh_stack_slot(x).unwrap();
    let second = t.fresh_stack_slot(x).unwrap();
    let third = t.fresh_stack_slot(x).unwrap();
    assert_eq!(first, Register::Stack(x));
    match (second, third) {
        (Register::Stack(s), Register::Stack(u)) => {
            assert_eq!(name_of(&t.session, s), "x1");
            assert_eq!(name_of(&t.session, u), "x2");
        },
        other => panic!("not stack slots: {:?}", other),
    }
    assert_eq!(t.fcx.stack_slots.len(), 3);
}

#[test]
fn the_parser_reports_unreadable_first_tokens() {
    assert!(Parser::new(Lexer::new("# fn main() {}", "<test>")).is_err());
    assert!(Parser::new(Lexer::new("'ab'", "<test>")).is_err());
    assert!(Parser::new(Lexer::new("  // comment\n fn", "<test>")).is_ok());
    assert!(Parser::new(Lexer::new("99999999999", "<test>")).is_err());
}

#[test]
fn tokenizing_fails_exactly_on_unreadable_text() {
    assert!(Lexer::new("let a: char = 'b'; // done", "<test>").tokenize().is_ok());
    assert!(Lexer::new("let a = 1; 'ab'", "<test>").tokenize().is_err());
    assert!(Lexer::new("a # b", "<test>").tokenize().is_err());
    assert!(Lexer::new("4294967295", "<test>").tokenize().is_ok());
    assert!(Lexer::new("4294967296", "<test>").tokenize().is_err());
}

#[test]
fn blocks_sharing_a_node_id_are_rejected() {
    let mut p = Parser::new(Lexer::new("fn main() {} fn f() {}", "<test>")).unwrap();
    let mut ast = p.parse().unwrap();
    let mut session = p.into_session();
    let id = match &ast[0].node {
        Symbol::Function { body, .. } => body.id,
        _ => panic!("not a function"),
    };
    if let Symbol::Function { body, .. } = &mut ast[1].node {
        body.id = id;
    }
    assert!(semck::run(&ast, &mut session).is_err());
}

#[test]
fn blocks_with_distinct_node_ids_pass_the_scope_checks() {
    let mut p = Parser::new(Lexer::new("fn main() {} fn f() {}", "<test>")).unwrap();
    let ast = p.parse().unwrap();
    let mut session = p.into_session();
    assert!(semck::run(&ast, &mut session).is_ok());
}

#[test]
fn statics_and_an_empty_main_translate() {
    let mut p = Parser::new(Lexer::new("static a: int = 1; const b: int = 2; fn main() {}", "<test>")).unwrap();
    let ast = p.parse().unwrap();
    let session = p.into_session();
    let (ir, _session) = translate(&ast, session);
    assert_eq!(ir.unwrap().0.len(), 2);
}
