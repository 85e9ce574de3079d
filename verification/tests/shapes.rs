use rustiny::front::ast::{Expression, Statement};
use rustiny::front::lexer::Lexer;
use rustiny::front::parser::Parser;
use rustiny::middle::ir::{Immediate, Program, Symbol};
use rustiny::driver::interner::Interner;

fn parser(source: &str) -> Parser {
    Parser::new(Lexer::new(source, "<test>")).unwrap()
}

#[test]
fn simple_declarations_parse() {
    let mut p = parser("let x: int = 3;");
    let s = p.parse_declaration().unwrap();
    match &s.node {
        Statement::Declaration { value, .. } => assert!(matches!(value.node, Expression::Literal { .. })),
        other => panic!("not a declaration: {:?}", other),
    }
    let mut q = parser("let x: float = 3;");
    assert!(q.parse_declaration().is_err());
}

#[test]
fn loops_and_conditions_with_empty_bodies_parse() {
    let mut p = parser("while a {}");
    assert!(matches!(p.parse_while().unwrap().node, Expression::While { .. }));
    let mut q = parser("if true {} 1");
    assert!(matches!(q.parse_if().unwrap().node, Expression::If { altern: None, .. }));
}

#[test]
fn single_atoms_are_whole_expressions() {
    let mut p = parser("x;");
    assert!(matches!(p.parse_expression().unwrap().node, Expression::Variable { .. }));
    let mut q = parser("'c' }");
    assert!(matches!(q.parse_expression().unwrap().node, Expression::Literal { .. }));
}

#[test]
fn symbols_can_be_changed_in_place() {
    let mut interner = Interner::new();
    let g = interner.intern_str("g");
    let mut p = Program::new();
    p.emit(Symbol::Global { name: g, value: Immediate(1) });
    for s in p.iter_mut() {
        if let Symbol::Global { value, .. } = s {
            *value = Immediate(2);
        }
    }
    match &p.symbols()[0] {
        Symbol::Global { value, .. } => assert_eq!(*value, Immediate(2)),
        other => panic!("not a global: {:?}", other),
    }
}
