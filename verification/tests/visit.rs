use rustiny::back::instsel::rulecomp::setup;
use rustiny::driver::interner::Interner;
use rustiny::front::ast::{Expression, Symbol, Type};
use rustiny::front::lexer::Lexer;
use rustiny::front::parser::Parser;
use rustiny::util::chars::{char_escape_default, char_is_alphabetic, char_is_numeric, char_is_whitespace};
use rustiny::util::visit::{walk_block, walk_expression, walk_program, walk_symbol, NodeLog, NodeRef};

fn parsed(source: &str) -> Vec<rustiny::front::ast::Node<Symbol>> {
    let mut p = Parser::new(Lexer::new(source, "<test>")).unwrap();
    p.parse().unwrap()
}

#[test]
fn walking_a_program_shows_its_symbols_in_order() {
    let program = parsed("static a: int = 1; fn main() {} const b: int = 2;");
    let mut log = NodeLog::new();
    walk_program(&mut log, &program);
    let expected: Vec<NodeRef> = program.iter().map(|s| NodeRef::Symbol(s.id)).collect();
    assert_eq!(log.nodes, expected);
}

#[test]
fn walking_a_function_shows_name_bindings_type_and_body() {
    let program = parsed("fn f(x: int, y: bool) -> int { x }");
    let mut log = NodeLog::new();
    walk_symbol(&mut log, &program[0]);
    match &program[0].node {
        Symbol::Function { name, bindings, body, .. } => {
            assert_eq!(log.nodes, vec![
                NodeRef::Ident(name.id),
                NodeRef::Binding(bindings[0].id),
                NodeRef::Binding(bindings[1].id),
                NodeRef::Type(Type::Int),
                NodeRef::Block(body.id),
            ]);
        },
        other => panic!("not a function: {:?}", other),
    }
}

#[test]
fn walking_an_expression_shows_operands_left_to_right() {
    let program = parsed("fn f() { g(1, 2) + 3; }");
    let body = match &program[0].node {
        Symbol::Function { body, .. } => body,
        other => panic!("not a function: {:?}", other),
    };
    let mut block_log = NodeLog::new();
    walk_block(&mut block_log, body);
    assert_eq!(block_log.nodes.len(), 2);
    let stmt_expr = match &body.node.stmts[0].node {
        rustiny::front::ast::Statement::Expression { val } => val,
        other => panic!("not an expression statement: {:?}", other),
    };
    let mut log = NodeLog::new();
    walk_expression(&mut log, stmt_expr);
    match &stmt_expr.node {
        Expression::Infix { lhs, rhs, .. } => {
            assert_eq!(log.nodes, vec![NodeRef::Expression(lhs.id), NodeRef::Expression(rhs.id)]);
            let mut call_log = NodeLog::new();
            walk_expression(&mut call_log, lhs);
            match &lhs.node {
                Expression::Call { func, args } => {
                    assert_eq!(call_log.nodes, vec![
                        NodeRef::Expression(func.id),
                        NodeRef::Expression(args[0].id),
                        NodeRef::Expression(args[1].id),
                    ]);
                },
                other => panic!("not a call: {:?}", other),
            }
        },
        other => panic!("not an infix: {:?}", other),
    }
}

#[test]
fn ascii_character_classes() {
    assert!(char_is_alphabetic('a') && char_is_alphabetic('Z') && !char_is_alphabetic('1'));
    assert!(char_is_numeric('7') && !char_is_numeric('x'));
    assert!(char_is_whitespace(' ') && char_is_whitespace('\n') && !char_is_whitespace('_'));
    assert!(char_is_whitespace('\u{3000}'));
}

#[test]
fn escapes_follow_the_documented_rules() {
    assert_eq!(char_escape_default('\n'), "\\n");
    assert_eq!(char_escape_default('\''), "\\'");
    assert_eq!(char_escape_default('a'), "a");
    assert_eq!(char_escape_default('\u{7f}'), "\\u{7f}");
    assert_eq!(char_escape_default('\u{0}'), "\\u{0}");
}

#[test]
fn rule_keywords_are_loaded_once_and_keep_their_ids() {
    let mut interner = Interner::new();
    let x = interner.intern_str("x");
    setup(&mut interner);
    let after_first = interner.len();
    setup(&mut interner);
    assert_eq!(interner.len(), after_first);
    assert_eq!(interner.intern_str("x"), x);
}

#[test]
fn empty_blocks_and_functions_parse() {
    let program = parsed("fn main() {}");
    assert_eq!(program.len(), 1);
    let mut p = Parser::new(Lexer::new("{}", "<test>")).unwrap();
    let b = p.parse_block().unwrap();
    assert!(b.node.stmts.is_empty());
    assert!(matches!(b.node.expr.node, Expression::Unit));
}
