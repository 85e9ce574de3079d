use rustiny::front::ast::{BinOp, Expression, Node, UnOp};
use rustiny::front::lexer::Lexer;
use rustiny::front::parser::Parser;

fn parser(source: &str) -> Parser {
    Parser::new(Lexer::new(source, "<test>")).unwrap()
}

fn infix(e: &Expression) -> (BinOp, &Node<Expression>, &Node<Expression>) {
    match e {
        Expression::Infix { op, lhs, rhs } => (*op, &**lhs, &**rhs),
        _ => panic!("Expected an Infix, got {:?}", e),
    }
}

#[test]
fn operator_precedence_call_prefix() {
    let mut p = parser("!a()");
    let ast = p.parse_expression().unwrap();
    let (op, item) = match &ast.node {
        Expression::Prefix { op, item } => (*op, item),
        e => panic!("Expected a Prefix, got {:?}", e),
    };
    assert_eq!(op, UnOp::Not);
    let (func, args) = match &item.node {
        Expression::Call { func, args } => (func, args),
        e => panic!("Expected a Call, got {:?}", e),
    };
    assert_eq!(args.len(), 0);
    let name = match &func.node {
        Expression::Variable { name } => name.node,
        e => panic!("Expected a Variable, got {:?}", e),
    };
    let text: String = p.session.interner.resolve(name).iter().collect();
    assert_eq!(text, "a");
}

#[test]
fn operator_precedence_prefix_exponent() {
    let ast = parser("-1 ** 2").parse_expression().unwrap();
    let (op, item) = match &ast.node {
        Expression::Prefix { op, item } => (*op, item),
        e => panic!("Expected a Prefix, got {:?}", e),
    };
    assert_eq!(op, UnOp::Neg);
    let (op, _, _) = infix(&item.node);
    assert_eq!(op, BinOp::Pow);
}

#[test]
fn operator_precedence_exponent_product() {
    let ast = parser("1 * 2 ** 3").parse_expression().unwrap();
    let (op, _, rhs) = infix(&ast.node);
    assert_eq!(op, BinOp::Mul);
    let (op, _, _) = infix(&rhs.node);
    assert_eq!(op, BinOp::Pow);
}

#[test]
fn operator_precedence_product_sum() {
    let ast = parser("1 + 2 * 3").parse_expression().unwrap();
    let (op, _, rhs) = infix(&ast.node);
    assert_eq!(op, BinOp::Add);
    let (op, _, _) = infix(&rhs.node);
    assert_eq!(op, BinOp::Mul);
}

#[test]
fn operator_precedence_sum_shift() {
    let ast = parser("1 + 2 << 3").parse_expression().unwrap();
    let (op, lhs, _) = infix(&ast.node);
    assert_eq!(op, BinOp::Shl);
    let (op, _, _) = infix(&lhs.node);
    assert_eq!(op, BinOp::Add);
}

#[test]
fn operator_precedence_shift_bitand() {
    let ast = parser("1 & 2 << 3").parse_expression().unwrap();
    let (op, _, rhs) = infix(&ast.node);
    assert_eq!(op, BinOp::BitAnd);
    let (op, _, _) = infix(&rhs.node);
    assert_eq!(op, BinOp::Shl);
}

#[test]
fn operator_precedence_bitand_bitxor() {
    let ast = parser("1 ^ 2 & 3").parse_expression().unwrap();
    let (op, _, rhs) = infix(&ast.node);
    assert_eq!(op, BinOp::BitXor);
    let (op, _, _) = infix(&rhs.node);
    assert_eq!(op, BinOp::BitAnd);
}

#[test]
fn operator_precedence_bitxor_bitor() {
    let ast = parser("1 | 2 ^ 3").parse_expression().unwrap();
    let (op, _, rhs) = infix(&ast.node);
    assert_eq!(op, BinOp::BitOr);
    let (op, _, _) = infix(&rhs.node);
    assert_eq!(op, BinOp::BitXor);
}

#[test]
fn operator_precedence_bitor_compare() {
    let ast = parser("1 == 2 | 3").parse_expression().unwrap();
    let (op, _, rhs) = infix(&ast.node);
    assert_eq!(op, BinOp::EqEq);
    let (op, _, _) = infix(&rhs.node);
    assert_eq!(op, BinOp::BitOr);
}

#[test]
fn operator_precedence_compare_and() {
    let ast = parser("1 && 2 == 3").parse_expression().unwrap();
    let (op, _, rhs) = infix(&ast.node);
    assert_eq!(op, BinOp::And);
    let (op, _, _) = infix(&rhs.node);
    assert_eq!(op, BinOp::EqEq);
}

#[test]
fn operator_precedence_and_or() {
    let ast = parser("1 || 2 && 3").parse_expression().unwrap();
    let (op, _, rhs) = infix(&ast.node);
    assert_eq!(op, BinOp::Or);
    let (op, _, _) = infix(&rhs.node);
    assert_eq!(op, BinOp::And);
}

#[test]
fn operator_precedence_or_assignment() {
    let ast = parser("a = 2 || 3").parse_expression().unwrap();
    let rhs = match &ast.node {
        Expression::Assign { rhs, .. } => rhs,
        e => panic!("Expected an Assign, got {:?}", e),
    };
    let (op, _, _) = infix(&rhs.node);
    assert_eq!(op, BinOp::Or);
}

#[test]
fn power_is_right_associative() {
    let ast = parser("2 ** 3 ** 2").parse_expression().unwrap();
    let (op, lhs, rhs) = infix(&ast.node);
    assert_eq!(op, BinOp::Pow);
    assert!(matches!(lhs.node, Expression::Literal { .. }));
    let (op, _, _) = infix(&rhs.node);
    assert_eq!(op, BinOp::Pow);
}

#[test]
fn sum_is_left_associative() {
    let ast = parser("1 - 2 - 3").parse_expression().unwrap();
    let (op, lhs, rhs) = infix(&ast.node);
    assert_eq!(op, BinOp::Sub);
    assert!(matches!(rhs.node, Expression::Literal { .. }));
    let (op, _, _) = infix(&lhs.node);
    assert_eq!(op, BinOp::Sub);
}

#[test]
fn assign_op_is_parsed() {
    let ast = parser("a += 1").parse_expression().unwrap();
    assert!(matches!(ast.node, Expression::AssignOp { op: BinOp::Add, .. }));
}

#[test]
fn parse_program_symbols() {
    let mut p = parser("static a: int = 1; const b: bool = true; fn main() { let x: int = a; x += 2; }");
    let prog = p.parse().unwrap();
    assert_eq!(prog.len(), 3);
}

#[test]
fn parse_program_rejects_bad_symbol() {
    let mut p = parser("let x: int = 1;");
    assert!(p.parse().is_err());
}

#[test]
fn left_associative_operators_group_to_the_left() {
    let mut p = parser("1 - 2 - 3");
    let ast = p.parse_expression().unwrap();
    let (op, lhs, rhs) = infix(&ast.node);
    assert_eq!(op, BinOp::Sub);
    assert!(matches!(rhs.node, Expression::Literal { .. }));
    let (op, _, _) = infix(&lhs.node);
    assert_eq!(op, BinOp::Sub);
    assert_eq!(p.pos, 5);
}

#[test]
fn exponents_group_to_the_right() {
    let ast = parser("2 ** 3 ** 2").parse_expression().unwrap();
    let (op, lhs, rhs) = infix(&ast.node);
    assert_eq!(op, BinOp::Pow);
    assert!(matches!(lhs.node, Expression::Literal { .. }));
    let (op, _, _) = infix(&rhs.node);
    assert_eq!(op, BinOp::Pow);
}

#[test]
fn a_prefix_operator_takes_the_operators_after_it() {
    let ast = parser("-1 * 2 + 3").parse_expression().unwrap();
    let item = match &ast.node {
        Expression::Prefix { op, item } => {
            assert_eq!(*op, UnOp::Neg);
            item
        },
        e => panic!("Expected a Prefix, got {:?}", e),
    };
    let (op, _, _) = infix(&item.node);
    assert_eq!(op, BinOp::Add);
}

#[test]
fn calls_bind_tighter_than_operators() {
    let ast = parser("a() * 2 + b()").parse_expression().unwrap();
    let (op, lhs, rhs) = infix(&ast.node);
    assert_eq!(op, BinOp::Add);
    assert!(matches!(rhs.node, Expression::Call { .. }));
    let (op, lhs, _) = infix(&lhs.node);
    assert_eq!(op, BinOp::Mul);
    assert!(matches!(lhs.node, Expression::Call { .. }));
}

#[test]
fn parentheses_group_first() {
    let ast = parser("(1 + 2) * 3").parse_expression().unwrap();
    let (op, lhs, _) = infix(&ast.node);
    assert_eq!(op, BinOp::Mul);
    let inner = match &lhs.node {
        Expression::Group(inner) => inner,
        e => panic!("Expected a Group, got {:?}", e),
    };
    let (op, _, _) = infix(&inner.node);
    assert_eq!(op, BinOp::Add);
}

#[test]
fn blocks_of_expression_statements_are_read_back() {
    let mut p = parser("{ a = 1; b + 2; a * b }");
    let b = p.parse_block().unwrap();
    assert_eq!(b.node.stmts.len(), 2);
    assert!(matches!(b.node.stmts[0].node, rustiny::front::ast::Statement::Expression { .. }));
    let (op, _, _) = infix(&b.node.expr.node);
    assert_eq!(op, BinOp::Mul);
    assert_eq!(p.pos, 13);
}

#[test]
fn programs_of_functions_without_parameters_are_read_back() {
    let mut p = parser("fn main() { 1 + 2; } fn f() { (a) * 3 }");
    let program = p.parse().unwrap();
    assert_eq!(program.len(), 2);
    for s in program.iter() {
        assert!(matches!(s.node, rustiny::front::ast::Symbol::Function { .. }));
    }
}
