//! Make sure the left-hand side of all assignments are variables
//!
//! For example, this program wouldn't compile:
//!
//! ```ignore
//! fn foo() {
//!     1 = false;
//! }
//! ```

use vstd::prelude::*;
use crate::driver::session::Diagnostic;
use crate::front::ast::{Block, Expression, Node, Program, Statement, Symbol};
use crate::util::text::string_of;

verus! {

/// Every assignment in the expression has a variable on its left-hand side
pub open spec fn expr_lvalues_ok(e: Expression) -> bool
    decreases e,
{
    match e {
        Expression::Assign { lhs, rhs } => lhs.node is Variable && expr_lvalues_ok(rhs.node),
        Expression::AssignOp { lhs, rhs, .. } => lhs.node is Variable && expr_lvalues_ok(rhs.node),
        Expression::Return { val } => expr_lvalues_ok(val.node),
        Expression::Call { func, args } => expr_lvalues_ok(func.node)
            && forall|i: int| 0 <= i < args@.len() ==> expr_lvalues_ok(#[trigger] args@[i].node),
        Expression::Group(inner) => expr_lvalues_ok(inner.node),
        Expression::Infix { lhs, rhs, .. } => expr_lvalues_ok(lhs.node) && expr_lvalues_ok(rhs.node),
        Expression::Prefix { item, .. } => expr_lvalues_ok(item.node),
        Expression::If { cond, conseq, altern } => expr_lvalues_ok(cond.node) && block_lvalues_ok(conseq.node)
            && match altern {
                Some(b) => block_lvalues_ok(b.node),
                None => true,
            },
        Expression::While { cond, body } => expr_lvalues_ok(cond.node) && block_lvalues_ok(body.node),
        _ => true,
    }
}

/// Every assignment in the block has a variable on its left-hand side
pub open spec fn block_lvalues_ok(b: Block) -> bool
    decreases b,
{
    &&& forall|i: int| 0 <= i < b.stmts@.len() ==> stmt_lvalues_ok(#[trigger] b.stmts@[i].node)
    &&& expr_lvalues_ok(b.expr.node)
}

/// Every assignment in the statement has a variable on its left-hand side
pub open spec fn stmt_lvalues_ok(s: Statement) -> bool
    decreases s,
{
    match s {
        Statement::Declaration { value, .. } => expr_lvalues_ok(value.node),
        Statement::Expression { val } => expr_lvalues_ok(val.node),
    }
}

/// Every assignment in the program has a variable on its left-hand side
pub open spec fn program_lvalues_ok(p: Seq<Node<Symbol>>) -> bool {
    forall|i: int| 0 <= i < p.len() ==> symbol_lvalues_ok(#[trigger] p[i].node)
}

/// Every assignment in the symbol has a variable on its left-hand side
pub open spec fn symbol_lvalues_ok(s: Symbol) -> bool {
    match s {
        Symbol::Function { body, .. } => block_lvalues_ok(body.node),
        _ => true,
    }
}

/// The error for an assignment to something else than a variable
fn not_a_variable(expr: &Node<Expression>) -> (r: Diagnostic)
    ensures
        r.pos == Some(expr.span.pos),
        r.msg@ == "left-hand side of assignment is not a variable"@,
{
    Diagnostic::at(string_of("left-hand side of assignment is not a variable"), expr.span.pos)
}

/// Check an assignment's left-hand side
fn check_lhs(lhs: &Node<Expression>) -> (r: Result<(), Diagnostic>)
    ensures
        r is Ok <==> lhs.node is Variable,
        r matches Err(d) ==> d.msg@ == "left-hand side of assignment is not a variable"@,
        r matches Err(d) ==> d.pos == Some(lhs.span.pos),
{
    match &lhs.node {
        Expression::Variable { .. } => Ok(()),
        _ => Err(not_a_variable(lhs)),
    }
}

/// Check all assignments in an expression
pub fn check_expression(expr: &Node<Expression>) -> (r: Result<(), Diagnostic>)
    ensures
        r is Ok <==> expr_lvalues_ok(expr.node),
        r matches Err(d) ==> d.msg@ == "left-hand side of assignment is not a variable"@,
    decreases expr.node,
{
    match &expr.node {
        Expression::Assign { lhs, rhs } => {
            check_lhs(lhs)?;
            check_expression(rhs)
        },
        Expression::AssignOp { lhs, rhs, .. } => {
            check_lhs(lhs)?;
            check_expression(rhs)
        },
        Expression::Return { val } => check_expression(val),
        Expression::Call { func, args } => {
            check_expression(func)?;
            let mut i: usize = 0;
            while i < args.len()
                invariant
                    i <= args@.len(),
                    expr.node is Call && expr.node->Call_args == *args,
                    forall|j: int| 0 <= j < i ==> expr_lvalues_ok(#[trigger] args@[j].node),
                decreases args@.len() - i,
            {
                proof {
                    assert(decreases_to!(expr.node => args@[i as int].node));
                }
                check_expression(&args[i])?;
                i = i + 1;
            }
            Ok(())
        },
        Expression::Group(inner) => check_expression(inner),
        Expression::Infix { lhs, rhs, .. } => {
            check_expression(lhs)?;
            check_expression(rhs)
        },
        Expression::Prefix { item, .. } => check_expression(item),
        Expression::If { cond, conseq, altern } => {
            check_expression(cond)?;
            check_block(conseq)?;
            match altern {
                Some(b) => check_block(b),
                None => Ok(()),
            }
        },
        Expression::While { cond, body } => {
            check_expression(cond)?;
            check_block(body)
        },
        _ => Ok(()),
    }
}

/// Check all assignments in a block
pub fn check_block(block: &Node<Block>) -> (r: Result<(), Diagnostic>)
    ensures
        r is Ok <==> block_lvalues_ok(block.node),
        r matches Err(d) ==> d.msg@ == "left-hand side of assignment is not a variable"@,
    decreases block.node,
{
    let stmts = &block.node.stmts;
    let mut i: usize = 0;
    while i < stmts.len()
        invariant
            i <= stmts@.len(),
            stmts == &block.node.stmts,
            forall|j: int| 0 <= j < i ==> stmt_lvalues_ok(#[trigger] stmts@[j].node),
        decreases stmts@.len() - i,
    {
        match &stmts[i].node {
            Statement::Declaration { value, .. } => check_expression(value)?,
            Statement::Expression { val } => check_expression(val)?,
        }
        i = i + 1;
    }
    check_expression(&block.node.expr)
}

/// Make sure the left-hand side of all assignments in the program are
/// variables; the error names the first one that is not
pub fn run(program: &Program) -> (r: Result<(), Diagnostic>)
    ensures
        r is Ok <==> program_lvalues_ok(program@),
        r matches Err(d) ==> d.msg@ == "left-hand side of assignment is not a variable"@,
{
    let mut i: usize = 0;
    while i < program.len()
        invariant
            i <= program@.len(),
            forall|j: int| 0 <= j < i ==> symbol_lvalues_ok(#[trigger] program@[j].node),
        decreases program@.len() - i,
    {
        if let Symbol::Function { body, .. } = &program[i].node {
            check_block(body)?;
        }
        i = i + 1;
    }
    Ok(())
}

} // verus!
