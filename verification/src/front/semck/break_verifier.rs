//! Make sure a `break` is always within a while loop

use vstd::prelude::*;
use crate::driver::session::Diagnostic;
use crate::front::ast::{Block, Expression, Node, Program, Statement, Symbol};
use crate::util::text::string_of;

verus! {

/// Every `break` in the expression is within a while loop's body (`in_loop`:
/// the expression itself is)
pub open spec fn expr_breaks_ok(e: Expression, in_loop: bool) -> bool
    decreases e,
{
    match e {
        Expression::Break => in_loop,
        Expression::Assign { lhs, rhs } => expr_breaks_ok(lhs.node, in_loop) && expr_breaks_ok(rhs.node, in_loop),
        Expression::AssignOp { lhs, rhs, .. } => expr_breaks_ok(lhs.node, in_loop) && expr_breaks_ok(rhs.node, in_loop),
        Expression::Return { val } => expr_breaks_ok(val.node, in_loop),
        Expression::Call { func, args } => expr_breaks_ok(func.node, in_loop)
            && forall|i: int| 0 <= i < args@.len() ==> expr_breaks_ok(#[trigger] args@[i].node, in_loop),
        Expression::Group(inner) => expr_breaks_ok(inner.node, in_loop),
        Expression::Infix { lhs, rhs, .. } => expr_breaks_ok(lhs.node, in_loop) && expr_breaks_ok(rhs.node, in_loop),
        Expression::Prefix { item, .. } => expr_breaks_ok(item.node, in_loop),
        Expression::If { cond, conseq, altern } => expr_breaks_ok(cond.node, in_loop) && block_breaks_ok(conseq.node, in_loop)
            && match altern {
                Some(b) => block_breaks_ok(b.node, in_loop),
                None => true,
            },
        Expression::While { cond, body } => expr_breaks_ok(cond.node, in_loop) && block_breaks_ok(body.node, true),
        _ => true,
    }
}

/// Every `break` in the block is within a while loop's body
pub open spec fn block_breaks_ok(b: Block, in_loop: bool) -> bool
    decreases b,
{
    &&& forall|i: int| 0 <= i < b.stmts@.len() ==> stmt_breaks_ok(#[trigger] b.stmts@[i].node, in_loop)
    &&& expr_breaks_ok(b.expr.node, in_loop)
}

/// Every `break` in the statement is within a while loop's body
pub open spec fn stmt_breaks_ok(s: Statement, in_loop: bool) -> bool
    decreases s,
{
    match s {
        Statement::Declaration { value, .. } => expr_breaks_ok(value.node, in_loop),
        Statement::Expression { val } => expr_breaks_ok(val.node, in_loop),
    }
}

/// Every `break` in the symbol is within a while loop's body
pub open spec fn symbol_breaks_ok(s: Symbol) -> bool {
    match s {
        Symbol::Function { body, .. } => block_breaks_ok(body.node, false),
        _ => true,
    }
}

/// Check the breaks of an expression
pub fn check_expression(expr: &Node<Expression>, in_loop: bool) -> (r: Result<(), Diagnostic>)
    ensures
        r is Ok <==> expr_breaks_ok(expr.node, in_loop),
        r matches Err(d) ==> d.msg@ == "`break` outside of loop"@,
    decreases expr.node,
{
    match &expr.node {
        Expression::Break => {
            if in_loop {
                Ok(())
            } else {
                Err(Diagnostic::at(string_of("`break` outside of loop"), expr.span.pos))
            }
        },
        Expression::Assign { lhs, rhs } => {
            check_expression(lhs, in_loop)?;
            check_expression(rhs, in_loop)
        },
        Expression::AssignOp { lhs, rhs, .. } => {
            check_expression(lhs, in_loop)?;
            check_expression(rhs, in_loop)
        },
        Expression::Return { val } => check_expression(val, in_loop),
        Expression::Call { func, args } => {
            check_expression(func, in_loop)?;
            let mut i: usize = 0;
            while i < args.len()
                invariant
                    i <= args@.len(),
                    expr.node is Call && expr.node->Call_args == *args,
                    forall|j: int| 0 <= j < i ==> expr_breaks_ok(#[trigger] args@[j].node, in_loop),
                decreases args@.len() - i,
            {
                proof {
                    assert(decreases_to!(expr.node => args@[i as int].node));
                }
                check_expression(&args[i], in_loop)?;
                i = i + 1;
            }
            Ok(())
        },
        Expression::Group(inner) => check_expression(inner, in_loop),
        Expression::Infix { lhs, rhs, .. } => {
            check_expression(lhs, in_loop)?;
            check_expression(rhs, in_loop)
        },
        Expression::Prefix { item, .. } => check_expression(item, in_loop),
        Expression::If { cond, conseq, altern } => {
            check_expression(cond, in_loop)?;
            check_block(conseq, in_loop)?;
            match altern {
                Some(b) => check_block(b, in_loop),
                None => Ok(()),
            }
        },
        Expression::While { cond, body } => {
            check_expression(cond, in_loop)?;
            check_block(body, true)
        },
        _ => Ok(()),
    }
}

/// Check the breaks of a block
pub fn check_block(block: &Node<Block>, in_loop: bool) -> (r: Result<(), Diagnostic>)
    ensures
        r is Ok <==> block_breaks_ok(block.node, in_loop),
        r matches Err(d) ==> d.msg@ == "`break` outside of loop"@,
    decreases block.node,
{
    let stmts = &block.node.stmts;
    let mut i: usize = 0;
    while i < stmts.len()
        invariant
            i <= stmts@.len(),
            stmts == &block.node.stmts,
            forall|j: int| 0 <= j < i ==> stmt_breaks_ok(#[trigger] stmts@[j].node, in_loop),
        decreases stmts@.len() - i,
    {
        match &stmts[i].node {
            Statement::Declaration { value, .. } => check_expression(value, in_loop)?,
            Statement::Expression { val } => check_expression(val, in_loop)?,
        }
        i = i + 1;
    }
    check_expression(&block.node.expr, in_loop)
}

/// Make sure every `break` of the program is within a while loop; the error
/// is at the first one that is not
pub fn run(program: &Program) -> (r: Result<(), Diagnostic>)
    ensures
        r is Ok <==> forall|i: int| 0 <= i < program@.len() ==> symbol_breaks_ok(#[trigger] program@[i].node),
        r matches Err(d) ==> d.msg@ == "`break` outside of loop"@,
{
    let mut i: usize = 0;
    while i < program.len()
        invariant
            i <= program@.len(),
            forall|j: int| 0 <= j < i ==> symbol_breaks_ok(#[trigger] program@[j].node),
        decreases program@.len() - i,
    {
        if let Symbol::Function { body, .. } = &program[i].node {
            check_block(body, false)?;
        }
        i = i + 1;
    }
    Ok(())
}

} // verus!
