//! Type checking
//!
//! We need to make sure the program uses types coherently. To do that, we
//! walk the AST and determine the type of every expression. While doing that
//! we check some coherence rules (e.g. addition requires two ints). The first
//! mismatch is reported as an error.
//!
//! Variables are typed by the scope table: a variable used in a block has the
//! type of the declaration it resolves to from the block's scope.

use vstd::prelude::*;
use crate::driver::interner::Ident;
use crate::driver::session::Diagnostic;
use crate::driver::symbol_table::{SymbolTable, symbol_binding_type};
use crate::front::ast::{BinOp, BinOpType, Block, Expression, Node, NodeId, Program, Statement, Symbol, Type, UnOp,
    binop_type, value_type};
use crate::front::tokens::{binop_str, unop_str};
use crate::util::text::{push_str, push_u64, string_of};

verus! {

// --- The typing rules ---------------------------------------------------------

/// The type of a name used as a variable in a scope: that of the declaration
/// it resolves to, or of the static or constant it names
pub open spec fn var_type(t: SymbolTable, scope: NodeId, name: Ident) -> Option<Type> {
    match t.resolve_spec(scope, name) {
        Some(v) => Some(v.ty),
        None => if t.symbol_map().contains_key(name.0) {
            symbol_binding_type(t.symbol_map()[name.0])
        } else {
            None
        },
    }
}

/// A type meets an expectation (a type error is not reported twice)
pub open spec fn meets(ty: Type, expected: Option<Type>) -> bool {
    match expected {
        Some(x) => ty == Type::Error || ty == x,
        None => true,
    }
}

/// The type an operand of a binary operator must have on its left-hand side
pub open spec fn infix_lhs_expectation(op: BinOp) -> Option<Type> {
    match binop_type(op) {
        BinOpType::Arithmetic => Some(Type::Int),
        BinOpType::Logic => Some(Type::Bool),
        BinOpType::Bitwise => None,
        BinOpType::Comparison => Some(Type::Int),
    }
}

/// Given the type of the left-hand side of a binary operation, the type the
/// right-hand side must have and the operation's type; `None` if the
/// left-hand side's type does not fit the operator
pub open spec fn infix_outcome(op: BinOp, lhs: Type) -> Option<(Option<Type>, Type)> {
    match binop_type(op) {
        BinOpType::Arithmetic => Some((Some(Type::Int), Type::Int)),
        BinOpType::Logic => Some((Some(Type::Bool), Type::Bool)),
        BinOpType::Bitwise => if lhs == Type::Bool || lhs == Type::Int { Some((Some(lhs), lhs)) } else { None },
        BinOpType::Comparison => Some((Some(Type::Int), Type::Bool)),
    }
}

/// The arguments' bindings and the return type of a function named by a
/// called expression
pub open spec fn fn_signature(t: SymbolTable, func: Expression) -> Option<(Seq<Node<crate::front::ast::Binding>>, Type)> {
    if func is Variable && t.symbol_map().contains_key(func->Variable_name.node.0) {
        match t.symbol_map()[func->Variable_name.node.0] {
            Symbol::Function { bindings, ret_ty, .. } => Some((bindings@, ret_ty)),
            _ => None,
        }
    } else {
        None
    }
}

/// The type of an expression in a scope, in a function returning `ret`, where
/// the context expects a type (`None` where it expects none); `None` if the
/// expression does not type check
pub open spec fn expr_type(e: Expression, t: SymbolTable, scope: NodeId, ret: Type, expected: Option<Type>) -> Option<Type>
    decreases e, 0nat,
{
    let ty: Option<Type> = match e {
        Expression::Literal { val } => Some(value_type(val)),
        Expression::Variable { name } => var_type(t, scope, name.node),
        Expression::Assign { lhs, rhs } => match expr_type(lhs.node, t, scope, ret, None) {
            Some(lt) => if expr_type(rhs.node, t, scope, ret, Some(lt)) is Some { Some(Type::Unit) } else { None },
            None => None,
        },
        Expression::AssignOp { op, lhs, rhs } => match expr_type(lhs.node, t, scope, ret, infix_lhs_expectation(op)) {
            Some(lt) => match infix_outcome(op, lt) {
                Some((rexp, _)) => if expr_type(rhs.node, t, scope, ret, rexp) is Some { Some(Type::Unit) } else { None },
                None => None,
            },
            None => None,
        },
        Expression::Infix { op, lhs, rhs } => match expr_type(lhs.node, t, scope, ret, infix_lhs_expectation(op)) {
            Some(lt) => match infix_outcome(op, lt) {
                Some((rexp, res)) => if expr_type(rhs.node, t, scope, ret, rexp) is Some { Some(res) } else { None },
                None => None,
            },
            None => None,
        },
        Expression::Return { val } => expr_type(val.node, t, scope, ret, Some(ret)),
        Expression::Call { func, args } => match fn_signature(t, func.node) {
            Some((bindings, rt)) => {
                if args@.len() == bindings.len() && forall|i: int| 0 <= i < args@.len()
                    ==> expr_type(#[trigger] args@[i].node, t, scope, ret, Some(bindings[i].node.ty)) is Some {
                    Some(rt)
                } else {
                    None
                }
            },
            None => None,
        },
        Expression::Group(inner) => expr_type(inner.node, t, scope, ret, expected),
        Expression::Prefix { op, item } => match op {
            UnOp::Neg => if expr_type(item.node, t, scope, ret, Some(Type::Int)) is Some { Some(Type::Int) } else { None },
            UnOp::Not => match expr_type(item.node, t, scope, ret, None) {
                Some(it) => if it == Type::Bool || it == Type::Int { Some(it) } else { None },
                None => None,
            },
        },
        Expression::If { cond, conseq, altern } => {
            if expr_type(cond.node, t, scope, ret, Some(Type::Bool)) is None {
                None
            } else {
                match block_type(*conseq, t, ret, expected, 0) {
                    Some(ct) => {
                        let altern_ok = match altern {
                            Some(b) => block_type(*b, t, ret, Some(ct), 0) is Some,
                            None => !(expected matches Some(x) && x != Type::Unit),
                        };
                        if !altern_ok {
                            None
                        } else if expected matches Some(x) && x != ct {
                            Some(Type::Error)
                        } else {
                            Some(ct)
                        }
                    },
                    None => None,
                }
            }
        },
        Expression::While { cond, body } => {
            if expr_type(cond.node, t, scope, ret, Some(Type::Bool)) is Some
                && block_type(*body, t, ret, Some(Type::Unit), 0) is Some {
                Some(Type::Unit)
            } else {
                None
            }
        },
        Expression::Break | Expression::Unit => Some(Type::Unit),
    };
    match ty {
        Some(ty) => if meets(ty, expected) { Some(ty) } else { None },
        None => None,
    }
}

/// The type of a block from statement `i` on (in the block's own scope): the
/// statements type check and the type is that of the block's expression
pub open spec fn block_type(b: Node<Block>, t: SymbolTable, ret: Type, expected: Option<Type>, i: int) -> Option<Type>
    decreases b, (b.node.stmts@.len() - i) as nat,
{
    if 0 <= i < b.node.stmts@.len() {
        let ok = match b.node.stmts@[i].node {
            Statement::Declaration { binding, value } => match var_type(t, b.id, binding.node.name.node) {
                Some(vt) => expr_type(value.node, t, b.id, ret, Some(vt)) is Some,
                None => false,
            },
            Statement::Expression { val } => expr_type(val.node, t, b.id, ret, None) is Some,
        };
        if ok { block_type(b, t, ret, expected, i + 1) } else { None }
    } else {
        expr_type(b.node.expr.node, t, b.id, ret, expected)
    }
}

/// Whether the expression contains a `return`
pub open spec fn expr_has_return(e: Expression) -> bool
    decreases e, 0nat,
{
    match e {
        Expression::Return { .. } => true,
        Expression::Assign { lhs, rhs } => expr_has_return(lhs.node) || expr_has_return(rhs.node),
        Expression::AssignOp { lhs, rhs, .. } => expr_has_return(lhs.node) || expr_has_return(rhs.node),
        Expression::Infix { lhs, rhs, .. } => expr_has_return(lhs.node) || expr_has_return(rhs.node),
        Expression::Call { func, args } => expr_has_return(func.node)
            || exists|i: int| 0 <= i < args@.len() && expr_has_return(#[trigger] args@[i].node),
        Expression::Group(inner) => expr_has_return(inner.node),
        Expression::Prefix { item, .. } => expr_has_return(item.node),
        Expression::If { cond, conseq, altern } => expr_has_return(cond.node) || block_has_return(conseq.node)
            || match altern {
                Some(b) => block_has_return(b.node),
                None => false,
            },
        Expression::While { cond, body } => expr_has_return(cond.node) || block_has_return(body.node),
        _ => false,
    }
}

/// Whether the block contains a `return`
pub open spec fn block_has_return(b: Block) -> bool
    decreases b, 1nat,
{
    ||| exists|i: int| 0 <= i < b.stmts@.len() && stmt_has_return(#[trigger] b.stmts@[i].node)
    ||| expr_has_return(b.expr.node)
}

/// Whether the statement contains a `return`
pub open spec fn stmt_has_return(s: Statement) -> bool
    decreases s, 0nat,
{
    match s {
        Statement::Declaration { value, .. } => expr_has_return(value.node),
        Statement::Expression { val } => expr_has_return(val.node),
    }
}

/// A function with return type `ret` and body `body` type checks: with an
/// explicit `return` the body evaluates to `()`, else to the return type
pub open spec fn fn_typed(body: Node<Block>, t: SymbolTable, ret: Type) -> bool {
    match block_type(body, t, ret, None, 0) {
        Some(bt) => if block_has_return(body.node) {
            meets(bt, Some(Type::Unit))
        } else if bt == Type::Unit && ret != Type::Unit {
            false
        } else {
            meets(bt, Some(ret))
        },
        None => false,
    }
}

/// The scope of the expressions outside any block
pub open spec fn outer_scope() -> NodeId {
    NodeId(0xffff_ffff)
}

/// The return type in effect after a symbol: that of the last function
pub open spec fn ret_after(s: Symbol, ret: Type) -> Type {
    match s {
        Symbol::Function { ret_ty, .. } => ret_ty,
        _ => ret,
    }
}

/// A symbol type checks (`ret`: the return type of the last function before it)
pub open spec fn symbol_typed(s: Symbol, t: SymbolTable, ret: Type) -> bool {
    match s {
        Symbol::Function { ret_ty, body, .. } => fn_typed(*body, t, ret_ty),
        Symbol::Static { binding, value } => expr_type(value.node, t, outer_scope(), ret, Some(binding.node.ty)) is Some,
        Symbol::Constant { binding, value } => expr_type(value.node, t, outer_scope(), ret, Some(binding.node.ty)) is Some,
    }
}

/// The symbols from index `i` on type check, `ret` being the return type of
/// the last function before
pub open spec fn program_typed_from(p: Seq<Node<Symbol>>, t: SymbolTable, i: int, ret: Type) -> bool
    decreases p.len() - i,
{
    if 0 <= i < p.len() {
        symbol_typed(p[i].node, t, ret) && program_typed_from(p, t, i + 1, ret_after(p[i].node, ret))
    } else {
        true
    }
}

/// The whole program type checks
pub open spec fn program_typed(p: Seq<Node<Symbol>>, t: SymbolTable) -> bool {
    program_typed_from(p, t, 0, Type::Unit)
}

// --- The checker --------------------------------------------------------------

/// The type a name has when used as a variable in a scope
pub fn variable_type(table: &SymbolTable, scope: NodeId, name: Ident) -> (r: Option<Type>)
    requires
        table.wf(),
    ensures
        r == var_type(*table, scope, name),
{
    if table.contains_scope(scope) {
        match table.resolve_variable(scope, &name) {
            Some(v) => Some(v.ty),
            None => None,
        }
    } else {
        match table.lookup_symbol(&name) {
            Some(Symbol::Static { binding, .. }) => Some(binding.node.ty),
            Some(Symbol::Constant { binding, .. }) => Some(binding.node.ty),
            _ => None,
        }
    }
}

/// The type the left-hand side of a binary operation must have
fn lhs_expectation(op: BinOp) -> (r: Option<Type>)
    ensures
        r == infix_lhs_expectation(op),
{
    match op.get_type() {
        BinOpType::Arithmetic => Some(Type::Int),
        BinOpType::Logic => Some(Type::Bool),
        BinOpType::Bitwise => None,
        BinOpType::Comparison => Some(Type::Int),
    }
}

/// The expectation on the right-hand side and the type of a binary operation
fn operation_outcome(op: BinOp, lhs: Type) -> (r: Option<(Option<Type>, Type)>)
    ensures
        r == infix_outcome(op, lhs),
{
    match op.get_type() {
        BinOpType::Arithmetic => Some((Some(Type::Int), Type::Int)),
        BinOpType::Logic => Some((Some(Type::Bool), Type::Bool)),
        // Both ints and bools are accepted here, thus the type is inferred
        // from the left hand side
        BinOpType::Bitwise => if lhs == Type::Bool || lhs == Type::Int { Some((Some(lhs), lhs)) } else { None },
        BinOpType::Comparison => Some((Some(Type::Int), Type::Bool)),
    }
}

/// The error for a type mismatch
fn mismatch(expected: Type, got: Type, pos: u32) -> (r: Diagnostic)
    ensures
        r.pos == Some(pos),
{
    let mut msg = String::new();
    push_str(&mut msg, "type mismatch: expected ");
    push_str(&mut msg, expected.name());
    push_str(&mut msg, ", got ");
    push_str(&mut msg, got.name());
    Diagnostic::at(msg, pos)
}

/// The error for an operator applied to a type that does not fit
fn operator_mismatch(op: &str, ty: Type, pos: u32, unary: bool) -> (r: Diagnostic)
    ensures
        r.pos == Some(pos),
{
    let mut msg = String::new();
    push_str(&mut msg, if unary { "unary operation `" } else { "binary operation `" });
    push_str(&mut msg, op);
    push_str(&mut msg, "` cannot be applied to ");
    push_str(&mut msg, ty.name());
    Diagnostic::at(msg, pos)
}

/// Type check an expression in a scope of a function returning `ret`,
/// where the context expects the type `expected` (if any)
pub fn check_expression(table: &SymbolTable, scope: NodeId, ret: Type, expr: &Node<Expression>, expected: Option<Type>) -> (r: Result<Type, Diagnostic>)
    requires
        table.wf(),
    ensures
        match r {
            Ok(ty) => expr_type(expr.node, *table, scope, ret, expected) == Some(ty),
            Err(_) => expr_type(expr.node, *table, scope, ret, expected) is None,
        },
    decreases expr.node, 0nat,
{
    let ty = match &expr.node {
        // Basic expressions
        Expression::Literal { val } => val.get_ty(),
        Expression::Variable { name } => match variable_type(table, scope, name.node) {
            Some(ty) => ty,
            None => return Err(Diagnostic::at(string_of("no variable with this name"), name.span.pos)),
        },
        // Compound expressions
        Expression::Assign { lhs, rhs } => {
            // Infer from left hand side
            let lt = check_expression(table, scope, ret, lhs, None)?;
            check_expression(table, scope, ret, rhs, Some(lt))?;
            Type::Unit
        },
        Expression::AssignOp { op, lhs, rhs } => {
            let lt = check_expression(table, scope, ret, lhs, lhs_expectation(*op))?;
            let rexp = match operation_outcome(*op, lt) {
                Some((rexp, _)) => rexp,
                None => return Err(operator_mismatch(binop_str(*op), lt, lhs.span.pos, false)),
            };
            check_expression(table, scope, ret, rhs, rexp)?;
            Type::Unit
        },
        Expression::Infix { op, lhs, rhs } => {
            let lt = check_expression(table, scope, ret, lhs, lhs_expectation(*op))?;
            let (rexp, res) = match operation_outcome(*op, lt) {
                Some(outcome) => outcome,
                None => return Err(operator_mismatch(binop_str(*op), lt, lhs.span.pos, false)),
            };
            check_expression(table, scope, ret, rhs, rexp)?;
            res
        },
        Expression::Return { val } => check_expression(table, scope, ret, val, Some(ret))?,
        Expression::Call { func, args } => {
            let signature = match &func.node {
                Expression::Variable { name } => table.lookup_function(&name.node),
                _ => None,
            };
            let (bindings, rt) = match signature {
                Some(sig) => sig,
                None => return Err(Diagnostic::at(string_of("cannot call non-function"), func.span.pos)),
            };
            // Check argument count
            if args.len() != bindings.len() {
                let mut msg = String::new();
                push_str(&mut msg, "mismatching argument count: expected ");
                push_u64(&mut msg, bindings.len() as u64);
                push_str(&mut msg, ", got ");
                push_u64(&mut msg, args.len() as u64);
                return Err(Diagnostic::at(msg, func.span.pos));
            }
            // Check argument types
            let ghost sig = fn_signature(*table, func.node);
            let mut i: usize = 0;
            while i < args.len()
                invariant
                    i <= args@.len(),
                    args@.len() == bindings@.len(),
                    expr.node is Call && expr.node->Call_args == *args,
                    table.wf(),
                    sig == Some((bindings@, rt)),
                    sig == fn_signature(*table, expr.node->Call_func.node),
                    forall|j: int| 0 <= j < i ==> expr_type(#[trigger] args@[j].node, *table, scope, ret, Some(bindings@[j].node.ty)) is Some,
                decreases args@.len() - i,
            {
                proof {
                    assert(decreases_to!(expr.node => args@[i as int].node));
                }
                if let Err(d) = check_expression(table, scope, ret, &args[i], Some(bindings[i].node.ty)) {
                    proof {
                        assert(expr_type(args@[i as int].node, *table, scope, ret, Some(bindings@[i as int].node.ty)) is None);
                        assert(!(forall|j: int| 0 <= j < args@.len()
                            ==> expr_type(#[trigger] args@[j].node, *table, scope, ret, Some(bindings@[j].node.ty)) is Some));
                    }
                    return Err(d);
                }
                i = i + 1;
            }
            rt
        },
        Expression::Group(inner) => check_expression(table, scope, ret, inner, expected)?,
        Expression::Prefix { op, item } => match op {
            UnOp::Neg => {
                check_expression(table, scope, ret, item, Some(Type::Int))?;
                Type::Int
            },
            UnOp::Not => {
                let it = check_expression(table, scope, ret, item, None)?;
                if it == Type::Bool || it == Type::Int {
                    it
                } else {
                    return Err(operator_mismatch(unop_str(*op), it, item.span.pos, true));
                }
            },
        },
        Expression::If { cond, conseq, altern } => {
            check_expression(table, scope, ret, cond, Some(Type::Bool))?;
            // The consequence must meet the expectation, or gives the type
            let ct = check_block(table, ret, conseq, expected)?;
            match altern {
                Some(b) => {
                    check_block(table, ret, b, Some(ct))?;
                },
                None => {
                    if let Some(x) = expected {
                        if x != Type::Unit {
                            return Err(Diagnostic::at(string_of("missing else clause"), conseq.span.pos));
                        }
                    }
                },
            }
            match expected {
                // A mismatch was reported by the consequence already
                Some(x) => if x != ct { Type::Error } else { ct },
                None => ct,
            }
        },
        Expression::While { cond, body } => {
            check_expression(table, scope, ret, cond, Some(Type::Bool))?;
            check_block(table, ret, body, Some(Type::Unit))?;
            Type::Unit
        },
        Expression::Break | Expression::Unit => Type::Unit,
    };
    if let Some(x) = expected {
        if ty != Type::Error && ty != x {
            return Err(mismatch(x, ty, expr.span.pos));
        }
    }
    Ok(ty)
}

/// Type check a block (in its own scope): its type is that of its expression
pub fn check_block(table: &SymbolTable, ret: Type, block: &Node<Block>, expected: Option<Type>) -> (r: Result<Type, Diagnostic>)
    requires
        table.wf(),
    ensures
        match r {
            Ok(ty) => block_type(*block, *table, ret, expected, 0) == Some(ty),
            Err(_) => block_type(*block, *table, ret, expected, 0) is None,
        },
    decreases *block, 1nat,
{
    let stmts = &block.node.stmts;
    let mut i: usize = 0;
    while i < stmts.len()
        invariant
            i <= stmts@.len(),
            stmts == &block.node.stmts,
            table.wf(),
            block_type(*block, *table, ret, expected, 0) == block_type(*block, *table, ret, expected, i as int),
        decreases stmts@.len() - i,
    {
        match &stmts[i].node {
            Statement::Declaration { binding, value } => {
                proof { assert(decreases_to!(*block => value.node)); }
                match variable_type(table, block.id, binding.node.name.node) {
                    Some(vt) => {
                        check_expression(table, block.id, ret, value, Some(vt))?;
                    },
                    None => return Err(Diagnostic::at(string_of("no variable with this name"), binding.span.pos)),
                }
            },
            Statement::Expression { val } => {
                proof { assert(decreases_to!(*block => val.node)); }
                // The statement evaluates to () whatever the expression's type
                check_expression(table, block.id, ret, val, None)?;
            },
        }
        i = i + 1;
    }
    check_expression(table, block.id, ret, &block.node.expr, expected)
}

/// Whether an expression contains a `return`
pub fn has_return(expr: &Node<Expression>) -> (r: bool)
    ensures
        r == expr_has_return(expr.node),
    decreases expr.node, 0nat,
{
    match &expr.node {
        Expression::Return { .. } => true,
        Expression::Assign { lhs, rhs } => has_return(lhs) || has_return(rhs),
        Expression::AssignOp { lhs, rhs, .. } => has_return(lhs) || has_return(rhs),
        Expression::Infix { lhs, rhs, .. } => has_return(lhs) || has_return(rhs),
        Expression::Call { func, args } => {
            if has_return(func) {
                return true;
            }
            let mut i: usize = 0;
            while i < args.len()
                invariant
                    i <= args@.len(),
                    expr.node is Call && expr.node->Call_args == *args,
                    forall|j: int| 0 <= j < i ==> !expr_has_return(#[trigger] args@[j].node),
                decreases args@.len() - i,
            {
                proof {
                    assert(decreases_to!(expr.node => args@[i as int].node));
                }
                if has_return(&args[i]) {
                    return true;
                }
                i = i + 1;
            }
            false
        },
        Expression::Group(inner) => has_return(inner),
        Expression::Prefix { item, .. } => has_return(item),
        Expression::If { cond, conseq, altern } => {
            has_return(cond) || block_returns(conseq) || match altern {
                Some(b) => block_returns(b),
                None => false,
            }
        },
        Expression::While { cond, body } => has_return(cond) || block_returns(body),
        _ => false,
    }
}

/// Whether a block contains a `return`
pub fn block_returns(block: &Node<Block>) -> (r: bool)
    ensures
        r == block_has_return(block.node),
    decreases block.node, 1nat,
{
    let stmts = &block.node.stmts;
    let mut i: usize = 0;
    while i < stmts.len()
        invariant
            i <= stmts@.len(),
            stmts == &block.node.stmts,
            forall|j: int| 0 <= j < i ==> !stmt_has_return(#[trigger] stmts@[j].node),
        decreases stmts@.len() - i,
    {
        let found = match &stmts[i].node {
            Statement::Declaration { value, .. } => has_return(value),
            Statement::Expression { val } => has_return(val),
        };
        if found {
            return true;
        }
        i = i + 1;
    }
    has_return(&block.node.expr)
}

/// Type check a function's body against its return type
pub fn check_fn(table: &SymbolTable, ret: Type, body: &Node<Block>) -> (r: Result<(), Diagnostic>)
    requires
        table.wf(),
    ensures
        r is Ok <==> fn_typed(*body, *table, ret),
{
    let implicit_ret_ty = check_block(table, ret, body, None)?;
    if block_returns(body) {
        // There was an explicit return. Thus, the body has to evaluate to ().
        if implicit_ret_ty != Type::Error && implicit_ret_ty != Type::Unit {
            return Err(mismatch(Type::Unit, implicit_ret_ty, body.span.pos));
        }
    } else if implicit_ret_ty == Type::Unit && ret != Type::Unit {
        // There was NO explicit return. Thus, the body has to evaluate to the
        // return type from the function signature.
        return Err(Diagnostic::at(string_of("missing return value/return statement"), body.span.pos));
    } else if implicit_ret_ty != Type::Error && implicit_ret_ty != ret {
        return Err(mismatch(ret, implicit_ret_ty, body.span.pos));
    }
    Ok(())
}

/// Type check the program: each function's body, and each static's and
/// constant's value against its declared type. The first mismatch is the
/// error.
pub fn run(program: &Program, table: &SymbolTable) -> (r: Result<(), Diagnostic>)
    requires
        table.wf(),
    ensures
        r is Ok <==> program_typed(program@, *table),
{
    let mut ret = Type::Unit;
    let mut i: usize = 0;
    while i < program.len()
        invariant
            i <= program@.len(),
            table.wf(),
            program_typed(program@, *table) == program_typed_from(program@, *table, i as int, ret),
        decreases program@.len() - i,
    {
        match &program[i].node {
            Symbol::Function { ret_ty, body, .. } => {
                check_fn(table, *ret_ty, body)?;
                ret = *ret_ty;
            },
            Symbol::Static { binding, value } => {
                check_expression(table, NodeId(0xffff_ffff), ret, value, Some(binding.node.ty))?;
            },
            Symbol::Constant { binding, value } => {
                check_expression(table, NodeId(0xffff_ffff), ret, value, Some(binding.node.ty))?;
            },
        }
        i = i + 1;
    }
    Ok(())
}


/// A binary operation type checks only if both its operands do with the
/// operator's operand type: `int` for arithmetic and comparisons, `bool`
/// for `&&` and `||`, and one type, `int` or `bool`, for both operands of a
/// bitwise operator
pub proof fn law_operands_have_the_operator_type(e: Expression, t: SymbolTable, scope: NodeId, ret: Type,
    expected: Option<Type>)
    requires
        e is Infix,
        expr_type(e, t, scope, ret, expected) is Some,
    ensures
        ({
            let op = e->Infix_op;
            let l = e->Infix_lhs.node;
            let r = e->Infix_rhs.node;
            &&& (binop_type(op) == BinOpType::Arithmetic || binop_type(op) == BinOpType::Comparison) ==>
                expr_type(l, t, scope, ret, Some(Type::Int)) is Some && expr_type(r, t, scope, ret, Some(Type::Int)) is Some
            &&& binop_type(op) == BinOpType::Logic ==>
                expr_type(l, t, scope, ret, Some(Type::Bool)) is Some && expr_type(r, t, scope, ret, Some(Type::Bool)) is Some
            &&& binop_type(op) == BinOpType::Bitwise ==> exists|ty: Type| (ty == Type::Int || ty == Type::Bool)
                && #[trigger] expr_type(l, t, scope, ret, None) == Some(ty) && expr_type(r, t, scope, ret, Some(ty)) is Some
        }),
{
}

/// No arithmetic operation or comparison with a boolean literal operand
/// type checks (`1 + true`, `1 < true`), and no `&&` or `||` with an integer
/// literal operand (`true && 1`)
pub proof fn law_literal_operands_of_the_wrong_type_are_rejected(e: Expression, t: SymbolTable, scope: NodeId,
    ret: Type, expected: Option<Type>)
    requires
        e is Infix,
        ({
            let op = e->Infix_op;
            let wrong = if binop_type(op) == BinOpType::Logic { Type::Int } else { Type::Bool };
            &&& binop_type(op) != BinOpType::Bitwise
            &&& (e->Infix_lhs.node matches Expression::Literal { val } && value_type(val) == wrong)
                || (e->Infix_rhs.node matches Expression::Literal { val } && value_type(val) == wrong)
        }),
    ensures
        expr_type(e, t, scope, ret, expected) is None,
{
    if expr_type(e, t, scope, ret, expected) is Some {
        law_operands_have_the_operator_type(e, t, scope, ret, expected);
    }
}

/// The type of a binary operation: `int` for arithmetic, `bool` for
/// comparisons, `&&` and `||`, and the operands' type for a bitwise operator
pub proof fn law_operation_types(e: Expression, t: SymbolTable, scope: NodeId, ret: Type)
    requires
        e is Infix,
        expr_type(e, t, scope, ret, None) is Some,
    ensures
        ({
            let op = e->Infix_op;
            let ty = expr_type(e, t, scope, ret, None);
            &&& binop_type(op) == BinOpType::Arithmetic ==> ty == Some(Type::Int)
            &&& (binop_type(op) == BinOpType::Comparison || binop_type(op) == BinOpType::Logic) ==> ty == Some(Type::Bool)
            &&& binop_type(op) == BinOpType::Bitwise ==> ty == expr_type(e->Infix_lhs.node, t, scope, ret, None)
        }),
{
}

/// The operands of the other operations and conditions type check with the
/// type they need: `-` takes an `int`, `!` an `int` or a `bool`, an
/// assignment's value has the assigned place's type, and the condition of an
/// `if` or a `while` is a `bool`
pub proof fn law_operands_and_conditions_have_their_types(e: Expression, t: SymbolTable, scope: NodeId, ret: Type,
    expected: Option<Type>)
    requires
        expr_type(e, t, scope, ret, expected) is Some,
    ensures
        e matches Expression::Prefix { op: UnOp::Neg, item } ==> expr_type(item.node, t, scope, ret, Some(Type::Int)) is Some,
        e matches Expression::Prefix { op: UnOp::Not, item } ==> (expr_type(item.node, t, scope, ret, None) == Some(Type::Int)
            || expr_type(item.node, t, scope, ret, None) == Some(Type::Bool)),
        e matches Expression::Assign { lhs, rhs } ==> expr_type(lhs.node, t, scope, ret, None) is Some
            && expr_type(rhs.node, t, scope, ret, expr_type(lhs.node, t, scope, ret, None)) is Some,
        e matches Expression::If { cond, .. } ==> expr_type(cond.node, t, scope, ret, Some(Type::Bool)) is Some,
        e matches Expression::While { cond, .. } ==> expr_type(cond.node, t, scope, ret, Some(Type::Bool)) is Some,
{
}
} // verus!
