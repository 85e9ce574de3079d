//! The code that straight-line expressions are translated to
//!
//! An expression without control flow (no `if`, `while`, `return`, `break`,
//! `&&` or `||`) is translated into instructions appended to the current
//! block. These predicates state which instructions: the operands are
//! evaluated left to right, each into a register of its own (literals and
//! constants are used as immediate values), and the last instruction
//! computes the result.

use vstd::prelude::*;
use crate::driver::interner::Ident;
use crate::driver::symbol_table::SymbolTable;
use crate::front::ast;
use crate::middle::ir::{self, Instruction, Register, cmp_of_binop, infix_of_binop};
use crate::middle::ir::trans::{Dest, VariableKind};
use crate::util::pretty::call_arity;

verus! {

/// How a name used as a variable in scope `scope` is stored
pub open spec fn kind_of(t: SymbolTable, scope: ast::NodeId, name: Ident) -> Option<VariableKind> {
    let known = t.symbol_map().contains_key(name.0);
    if !t.has_scope(scope) {
        None
    } else if t.resolve_spec(scope, name) is Some {
        Some(VariableKind::Stack)
    } else if known && t.symbol_map()[name.0] is Static {
        Some(VariableKind::Static)
    } else if known && t.symbol_map()[name.0] is Constant {
        Some(VariableKind::Constant)
    } else {
        None
    }
}

/// The stack slot of a local variable
pub open spec fn slot_of(t: SymbolTable, scope: ast::NodeId, name: Ident) -> Option<Register> {
    match t.resolve_spec(scope, name) {
        Some(v) => v.slot,
        None => None,
    }
}

/// The value of a constant whose value is a literal
pub open spec fn constant_of(t: SymbolTable, name: Ident) -> Option<ir::Value> {
    if t.symbol_map().contains_key(name.0) && (t.symbol_map()[name.0] matches ast::Symbol::Constant { value, .. }
        && value.node is Literal) {
        Some(ir::Value::Immediate(ir::Immediate(ast::value_bits(t.symbol_map()[name.0]->Constant_value.node->Literal_val))))
    } else {
        None
    }
}

/// Where an assignment to a variable stores: its stack slot, or the static
pub open spec fn assign_target(t: SymbolTable, scope: ast::NodeId, name: Ident) -> Option<ir::Value> {
    match kind_of(t, scope, name) {
        Some(VariableKind::Stack) => match slot_of(t, scope, name) {
            Some(slot) => Some(ir::Value::Register(slot)),
            None => None,
        },
        Some(VariableKind::Static) => Some(ir::Value::Static(name)),
        _ => None,
    }
}

/// The variable `name` can be read: a stack variable with a slot, a static,
/// or a constant whose value is a literal
pub open spec fn readable(t: SymbolTable, scope: ast::NodeId, name: Ident) -> bool {
    match kind_of(t, scope, name) {
        Some(VariableKind::Stack) => slot_of(t, scope, name) is Some,
        Some(VariableKind::Static) => true,
        Some(VariableKind::Constant) => constant_of(t, name) is Some,
        None => false,
    }
}

/// The code that reads the variable `name` into `dst`: a load from its stack
/// slot or from the static, or the constant's value
pub open spec fn variable_code(t: SymbolTable, scope: ast::NodeId, name: Ident, dst: Register, is: Seq<Instruction>) -> bool {
    match kind_of(t, scope, name) {
        Some(VariableKind::Stack) => slot_of(t, scope, name) matches Some(slot)
            && is == seq![Instruction::Load { src: ir::Value::Register(slot), dst }],
        Some(VariableKind::Static) => is == seq![Instruction::Load { src: ir::Value::Static(name), dst }],
        Some(VariableKind::Constant) => constant_of(t, name) matches Some(v)
            && is == seq![Instruction::Store { src: v, dst: ir::Value::Register(dst) }],
        None => false,
    }
}

/// The code of an expression whose value is stored in `dest`: the given
/// register, or a fresh one
pub open spec fn dest_code(t: SymbolTable, scope: ast::NodeId, e: ast::Expression, dest: Dest, is: Seq<Instruction>) -> bool {
    match dest {
        Dest::Store(d) => code_expr(t, scope, e, d, is),
        Dest::Ignore => exists|d: Register| #[trigger] code_expr(t, scope, e, d, is),
    }
}

/// The committed blocks `b` are `old` with blocks added after them: the
/// blocks stay, except that the first one may get more instructions (the
/// `alloca`s of the function's variables)
pub open spec fn body_grows(b: Seq<ir::Block>, old: Seq<ir::Block>) -> bool {
    &&& old.len() <= b.len()
    &&& forall|i: int| 1 <= i < old.len() ==> #[trigger] b[i] == old[i]
    &&& old.len() > 0 ==> b[0].label == old[0].label && b[0].last == old[0].last && b[0].phis == old[0].phis
}

/// The number of instructions of a sequence
pub open spec fn instrs_len(is: Seq<Instruction>) -> int {
    is.len() as int
}

/// The instructions appended to `old` to make `b`
pub open spec fn appended(b: ir::Block, old: ir::Block) -> Seq<Instruction> {
    b.inst@.subrange(old.inst@.len() as int, b.inst@.len() as int)
}

/// The block `b` is `old` with instructions appended
pub open spec fn appends(b: ir::Block, old: ir::Block) -> bool {
    &&& b.label == old.label
    &&& b.last == old.last
    &&& b.phis == old.phis
    &&& old.inst@.len() <= b.inst@.len()
    &&& b.inst@.subrange(0, old.inst@.len() as int) == old.inst@
}

/// Appending to a block twice
pub proof fn lemma_appends_trans(a: ir::Block, b: ir::Block, c: ir::Block)
    requires
        appends(b, a),
        appends(c, b),
    ensures
        appends(c, a),
        appended(c, a) == appended(b, a) + appended(c, b),
{
    assert(c.inst@.subrange(0, a.inst@.len() as int) =~= a.inst@);
    assert(appended(c, a) =~= appended(b, a) + appended(c, b));
}

/// The arguments of a call without control flow have none
pub proof fn lemma_args_straight(call: ast::Expression, n: nat, i: int)
    requires
        call is Call,
        n <= call->Call_args@.len(),
        args_straight(call, n),
        0 <= i < n,
    ensures
        straight(call->Call_args@[i].node),
    decreases n,
{
    if i < n - 1 {
        lemma_args_straight(call, (n - 1) as nat, i);
    }
}

/// Every statement is an expression statement without control flow
pub open spec fn straight_stmts(stmts: Seq<ast::Node<ast::Statement>>) -> bool {
    forall|i: int| 0 <= i < stmts.len() ==> ((#[trigger] stmts[i]).node matches ast::Statement::Expression { val }
        && straight(val.node))
}

/// The code of expression statements: the code of each one (its value
/// ignored), one after the other
pub open spec fn stmts_code(t: SymbolTable, scope: ast::NodeId, stmts: Seq<ast::Node<ast::Statement>>,
    is: Seq<Instruction>) -> bool
    decreases stmts.len(),
{
    if stmts.len() == 0 {
        is.len() == 0
    } else {
        exists|k: int| 0 <= k <= is.len()
            && stmts_code(t, scope, stmts.drop_last(), #[trigger] is.subrange(0, k))
            && dest_code(t, scope, stmts.last().node->Expression_val.node, Dest::Ignore, is.subrange(k, is.len() as int))
    }
}

/// The code of one more expression statement follows that of the others
pub proof fn lemma_stmts_code_push(t: SymbolTable, scope: ast::NodeId, stmts: Seq<ast::Node<ast::Statement>>,
    is: Seq<Instruction>, k: int)
    requires
        stmts.len() > 0,
        0 <= k <= is.len(),
        stmts_code(t, scope, stmts.drop_last(), is.subrange(0, k)),
        dest_code(t, scope, stmts.last().node->Expression_val.node, Dest::Ignore, is.subrange(k, is.len() as int)),
    ensures
        stmts_code(t, scope, stmts, is),
{
}

/// Appending one instruction
pub proof fn lemma_appends_push(a: ir::Block, b: ir::Block, i: Instruction)
    requires
        b.inst@ == a.inst@.push(i),
        b.label == a.label,
        b.last == a.last,
        b.phis == a.phis,
    ensures
        appends(b, a),
        appended(b, a) == seq![i],
{
    assert(b.inst@.subrange(0, a.inst@.len() as int) =~= a.inst@);
    assert(appended(b, a) =~= seq![i]);
}

/// Appending nothing
pub proof fn lemma_appends_refl(a: ir::Block)
    ensures
        appends(a, a),
        appended(a, a) == Seq::<Instruction>::empty(),
{
    assert(a.inst@.subrange(0, a.inst@.len() as int) =~= a.inst@);
    assert(appended(a, a) =~= Seq::<Instruction>::empty());
}

/// Whether an expression has no control flow
pub open spec fn straight(e: ast::Expression) -> bool
    decreases e, 1nat, 0nat,
{
    match e {
        ast::Expression::Literal { .. } | ast::Expression::Variable { .. } | ast::Expression::Unit => true,
        ast::Expression::Group(inner) => straight(inner.node),
        ast::Expression::Infix { op, lhs, rhs } => ast::binop_type(op) != ast::BinOpType::Logic
            && straight(lhs.node) && straight(rhs.node),
        ast::Expression::AssignOp { op, lhs, rhs } => ast::binop_type(op) != ast::BinOpType::Logic
            && straight(lhs.node) && straight(rhs.node),
        ast::Expression::Assign { lhs, rhs } => straight(lhs.node) && straight(rhs.node),
        ast::Expression::Prefix { item, .. } => straight(item.node),
        ast::Expression::Call { func, .. } => straight(func.node) && args_straight(e, call_arity(e)),
        _ => false,
    }
}

/// Whether the first `n` arguments of a call have no control flow
pub open spec fn args_straight(call: ast::Expression, n: nat) -> bool
    decreases call, 0nat, n,
{
    if call is Call && 0 < n <= call->Call_args@.len() {
        args_straight(call, (n - 1) as nat) && straight(call->Call_args@[n - 1].node)
    } else {
        true
    }
}

/// The code `is` computes the expression `e` as the value `v`: a literal or
/// a constant is used as its value with no code, any other expression is
/// computed into the register `v` names
pub open spec fn code_value(t: SymbolTable, scope: ast::NodeId, e: ast::Expression, v: ir::Value,
    is: Seq<Instruction>) -> bool
    decreases e, 3nat, 0nat,
{
    match e {
        ast::Expression::Literal { val } => is.len() == 0 && v == ir::Value::Immediate(ir::Immediate(ast::value_bits(val))),
        ast::Expression::Variable { name } => if kind_of(t, scope, name.node) == Some(VariableKind::Constant) {
            is.len() == 0 && constant_of(t, name.node) == Some(v)
        } else {
            v matches ir::Value::Register(r) && code_expr(t, scope, e, r, is)
        },
        _ => v matches ir::Value::Register(r) && code_expr(t, scope, e, r, is),
    }
}

/// The code `is` computes the expression `e` into the register `dst`
/// (an assignment computes nothing into it)
pub open spec fn code_expr(t: SymbolTable, scope: ast::NodeId, e: ast::Expression, dst: Register,
    is: Seq<Instruction>) -> bool
    decreases e, 2nat, 0nat,
{
    match e {
        ast::Expression::Literal { val } => is == seq![Instruction::Store {
            src: ir::Value::Immediate(ir::Immediate(ast::value_bits(val))),
            dst: ir::Value::Register(dst),
        }],
        ast::Expression::Variable { name } => variable_code(t, scope, name.node, dst, is),
        ast::Expression::Group(inner) => code_expr(t, scope, inner.node, dst, is),
        ast::Expression::Infix { .. } => code_operation(t, scope, e, dst, is),
        ast::Expression::AssignOp { lhs, .. } => is.len() >= 1 && match (lhs.node, is.last()) {
            (ast::Expression::Variable { name }, Instruction::Store { src: ir::Value::Register(tmp), dst: target }) =>
                assign_target(t, scope, name.node) == Some(target) && code_operation(t, scope, e, tmp, is.drop_last()),
            _ => false,
        },
        ast::Expression::Assign { lhs, rhs } => is.len() >= 1 && match (lhs.node, is.last()) {
            (ast::Expression::Variable { name }, Instruction::Store { src, dst: target }) =>
                assign_target(t, scope, name.node) == Some(target) && code_value(t, scope, rhs.node, src, is.drop_last()),
            _ => false,
        },
        ast::Expression::Prefix { op, item } => is.len() >= 1 && match is.last() {
            Instruction::UnOp { op: o, item: v, dst: d } => d == dst
                && o == (if op == ast::UnOp::Neg { ir::PrefixOp::Neg } else { ir::PrefixOp::Not })
                && code_value(t, scope, item.node, v, is.drop_last()),
            _ => false,
        },
        ast::Expression::Call { func, args } => is.len() >= 1 && match (func.node, is.last()) {
            (ast::Expression::Variable { name }, Instruction::Call { name: n, args: vals, dst: d }) =>
                n == name.node && d == dst && vals@.len() == args@.len()
                    && code_args(t, scope, e, args@.len(), vals@, is.drop_last()),
            _ => false,
        },
        ast::Expression::Unit => is.len() == 0,
        _ => false,
    }
}

/// The code of a binary operation (or of the operation of an assignment
/// with an operator) computed into `dst`: its operands, then the operation
pub open spec fn code_operation(t: SymbolTable, scope: ast::NodeId, e: ast::Expression, dst: Register,
    is: Seq<Instruction>) -> bool
    decreases e, 1nat, 0nat,
{
    let op = match e {
        ast::Expression::Infix { op, .. } => op,
        ast::Expression::AssignOp { op, .. } => op,
        _ => ast::BinOp::And,
    };
    &&& e is Infix || e is AssignOp
    &&& is.len() >= 1
    &&& match is.last() {
        Instruction::BinOp { op: o, lhs: vl, rhs: vr, dst: d } => d == dst
            && (ast::binop_type(op) == ast::BinOpType::Arithmetic || ast::binop_type(op) == ast::BinOpType::Bitwise)
            && o == infix_of_binop(op) && operands_code(t, scope, e, vl, vr, is.drop_last()),
        Instruction::Cmp { op: o, lhs: vl, rhs: vr, dst: d } => d == dst
            && ast::binop_type(op) == ast::BinOpType::Comparison
            && o == cmp_of_binop(op) && operands_code(t, scope, e, vl, vr, is.drop_last()),
        _ => false,
    }
}

/// The code of the two operands of a binary operation, the left-hand one
/// first
pub open spec fn operands_code(t: SymbolTable, scope: ast::NodeId, e: ast::Expression, vl: ir::Value, vr: ir::Value,
    is: Seq<Instruction>) -> bool
    decreases e, 0nat, 0nat,
{
    match e {
        ast::Expression::Infix { lhs, rhs, .. } | ast::Expression::AssignOp { lhs, rhs, .. } =>
            exists|k: int| 0 <= k <= is.len() && code_value(t, scope, lhs.node, vl, #[trigger] is.subrange(0, k))
                && code_value(t, scope, rhs.node, vr, is.subrange(k, is.len() as int)),
        _ => false,
    }
}

/// The code of the first `n` arguments of a call, as the values `vals`
pub open spec fn code_args(t: SymbolTable, scope: ast::NodeId, call: ast::Expression, n: nat, vals: Seq<ir::Value>,
    is: Seq<Instruction>) -> bool
    decreases call, 0nat, n,
{
    if call is Call && 0 < n <= call->Call_args@.len() {
        vals.len() == n && exists|k: int| 0 <= k <= is.len()
            && code_args(t, scope, call, (n - 1) as nat, vals.drop_last(), #[trigger] is.subrange(0, k))
            && code_value(t, scope, call->Call_args@[n - 1].node, vals.last(), is.subrange(k, is.len() as int))
    } else {
        n == 0 && vals.len() == 0 && is.len() == 0
    }
}

} // verus!
