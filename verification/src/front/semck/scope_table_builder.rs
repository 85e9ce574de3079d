//! Build the scope table and make sure all variables/symbols can be resolved
//!
//! Every block gets a scope, keyed by the block's node id, whose parent is the
//! scope of the enclosing block; a function's arguments are declared in the
//! scope of its body. A declaration makes its name visible to the rest of
//! the block (its own value is checked before), and a block may not declare
//! a name twice. A variable must resolve to a declaration of an enclosing
//! block or to a static or a constant; a call must name a function.

use vstd::prelude::*;
use crate::driver::interner::{Ident, Interner};
use crate::driver::session::Diagnostic;
use crate::driver::symbol_table::{SymbolTable, is_static_or_constant};
use crate::front::ast::{Binding, Block, Expression, Node, NodeId, Program, Statement, Symbol};
use crate::util::text::{push_chars, push_str, string_of};
use vstd::seq_lib::seq_to_set_distributes_over_add;

verus! {

/// A name used as a variable resolves: to a variable in scope or to a static
/// or a constant
pub open spec fn var_ok(n: usize, env: Set<usize>, syms: Map<usize, Symbol>) -> bool {
    env.contains(n) || (syms.contains_key(n) && is_static_or_constant(syms[n]))
}

/// A called expression names a function
pub open spec fn call_ok(func: Expression, syms: Map<usize, Symbol>) -> bool {
    &&& func is Variable
    &&& syms.contains_key(func->Variable_name.node.0)
    &&& syms[func->Variable_name.node.0] is Function
}

/// All names used in the expression resolve, with the variables `env` in scope
pub open spec fn expr_scoped(e: Expression, env: Set<usize>, syms: Map<usize, Symbol>) -> bool
    decreases e, 0nat,
{
    match e {
        Expression::Variable { name } => var_ok(name.node.0, env, syms),
        Expression::Call { func, args } => call_ok(func.node, syms)
            && forall|i: int| 0 <= i < args@.len() ==> expr_scoped(#[trigger] args@[i].node, env, syms),
        Expression::Assign { lhs, rhs } => expr_scoped(lhs.node, env, syms) && expr_scoped(rhs.node, env, syms),
        Expression::AssignOp { lhs, rhs, .. } => expr_scoped(lhs.node, env, syms) && expr_scoped(rhs.node, env, syms),
        Expression::Return { val } => expr_scoped(val.node, env, syms),
        Expression::Group(inner) => expr_scoped(inner.node, env, syms),
        Expression::Infix { lhs, rhs, .. } => expr_scoped(lhs.node, env, syms) && expr_scoped(rhs.node, env, syms),
        Expression::Prefix { item, .. } => expr_scoped(item.node, env, syms),
        Expression::If { cond, conseq, altern } => expr_scoped(cond.node, env, syms)
            && block_scoped(conseq.node, env, Set::empty(), 0, syms)
            && match altern {
                Some(b) => block_scoped(b.node, env, Set::empty(), 0, syms),
                None => true,
            },
        Expression::While { cond, body } => expr_scoped(cond.node, env, syms)
            && block_scoped(body.node, env, Set::empty(), 0, syms),
        _ => true,
    }
}

/// All names used in the block from statement `i` on resolve, with the
/// variables `env` in scope and `declared` declared by the block so far
pub open spec fn block_scoped(b: Block, env: Set<usize>, declared: Set<usize>, i: int, syms: Map<usize, Symbol>) -> bool
    decreases b, (b.stmts@.len() - i) as nat,
{
    if 0 <= i < b.stmts@.len() {
        match b.stmts@[i].node {
            Statement::Declaration { binding, value } => {
                let n = binding.node.name.node.0;
                &&& expr_scoped(value.node, env, syms)
                &&& !declared.contains(n)
                &&& block_scoped(b, env.insert(n), declared.insert(n), i + 1, syms)
            },
            Statement::Expression { val } => expr_scoped(val.node, env, syms) && block_scoped(b, env, declared, i + 1, syms),
        }
    } else {
        expr_scoped(b.expr.node, env, syms)
    }
}

/// The names of the bindings
pub open spec fn binding_names(bs: Seq<Node<Binding>>) -> Set<usize> {
    Set::new(|n: usize| exists|i: int| 0 <= i < bs.len() && bs[i].node.name.node.0 == n)
}

/// No two bindings have the same name
pub open spec fn bindings_distinct(bs: Seq<Node<Binding>>) -> bool {
    forall|i: int, j: int| 0 <= i < j < bs.len() ==> (#[trigger] bs[i]).node.name.node.0 != (#[trigger] bs[j]).node.name.node.0
}

/// A function's arguments have distinct names and all names used in its body
/// resolve, with the arguments in scope
pub open spec fn symbol_scoped(s: Symbol, syms: Map<usize, Symbol>) -> bool {
    match s {
        Symbol::Function { bindings, body, .. } => {
            &&& bindings_distinct(bindings@)
            &&& block_scoped(body.node, binding_names(bindings@), binding_names(bindings@), 0, syms)
        },
        _ => true,
    }
}

/// The node ids of the blocks in an expression, in the order they are met
pub open spec fn expr_block_ids(e: Expression) -> Seq<u32>
    decreases e,
{
    match e {
        Expression::Call { args, .. } => {
            proof { assert(decreases_to!(e => args@)); }
            exprs_block_ids(args@)
        },
        Expression::Assign { lhs, rhs } => expr_block_ids(lhs.node) + expr_block_ids(rhs.node),
        Expression::AssignOp { lhs, rhs, .. } => expr_block_ids(lhs.node) + expr_block_ids(rhs.node),
        Expression::Infix { lhs, rhs, .. } => expr_block_ids(lhs.node) + expr_block_ids(rhs.node),
        Expression::Return { val } => expr_block_ids(val.node),
        Expression::Group(inner) => expr_block_ids(inner.node),
        Expression::Prefix { item, .. } => expr_block_ids(item.node),
        Expression::If { cond, conseq, altern } => expr_block_ids(cond.node) + node_block_ids(*conseq)
            + match altern {
                Some(b) => node_block_ids(*b),
                None => Seq::empty(),
            },
        Expression::While { cond, body } => expr_block_ids(cond.node) + node_block_ids(*body),
        _ => Seq::empty(),
    }
}

/// The node ids of the blocks in a list of expressions, in order
pub open spec fn exprs_block_ids(es: Seq<Node<Expression>>) -> Seq<u32>
    decreases es,
{
    if es.len() == 0 {
        Seq::empty()
    } else {
        proof {
            assert(decreases_to!(es => es[es.len() - 1]));
            assert(decreases_to!(es => es.subrange(0, es.len() - 1)));
        }
        exprs_block_ids(es.subrange(0, es.len() - 1)) + expr_block_ids(es[es.len() - 1].node)
    }
}

/// The node ids of the blocks in a list of statements, in order
pub open spec fn stmts_block_ids(ss: Seq<Node<Statement>>) -> Seq<u32>
    decreases ss,
{
    if ss.len() == 0 {
        Seq::empty()
    } else {
        proof {
            assert(decreases_to!(ss => ss[ss.len() - 1]));
            assert(decreases_to!(ss => ss.subrange(0, ss.len() - 1)));
        }
        stmts_block_ids(ss.subrange(0, ss.len() - 1)) + match ss[ss.len() - 1].node {
            Statement::Declaration { value, .. } => expr_block_ids(value.node),
            Statement::Expression { val } => expr_block_ids(val.node),
        }
    }
}

/// The node ids of a block and of the blocks nested in it, in order
pub open spec fn node_block_ids(b: Node<Block>) -> Seq<u32>
    decreases b,
{
    proof {
        assert(decreases_to!(b => b.node.stmts@));
    }
    seq![b.id.0] + (stmts_block_ids(b.node.stmts@) + expr_block_ids(b.node.expr.node))
}

/// The node ids of the blocks of the functions of a program, in order
pub open spec fn program_block_ids(p: Seq<Node<Symbol>>) -> Seq<u32>
    decreases p.len(),
{
    if p.len() == 0 {
        Seq::empty()
    } else {
        program_block_ids(p.subrange(0, p.len() - 1)) + match p[p.len() - 1].node {
            Symbol::Function { body, .. } => node_block_ids(*body),
            _ => Seq::empty(),
        }
    }
}

/// No id occurs twice in `ids`, and none is in `used`
pub open spec fn ids_fresh(ids: Seq<u32>, used: Set<u32>) -> bool {
    &&& ids.no_duplicates()
    &&& forall|i: int| 0 <= i < ids.len() ==> !used.contains(#[trigger] ids[i])
}

/// Fresh ids, one list after the other: the first list is fresh, and the
/// second is fresh once the first is used too
pub proof fn lemma_fresh_concat(a: Seq<u32>, b: Seq<u32>, used: Set<u32>)
    ensures
        ids_fresh(a + b, used) <==> ids_fresh(a, used) && ids_fresh(b, used.union(a.to_set())),
{
    let ab = a + b;
    if ids_fresh(a + b, used) {
        assert forall|i: int, j: int| 0 <= i < a.len() && 0 <= j < a.len() && i != j implies a[i] != a[j] by {
            assert(ab[i] == a[i] && ab[j] == a[j]);
        }
        assert forall|i: int, j: int| 0 <= i < b.len() && 0 <= j < b.len() && i != j implies b[i] != b[j] by {
            assert(ab[a.len() + i] == b[i] && ab[a.len() + j] == b[j]);
        }
        assert forall|i: int| 0 <= i < a.len() implies !used.contains(#[trigger] a[i]) by {
            assert(ab[i] == a[i]);
        }
        assert forall|i: int| 0 <= i < b.len() implies !used.union(a.to_set()).contains(#[trigger] b[i]) by {
            assert(ab[a.len() + i] == b[i]);
            if a.to_set().contains(b[i]) {
                let j = choose|j: int| 0 <= j < a.len() && a[j] == b[i];
                assert(ab[j] == a[j]);
            }
        }
    }
    if ids_fresh(a, used) && ids_fresh(b, used.union(a.to_set())) {
        assert forall|i: int, j: int| 0 <= i < ab.len() && 0 <= j < ab.len() && i != j implies ab[i] != ab[j] by {
            if i < a.len() && j >= a.len() {
                assert(a.to_set().contains(a[i]));
                assert(!used.union(a.to_set()).contains(b[j - a.len()]));
            } else if j < a.len() && i >= a.len() {
                assert(a.to_set().contains(a[j]));
                assert(!used.union(a.to_set()).contains(b[i - a.len()]));
            }
        }
        assert forall|i: int| 0 <= i < ab.len() implies !used.contains(#[trigger] ab[i]) by {
            if i >= a.len() {
                assert(!used.union(a.to_set()).contains(b[i - a.len()]));
            }
        }
    }
}

/// Fresh ids, one list after the other, and the ids used after both
pub proof fn lemma_ids_pair(a: Seq<u32>, b: Seq<u32>, used: Set<u32>)
    ensures
        ids_fresh(a + b, used) <==> ids_fresh(a, used) && ids_fresh(b, used.union(a.to_set())),
        used.union(a.to_set()).union(b.to_set()) == used.union((a + b).to_set()),
{
    lemma_fresh_concat(a, b, used);
    seq_to_set_distributes_over_add(a, b);
    assert(used.union(a.to_set()).union(b.to_set()) =~= used.union((a + b).to_set()));
}

/// A single id as a set
proof fn lemma_single_id(a: u32)
    ensures
        seq![a].to_set() == set![a],
{
    assert forall|x: u32| seq![a].to_set().contains(x) <==> set![a].contains(x) by {
        if x == a {
            assert(seq![a][0] == a);
        }
    }
    assert(seq![a].to_set() =~= set![a]);
}

/// Fresh ids of a list of expressions are fresh for each prefix of it
proof fn lemma_exprs_prefix(es: Seq<Node<Expression>>, k: int, used: Set<u32>)
    requires
        0 <= k <= es.len(),
        ids_fresh(exprs_block_ids(es), used),
    ensures
        ids_fresh(exprs_block_ids(es.subrange(0, k)), used),
    decreases es.len(),
{
    if k == es.len() {
        assert(es.subrange(0, k) =~= es);
    } else {
        let init = es.subrange(0, es.len() - 1);
        lemma_fresh_concat(exprs_block_ids(init), expr_block_ids(es[es.len() - 1].node), used);
        lemma_exprs_prefix(init, k, used);
        assert(init.subrange(0, k) =~= es.subrange(0, k));
    }
}

/// Fresh ids of a list of statements are fresh for each prefix of it
proof fn lemma_stmts_prefix(ss: Seq<Node<Statement>>, k: int, used: Set<u32>)
    requires
        0 <= k <= ss.len(),
        ids_fresh(stmts_block_ids(ss), used),
    ensures
        ids_fresh(stmts_block_ids(ss.subrange(0, k)), used),
    decreases ss.len(),
{
    if k == ss.len() {
        assert(ss.subrange(0, k) =~= ss);
    } else {
        let init = ss.subrange(0, ss.len() - 1);
        let last = match ss[ss.len() - 1].node {
            Statement::Declaration { value, .. } => expr_block_ids(value.node),
            Statement::Expression { val } => expr_block_ids(val.node),
        };
        lemma_fresh_concat(stmts_block_ids(init), last, used);
        lemma_stmts_prefix(init, k, used);
        assert(init.subrange(0, k) =~= ss.subrange(0, k));
    }
}

/// Fresh ids of a program are fresh for each prefix of it
proof fn lemma_program_prefix(p: Seq<Node<Symbol>>, k: int, used: Set<u32>)
    requires
        0 <= k <= p.len(),
        ids_fresh(program_block_ids(p), used),
    ensures
        ids_fresh(program_block_ids(p.subrange(0, k)), used),
    decreases p.len(),
{
    if k == p.len() {
        assert(p.subrange(0, k) =~= p);
    } else {
        let init = p.subrange(0, p.len() - 1);
        let last = match p[p.len() - 1].node {
            Symbol::Function { body, .. } => node_block_ids(*body),
            _ => Seq::empty(),
        };
        lemma_fresh_concat(program_block_ids(init), last, used);
        lemma_program_prefix(init, k, used);
        assert(init.subrange(0, k) =~= p.subrange(0, k));
    }
}

/// An error naming an identifier: `prefix`, the name, `suffix`
fn name_error(prefix: &str, name: Ident, suffix: &str, pos: u32, interner: &Interner) -> (r: Diagnostic)
    requires
        interner.wf(),
    ensures
        r.pos == Some(pos),
{
    let mut msg = String::new();
    push_str(&mut msg, prefix);
    if name.0 < interner.len() {
        push_chars(&mut msg, interner.resolve(name));
    }
    push_str(&mut msg, suffix);
    Diagnostic::at(msg, pos)
}

/// A plain error at a position
fn error_at(msg: &str, pos: u32) -> (r: Diagnostic)
    ensures
        r.pos == Some(pos),
        r.msg@ == msg@,
{
    Diagnostic::at(string_of(msg), pos)
}

/// Make sure a called expression names a function
fn resolve_call(table: &SymbolTable, func: &Node<Expression>, interner: &Interner) -> (r: Result<(), Diagnostic>)
    requires
        interner.wf(),
    ensures
        r is Ok <==> call_ok(func.node, table.symbol_map()),
{
    // Get function name
    let name = match &func.node {
        Expression::Variable { name } => name,
        _ => return Err(error_at("cannot call non-function", func.span.pos)),
    };
    // Look up the symbol in the symbol table and verify it is a function
    match table.lookup_symbol(&name.node) {
        Some(Symbol::Function { .. }) => Ok(()),
        Some(_) => Err(error_at("cannot call non-function", func.span.pos)),
        None => Err(name_error("no such function: `", name.node, "`", func.span.pos, interner)),
    }
}

/// Make sure a variable resolves in a scope
fn resolve_variable(table: &SymbolTable, scope: NodeId, name: &Node<Ident>, interner: &Interner) -> (r: Result<(), Diagnostic>)
    requires
        table.wf(),
        table.has_scope(scope),
        interner.wf(),
    ensures
        r is Ok <==> var_ok(name.node.0, table.scope_env(scope), table.symbol_map()),
{
    assert(Ident(name.node.0) == name.node);
    match table.resolve_variable(scope, &name.node) {
        Some(_) => Ok(()),
        None => Err(name_error("variable `", name.node, "` not declared", name.span.pos, interner)),
    }
}

/// Resolve all names of an expression in a scope, registering the scopes of
/// its blocks
fn check_expression(table: &mut SymbolTable, scope: NodeId, expr: &Node<Expression>, interner: &Interner) -> (r: Result<(), Diagnostic>)
    requires
        old(table).wf(),
        old(table).has_scope(scope),
        interner.wf(),
    ensures
        final(table).wf(),
        final(table).extends(old(table)),
        r is Ok ==> expr_scoped(expr.node, old(table).scope_env(scope), old(table).symbol_map()),
        r is Ok ==> final(table).scope_map().dom() == old(table).scope_map().dom().union(expr_block_ids(expr.node).to_set()),
        r is Err ==> !expr_scoped(expr.node, old(table).scope_env(scope), old(table).symbol_map())
            || !ids_fresh(expr_block_ids(expr.node), old(table).scope_map().dom()),
    decreases expr.node, 0nat,
{
    let ghost env = table.scope_env(scope);
    let ghost syms = table.symbol_map();
    let ghost used = table.scope_map().dom();
    proof {
        assert(Seq::<u32>::empty().to_set() =~= Set::<u32>::empty());
        assert(used.union(Set::<u32>::empty()) =~= used);
    }
    match &expr.node {
        Expression::Variable { name } => resolve_variable(table, scope, name, interner),
        Expression::Call { func, args } => {
            resolve_call(table, func, interner)?;
            let mut i: usize = 0;
            while i < args.len()
                invariant
                    i <= args@.len(),
                    expr.node is Call && expr.node->Call_args == *args,
                    table.wf(),
                    table.extends(old(table)),
                    old(table).wf(),
                    old(table).has_scope(scope),
                    interner.wf(),
                    env == old(table).scope_env(scope),
                    syms == old(table).symbol_map(),
                    used == old(table).scope_map().dom(),
                    forall|j: int| 0 <= j < i ==> expr_scoped(#[trigger] args@[j].node, env, syms),
                    table.scope_map().dom() == used.union(exprs_block_ids(args@.subrange(0, i as int)).to_set()),
                decreases args@.len() - i,
            {
                let ghost before = table.scope_map().dom();
                let ghost pre = args@.subrange(0, i as int);
                let ghost post = args@.subrange(0, i + 1);
                proof {
                    assert(decreases_to!(expr.node => args@[i as int].node));
                    table.lemma_env_frame(old(table), scope);
                    assert(post.subrange(0, post.len() - 1) =~= pre);
                    assert(post[post.len() - 1] == args@[i as int]);
                    lemma_ids_pair(exprs_block_ids(pre), expr_block_ids(args@[i as int].node), used);
                }
                let r = check_expression(table, scope, &args[i], interner);
                if r.is_err() {
                    proof {
                        if ids_fresh(exprs_block_ids(args@), used) {
                            lemma_exprs_prefix(args@, i + 1, used);
                        }
                    }
                    return r;
                }
                i = i + 1;
            }
            proof { assert(args@.subrange(0, args@.len() as int) =~= args@); }
            Ok(())
        },
        Expression::Assign { lhs, rhs } => {
            proof { lemma_ids_pair(expr_block_ids(lhs.node), expr_block_ids(rhs.node), used); }
            check_expression(table, scope, lhs, interner)?;
            proof { table.lemma_env_frame(old(table), scope); }
            check_expression(table, scope, rhs, interner)
        },
        Expression::AssignOp { lhs, rhs, .. } => {
            proof { lemma_ids_pair(expr_block_ids(lhs.node), expr_block_ids(rhs.node), used); }
            check_expression(table, scope, lhs, interner)?;
            proof { table.lemma_env_frame(old(table), scope); }
            check_expression(table, scope, rhs, interner)
        },
        Expression::Infix { lhs, rhs, .. } => {
            proof { lemma_ids_pair(expr_block_ids(lhs.node), expr_block_ids(rhs.node), used); }
            check_expression(table, scope, lhs, interner)?;
            proof { table.lemma_env_frame(old(table), scope); }
            check_expression(table, scope, rhs, interner)
        },
        Expression::Return { val } => check_expression(table, scope, val, interner),
        Expression::Group(inner) => check_expression(table, scope, inner, interner),
        Expression::Prefix { item, .. } => check_expression(table, scope, item, interner),
        Expression::If { cond, conseq, altern } => {
            let ghost c = expr_block_ids(cond.node);
            let ghost k = node_block_ids(**conseq);
            let ghost a = match altern {
                Some(b) => node_block_ids(**b),
                None => Seq::<u32>::empty(),
            };
            proof {
                lemma_ids_pair(c, k, used);
                lemma_ids_pair(c + k, a, used);
            }
            check_expression(table, scope, cond, interner)?;
            proof { table.lemma_env_frame(old(table), scope); }
            check_block(table, scope, conseq, interner)?;
            proof { table.lemma_env_frame(old(table), scope); }
            match altern {
                Some(b) => check_block(table, scope, b, interner),
                None => Ok(()),
            }
        },
        Expression::While { cond, body } => {
            proof { lemma_ids_pair(expr_block_ids(cond.node), node_block_ids(**body), used); }
            check_expression(table, scope, cond, interner)?;
            proof { table.lemma_env_frame(old(table), scope); }
            check_block(table, scope, body, interner)
        },
        _ => Ok(()),
    }
}

/// Register the scope of a block nested in scope `parent` and resolve all
/// names of the block
fn check_block(table: &mut SymbolTable, parent: NodeId, block: &Node<Block>, interner: &Interner) -> (r: Result<(), Diagnostic>)
    requires
        old(table).wf(),
        old(table).has_scope(parent),
        interner.wf(),
    ensures
        final(table).wf(),
        final(table).extends(old(table)),
        r is Ok ==> block_scoped(block.node, old(table).scope_env(parent), Set::empty(), 0, old(table).symbol_map()),
        r is Ok ==> final(table).scope_map().dom() == old(table).scope_map().dom().union(node_block_ids(*block).to_set()),
        r is Err ==> !block_scoped(block.node, old(table).scope_env(parent), Set::empty(), 0, old(table).symbol_map())
            || !ids_fresh(node_block_ids(*block), old(table).scope_map().dom()),
    decreases block.node, 1nat,
{
    let ghost used = table.scope_map().dom();
    let ghost inner = stmts_block_ids(block.node.stmts@) + expr_block_ids(block.node.expr.node);
    proof {
        lemma_ids_pair(seq![block.id.0], inner, used);
        lemma_single_id(block.id.0);
    }
    // Register the new block and set its parent
    if table.register_scope(block.id).is_err() {
        proof { assert(seq![block.id.0][0] == block.id.0); }
        return Err(error_at("block id is not unique", block.span.pos));
    }
    proof { assert(table.scope_map().dom() =~= used.union(seq![block.id.0].to_set())); }
    let ghost registered = *table;
    table.set_parent_scope(block.id, parent);
    proof {
        assert(table.extends(old(table))) by {
            assert forall|k: u32| #[trigger] old(table).scope_map().contains_key(k) implies {
                &&& table.scope_map().contains_key(k)
                &&& table.scope_map()[k] == old(table).scope_map()[k]
                &&& table.depth_of(k) == old(table).depth_of(k)
            } by {
                assert(registered.scope_map().contains_key(k));
            }
        }
        table.lemma_env_frame(old(table), parent);
        assert forall|n: usize| #[trigger] table.scope_env(block.id).contains(n) == table.scope_env(parent).contains(n) by {
            table.lemma_resolve_fresh_child(block.id, parent, Ident(n));
        }
        assert(table.scope_env(block.id) =~= old(table).scope_env(parent));
        assert(table.vars_of(block.id).dom() =~= Set::<usize>::empty());
    }
    check_stmts(table, block.id, block, interner)
}

/// Resolve all names of a block in its (registered) scope, declaring the
/// block's variables in it
fn check_stmts(table: &mut SymbolTable, scope: NodeId, block: &Node<Block>, interner: &Interner) -> (r: Result<(), Diagnostic>)
    requires
        old(table).wf(),
        old(table).has_scope(scope),
        interner.wf(),
    ensures
        final(table).wf(),
        final(table).symbol_map() == old(table).symbol_map(),
        final(table).has_scope(scope),
        final(table).parent_of(scope) == old(table).parent_of(scope),
        final(table).depth_of(scope.0) == old(table).depth_of(scope.0),
        forall|k: u32| k != scope.0 && #[trigger] old(table).scope_map().contains_key(k) ==> {
            &&& final(table).scope_map().contains_key(k)
            &&& final(table).scope_map()[k] == old(table).scope_map()[k]
            &&& final(table).depth_of(k) == old(table).depth_of(k)
        },
        r is Ok ==> block_scoped(block.node, old(table).scope_env(scope), old(table).vars_of(scope).dom(), 0, old(table).symbol_map()),
        r is Ok ==> final(table).scope_map().dom() == old(table).scope_map().dom().union(
            (stmts_block_ids(block.node.stmts@) + expr_block_ids(block.node.expr.node)).to_set()),
        r is Err ==> !block_scoped(block.node, old(table).scope_env(scope), old(table).vars_of(scope).dom(), 0, old(table).symbol_map())
            || !ids_fresh(stmts_block_ids(block.node.stmts@) + expr_block_ids(block.node.expr.node), old(table).scope_map().dom()),
    decreases block.node, 0nat,
{
    let ghost syms = table.symbol_map();
    let ghost used = table.scope_map().dom();
    proof {
        lemma_ids_pair(stmts_block_ids(block.node.stmts@), expr_block_ids(block.node.expr.node), used);
        assert(Seq::<u32>::empty().to_set() =~= Set::<u32>::empty());
        assert(used.union(Set::<u32>::empty()) =~= used);
        assert(block.node.stmts@.subrange(0, 0) =~= Seq::<Node<Statement>>::empty());
    }
    let ghost whole = block_scoped(block.node, table.scope_env(scope), table.vars_of(scope).dom(), 0, syms);
    let stmts = &block.node.stmts;
    let mut i: usize = 0;
    while i < stmts.len()
        invariant
            i <= stmts@.len(),
            stmts == &block.node.stmts,
            interner.wf(),
            old(table).wf(),
            old(table).has_scope(scope),
            table.wf(),
            table.has_scope(scope),
            table.symbol_map() == syms,
            syms == old(table).symbol_map(),
            table.parent_of(scope) == old(table).parent_of(scope),
            table.depth_of(scope.0) == old(table).depth_of(scope.0),
            forall|k: u32| k != scope.0 && #[trigger] old(table).scope_map().contains_key(k) ==> {
                &&& table.scope_map().contains_key(k)
                &&& table.scope_map()[k] == old(table).scope_map()[k]
                &&& table.depth_of(k) == old(table).depth_of(k)
            },
            whole == block_scoped(block.node, old(table).scope_env(scope), old(table).vars_of(scope).dom(), 0, syms),
            whole == block_scoped(block.node, table.scope_env(scope), table.vars_of(scope).dom(), i as int, syms),
            used == old(table).scope_map().dom(),
            table.scope_map().dom() == used.union(stmts_block_ids(stmts@.subrange(0, i as int)).to_set()),
        decreases stmts@.len() - i,
    {
        let ghost t0 = *table;
        let ghost pre = stmts@.subrange(0, i as int);
        let ghost post = stmts@.subrange(0, i + 1);
        let ghost last = match stmts@[i as int].node {
            Statement::Declaration { value, .. } => expr_block_ids(value.node),
            Statement::Expression { val } => expr_block_ids(val.node),
        };
        proof {
            assert(decreases_to!(block.node => stmts@[i as int].node));
            assert(post.subrange(0, post.len() - 1) =~= pre);
            assert(post[post.len() - 1] == stmts@[i as int]);
            assert(stmts_block_ids(post) == stmts_block_ids(pre) + last);
            lemma_ids_pair(stmts_block_ids(pre), last, used);
            if ids_fresh(stmts_block_ids(stmts@) + expr_block_ids(block.node.expr.node), used) {
                lemma_ids_pair(stmts_block_ids(stmts@), expr_block_ids(block.node.expr.node), used);
                lemma_stmts_prefix(stmts@, i + 1, used);
            }
        }
        match &stmts[i].node {
            Statement::Declaration { binding, value } => {
                proof { assert(decreases_to!(block.node => value.node)); }
                check_expression(table, scope, value, interner)?;
                let ghost t1 = *table;
                proof {
                    table.lemma_env_frame(&t0, scope);
                }
                if table.register_variable(scope, &binding.node).is_err() {
                    return Err(name_error("cannot redeclare `", binding.node.name.node, "`", binding.span.pos, interner));
                }
                proof {
                    let n = binding.node.name.node.0;
                    assert forall|m: usize| #[trigger] table.scope_env(scope).contains(m) == t1.scope_env(scope).insert(n).contains(m) by {
                        table.lemma_resolve_after_register(&t1, scope, n, Ident(m));
                    }
                    assert(table.scope_env(scope) =~= t1.scope_env(scope).insert(n));
                    assert(table.vars_of(scope).dom() =~= t1.vars_of(scope).dom().insert(n));
                }
            },
            Statement::Expression { val } => {
                proof { assert(decreases_to!(block.node => val.node)); }
                check_expression(table, scope, val, interner)?;
                proof {
                    table.lemma_env_frame(&t0, scope);
                }
            },
        }
        i = i + 1;
    }
    proof { assert(stmts@.subrange(0, stmts@.len() as int) =~= stmts@); }
    check_expression(table, scope, &block.node.expr, interner)
}

/// Register the scope of a function's body with the function's arguments in
/// it, and resolve all names of the body
fn check_function(table: &mut SymbolTable, bindings: &Vec<Node<Binding>>, body: &Node<Block>, interner: &Interner) -> (r: Result<(), Diagnostic>)
    requires
        old(table).wf(),
        interner.wf(),
    ensures
        final(table).wf(),
        final(table).extends(old(table)),
        r is Ok ==> bindings_distinct(bindings@)
            && block_scoped(body.node, binding_names(bindings@), binding_names(bindings@), 0, old(table).symbol_map()),
        r is Ok ==> final(table).scope_map().dom() == old(table).scope_map().dom().union(node_block_ids(*body).to_set()),
        r is Err ==> !bindings_distinct(bindings@)
            || !block_scoped(body.node, binding_names(bindings@), binding_names(bindings@), 0, old(table).symbol_map())
            || !ids_fresh(node_block_ids(*body), old(table).scope_map().dom()),
{
    let scope = body.id;
    let ghost used = table.scope_map().dom();
    let ghost inner = stmts_block_ids(body.node.stmts@) + expr_block_ids(body.node.expr.node);
    proof {
        lemma_ids_pair(seq![scope.0], inner, used);
        lemma_single_id(scope.0);
    }
    if table.register_scope(scope).is_err() {
        proof { assert(seq![scope.0][0] == scope.0); }
        return Err(error_at("block id is not unique", body.span.pos));
    }
    proof { assert(table.scope_map().dom() =~= used.union(seq![scope.0].to_set())); }
    // Register the arguments in the scope of the body
    let mut i: usize = 0;
    while i < bindings.len()
        invariant
            i <= bindings@.len(),
            interner.wf(),
            old(table).wf(),
            !old(table).has_scope(scope),
            table.wf(),
            table.has_scope(scope),
            table.parent_of(scope) is None,
            table.symbol_map() == old(table).symbol_map(),
            table.extends(old(table)),
            table.scope_map().dom() == used.union(seq![scope.0].to_set()),
            used == old(table).scope_map().dom(),
            bindings_distinct(bindings@.subrange(0, i as int)),
            table.vars_of(scope).dom() == binding_names(bindings@.subrange(0, i as int)),
        decreases bindings@.len() - i,
    {
        let ghost before = *table;
        let ghost pre = bindings@.subrange(0, i as int);
        let ghost post = bindings@.subrange(0, i + 1);
        if table.register_variable(scope, &bindings[i].node).is_err() {
            proof {
                let n = bindings@[i as int].node.name.node.0;
                assert(binding_names(pre).contains(n));
                let j = choose|j: int| 0 <= j < pre.len() && pre[j].node.name.node.0 == n;
                assert(post[j] == pre[j] && post[i as int] == bindings@[i as int]);
                assert(!bindings_distinct(post));
                assert(bindings@.subrange(0, i + 1) =~= post);
                assert(!bindings_distinct(bindings@)) by {
                    assert(bindings@[j] == pre[j]);
                }
            }
            return Err(name_error("multiple parameters with name: `", bindings[i].node.name.node, "`", bindings[i].node.name.span.pos, interner));
        }
        proof {
            let n = bindings@[i as int].node.name.node.0;
            assert forall|a: int, b: int| 0 <= a < b < post.len() implies
                (#[trigger] post[a]).node.name.node.0 != (#[trigger] post[b]).node.name.node.0 by {
                if b < i {
                    assert(post[a] == pre[a] && post[b] == pre[b]);
                } else {
                    assert(post[a] == pre[a]);
                    assert(binding_names(pre).contains(pre[a].node.name.node.0));
                }
            }
            assert forall|m: usize| #[trigger] binding_names(post).contains(m) == before.vars_of(scope).dom().insert(n).contains(m) by {
                if binding_names(post).contains(m) {
                    let j = choose|j: int| 0 <= j < post.len() && post[j].node.name.node.0 == m;
                    if j < i {
                        assert(post[j] == pre[j]);
                        assert(binding_names(pre).contains(m));
                    }
                }
                if binding_names(pre).contains(m) {
                    let j = choose|j: int| 0 <= j < pre.len() && pre[j].node.name.node.0 == m;
                    assert(post[j] == pre[j]);
                }
                if m == n {
                    assert(post[i as int].node.name.node.0 == m);
                }
            }
            assert(binding_names(post) =~= table.vars_of(scope).dom());
        }
        i = i + 1;
    }
    proof {
        assert(bindings@.subrange(0, bindings@.len() as int) =~= bindings@);
        // With no parent, exactly the arguments are in scope
        assert forall|m: usize| #[trigger] table.scope_env(scope).contains(m) == binding_names(bindings@).contains(m) by {
        }
        assert(table.scope_env(scope) =~= binding_names(bindings@));
    }
    let ghost t = *table;
    let r = check_stmts(table, scope, body, interner);
    proof {
        assert forall|k: u32| #[trigger] old(table).scope_map().contains_key(k) implies {
            &&& table.scope_map().contains_key(k)
            &&& table.scope_map()[k] == old(table).scope_map()[k]
            &&& table.depth_of(k) == old(table).depth_of(k)
        } by {
            assert(t.scope_map().contains_key(k));
        }
    }
    r
}

/// Every function of the program has arguments with distinct names and all
/// names used in its body resolve
pub open spec fn program_scoped(p: Seq<Node<Symbol>>, syms: Map<usize, Symbol>) -> bool {
    forall|i: int| 0 <= i < p.len() ==> symbol_scoped(#[trigger] p[i].node, syms)
}

/// Build the scope table of the program and make sure all names resolve
///
/// Each block's node id keys its scope: an id that is already a scope is
/// reported as an error.
pub fn run(program: &Program, table: &mut SymbolTable, interner: &Interner) -> (r: Result<(), Diagnostic>)
    requires
        old(table).wf(),
        interner.wf(),
    ensures
        final(table).wf(),
        final(table).extends(old(table)),
        r is Ok ==> program_scoped(program@, old(table).symbol_map()),
        r is Ok ==> final(table).scope_map().dom() == old(table).scope_map().dom().union(program_block_ids(program@).to_set()),
        r is Err ==> !program_scoped(program@, old(table).symbol_map())
            || !ids_fresh(program_block_ids(program@), old(table).scope_map().dom()),
{
    let ghost used = table.scope_map().dom();
    proof {
        assert(Seq::<u32>::empty().to_set() =~= Set::<u32>::empty());
        assert(used.union(Set::<u32>::empty()) =~= used);
        assert(program@.subrange(0, 0) =~= Seq::<Node<Symbol>>::empty());
    }
    let mut i: usize = 0;
    while i < program.len()
        invariant
            i <= program@.len(),
            interner.wf(),
            old(table).wf(),
            table.wf(),
            table.extends(old(table)),
            used == old(table).scope_map().dom(),
            table.scope_map().dom() == used.union(program_block_ids(program@.subrange(0, i as int)).to_set()),
            forall|j: int| 0 <= j < i ==> symbol_scoped(#[trigger] program@[j].node, old(table).symbol_map()),
        decreases program@.len() - i,
    {
        let ghost pre = program@.subrange(0, i as int);
        let ghost post = program@.subrange(0, i + 1);
        let ghost last = match program@[i as int].node {
            Symbol::Function { body, .. } => node_block_ids(*body),
            _ => Seq::<u32>::empty(),
        };
        proof {
            assert(post.subrange(0, post.len() - 1) =~= pre);
            assert(post[post.len() - 1] == program@[i as int]);
            assert(program_block_ids(post) == program_block_ids(pre) + last);
            lemma_ids_pair(program_block_ids(pre), last, used);
            if ids_fresh(program_block_ids(program@), used) {
                lemma_program_prefix(program@, i + 1, used);
            }
            assert(Seq::<u32>::empty().to_set() =~= Set::<u32>::empty());
            assert(table.scope_map().dom().union(Set::<u32>::empty()) =~= table.scope_map().dom());
        }
        if let Symbol::Function { bindings, body, .. } = &program[i].node {
            check_function(table, bindings, body, interner)?;
        }
        i = i + 1;
    }
    proof { assert(program@.subrange(0, program@.len() as int) =~= program@); }
    Ok(())
}

} // verus!
