//! An AST walker
//!
//! Allows walking different parts of the AST without rewriting the logic
//! over and over again, in the style of the Visitor pattern. A `walk_*`
//! function shows a visitor the direct children of a node, in the order in
//! which they stand in the source; a visitor that wants to go deeper calls
//! the `walk_*` function of the node it is shown. Walking this way reaches
//! all nodes, in order.
//!
//! What a visitor has been shown is its `log`: each `visit_*` call appends
//! the node it is given, so the log of a walk is the node's children, in
//! order.

use vstd::prelude::*;
use crate::front::ast::{Binding, Block, Expression, Node, NodeId, Statement, Symbol, Type};
use crate::driver::interner::Ident;

verus! {

/// A node of the AST as a visitor is shown it: the node's id, or the type
/// itself (types are no nodes)
#[derive(Clone, Copy, Debug, PartialEq, Eq, Structural)]
pub enum NodeRef {
    Symbol(NodeId),
    Binding(NodeId),
    Ident(NodeId),
    Type(Type),
    Block(NodeId),
    Statement(NodeId),
    Expression(NodeId),
}

/// The references of a list of symbols
pub open spec fn symbol_refs(s: Seq<Node<Symbol>>) -> Seq<NodeRef> {
    s.map_values(|n: Node<Symbol>| NodeRef::Symbol(n.id))
}

/// The references of a list of bindings
pub open spec fn binding_refs(s: Seq<Node<Binding>>) -> Seq<NodeRef> {
    s.map_values(|n: Node<Binding>| NodeRef::Binding(n.id))
}

/// The references of a list of statements
pub open spec fn statement_refs(s: Seq<Node<Statement>>) -> Seq<NodeRef> {
    s.map_values(|n: Node<Statement>| NodeRef::Statement(n.id))
}

/// The references of a list of expressions
pub open spec fn expression_refs(s: Seq<Node<Expression>>) -> Seq<NodeRef> {
    s.map_values(|n: Node<Expression>| NodeRef::Expression(n.id))
}

/// The direct children of a symbol, in source order
pub open spec fn symbol_children(s: Symbol) -> Seq<NodeRef> {
    match s {
        Symbol::Static { binding, value } => seq![NodeRef::Binding(binding.id), NodeRef::Expression(value.id)],
        Symbol::Constant { binding, value } => seq![NodeRef::Binding(binding.id), NodeRef::Expression(value.id)],
        Symbol::Function { name, bindings, ret_ty, body } => seq![NodeRef::Ident(name.id)]
            + binding_refs(bindings@) + seq![NodeRef::Type(ret_ty), NodeRef::Block(body.id)],
    }
}

/// The direct children of a binding: its type, then its name
pub open spec fn binding_children(b: Binding) -> Seq<NodeRef> {
    seq![NodeRef::Type(b.ty), NodeRef::Ident(b.name.id)]
}

/// The direct children of a block: its statements, then its value
pub open spec fn block_children(b: Block) -> Seq<NodeRef> {
    statement_refs(b.stmts@).push(NodeRef::Expression(b.expr.id))
}

/// The direct children of a statement: a declaration's binding and value,
/// or the expression
pub open spec fn statement_children(s: Statement) -> Seq<NodeRef> {
    match s {
        Statement::Declaration { binding, value } => seq![NodeRef::Binding(binding.id), NodeRef::Expression(value.id)],
        Statement::Expression { val } => seq![NodeRef::Expression(val.id)],
    }
}

/// The direct children of an expression, in source order
pub open spec fn expression_children(e: Expression) -> Seq<NodeRef> {
    match e {
        Expression::Literal { .. } => Seq::empty(),
        Expression::Variable { name } => seq![NodeRef::Ident(name.id)],
        Expression::Assign { lhs, rhs } => seq![NodeRef::Expression(lhs.id), NodeRef::Expression(rhs.id)],
        Expression::AssignOp { lhs, rhs, .. } => seq![NodeRef::Expression(lhs.id), NodeRef::Expression(rhs.id)],
        Expression::Return { val } => seq![NodeRef::Expression(val.id)],
        Expression::Call { func, args } => seq![NodeRef::Expression(func.id)] + expression_refs(args@),
        Expression::Group(inner) => seq![NodeRef::Expression(inner.id)],
        Expression::Infix { lhs, rhs, .. } => seq![NodeRef::Expression(lhs.id), NodeRef::Expression(rhs.id)],
        Expression::Prefix { item, .. } => seq![NodeRef::Expression(item.id)],
        Expression::If { cond, conseq, altern } => seq![NodeRef::Expression(cond.id), NodeRef::Block(conseq.id)]
            + match altern {
            Some(b) => seq![NodeRef::Block(b.id)],
            None => Seq::empty(),
        },
        Expression::While { cond, body } => seq![NodeRef::Expression(cond.id), NodeRef::Block(body.id)],
        Expression::Break => Seq::empty(),
        Expression::Unit => Seq::empty(),
    }
}

/// A visitor of the AST: each `visit_*` call shows it one node, which it
/// records in its log
pub trait Visitor {
    /// The nodes shown so far, in order
    spec fn log(&self) -> Seq<NodeRef>;

    fn visit_symbol(&mut self, s: &Node<Symbol>)
        ensures
            final(self).log() == old(self).log().push(NodeRef::Symbol(s.id)),
    ;

    fn visit_binding(&mut self, b: &Node<Binding>)
        ensures
            final(self).log() == old(self).log().push(NodeRef::Binding(b.id)),
    ;

    fn visit_ident(&mut self, i: &Node<Ident>)
        ensures
            final(self).log() == old(self).log().push(NodeRef::Ident(i.id)),
    ;

    fn visit_type(&mut self, t: &Type)
        ensures
            final(self).log() == old(self).log().push(NodeRef::Type(*t)),
    ;

    fn visit_block(&mut self, b: &Node<Block>)
        ensures
            final(self).log() == old(self).log().push(NodeRef::Block(b.id)),
    ;

    fn visit_statement(&mut self, s: &Node<Statement>)
        ensures
            final(self).log() == old(self).log().push(NodeRef::Statement(s.id)),
    ;

    fn visit_expression(&mut self, e: &Node<Expression>)
        ensures
            final(self).log() == old(self).log().push(NodeRef::Expression(e.id)),
    ;
}

/// Show a visitor the symbols of a program, in order
pub fn walk_program<V: Visitor>(visitor: &mut V, program: &Vec<Node<Symbol>>)
    ensures
        final(visitor).log() == old(visitor).log() + symbol_refs(program@),
{
    let mut i: usize = 0;
    while i < program.len()
        invariant
            i <= program@.len(),
            visitor.log() == old(visitor).log() + symbol_refs(program@.subrange(0, i as int)),
        decreases program@.len() - i,
    {
        visitor.visit_symbol(&program[i]);
        proof {
            assert(symbol_refs(program@.subrange(0, i + 1)) =~= symbol_refs(program@.subrange(0, i as int)).push(
                NodeRef::Symbol(program@[i as int].id)));
        }
        i = i + 1;
    }
    assert(program@.subrange(0, program@.len() as int) =~= program@);
}

/// Show a visitor the bindings of a function, in order
fn walk_bindings<V: Visitor>(visitor: &mut V, bindings: &Vec<Node<Binding>>)
    ensures
        final(visitor).log() == old(visitor).log() + binding_refs(bindings@),
{
    let mut i: usize = 0;
    while i < bindings.len()
        invariant
            i <= bindings@.len(),
            visitor.log() == old(visitor).log() + binding_refs(bindings@.subrange(0, i as int)),
        decreases bindings@.len() - i,
    {
        visitor.visit_binding(&bindings[i]);
        proof {
            assert(binding_refs(bindings@.subrange(0, i + 1)) =~= binding_refs(bindings@.subrange(0, i as int)).push(
                NodeRef::Binding(bindings@[i as int].id)));
        }
        i = i + 1;
    }
    assert(bindings@.subrange(0, bindings@.len() as int) =~= bindings@);
}

/// Show a visitor the expressions of a list (the arguments of a call), in order
fn walk_expressions<V: Visitor>(visitor: &mut V, es: &Vec<Node<Expression>>)
    ensures
        final(visitor).log() == old(visitor).log() + expression_refs(es@),
{
    let mut i: usize = 0;
    while i < es.len()
        invariant
            i <= es@.len(),
            visitor.log() == old(visitor).log() + expression_refs(es@.subrange(0, i as int)),
        decreases es@.len() - i,
    {
        visitor.visit_expression(&es[i]);
        proof {
            assert(expression_refs(es@.subrange(0, i + 1)) =~= expression_refs(es@.subrange(0, i as int)).push(
                NodeRef::Expression(es@[i as int].id)));
        }
        i = i + 1;
    }
    assert(es@.subrange(0, es@.len() as int) =~= es@);
}

/// Show a visitor the children of a symbol
pub fn walk_symbol<V: Visitor>(visitor: &mut V, symbol: &Node<Symbol>)
    ensures
        final(visitor).log() == old(visitor).log() + symbol_children(symbol.node),
{
    match &symbol.node {
        Symbol::Static { binding, value } => {
            visitor.visit_binding(binding);
            visitor.visit_expression(value);
        },
        Symbol::Constant { binding, value } => {
            visitor.visit_binding(binding);
            visitor.visit_expression(value);
        },
        Symbol::Function { name, bindings, ret_ty, body } => {
            visitor.visit_ident(name);
            walk_bindings(visitor, bindings);
            visitor.visit_type(ret_ty);
            visitor.visit_block(body);
        },
    }
}

/// Show a visitor the type and the name of a binding
pub fn walk_binding<V: Visitor>(visitor: &mut V, binding: &Node<Binding>)
    ensures
        final(visitor).log() == old(visitor).log() + binding_children(binding.node),
{
    visitor.visit_type(&binding.node.ty);
    visitor.visit_ident(&binding.node.name);
}

/// Show a visitor the statements of a block, then its value
pub fn walk_block<V: Visitor>(visitor: &mut V, block: &Node<Block>)
    ensures
        final(visitor).log() == old(visitor).log() + block_children(block.node),
{
    let stmts = &block.node.stmts;
    let mut i: usize = 0;
    while i < stmts.len()
        invariant
            i <= stmts@.len(),
            stmts == &block.node.stmts,
            visitor.log() == old(visitor).log() + statement_refs(stmts@.subrange(0, i as int)),
        decreases stmts@.len() - i,
    {
        visitor.visit_statement(&stmts[i]);
        proof {
            assert(statement_refs(stmts@.subrange(0, i + 1)) =~= statement_refs(stmts@.subrange(0, i as int)).push(
                NodeRef::Statement(stmts@[i as int].id)));
        }
        i = i + 1;
    }
    assert(stmts@.subrange(0, stmts@.len() as int) =~= stmts@);
    visitor.visit_expression(&block.node.expr);
}

/// Show a visitor the children of a statement
pub fn walk_statement<V: Visitor>(visitor: &mut V, stmt: &Node<Statement>)
    ensures
        final(visitor).log() == old(visitor).log() + statement_children(stmt.node),
{
    match &stmt.node {
        Statement::Declaration { binding, value } => {
            visitor.visit_binding(binding);
            visitor.visit_expression(value);
        },
        Statement::Expression { val } => visitor.visit_expression(val),
    }
}

/// Show a visitor the children of an expression, in source order
pub fn walk_expression<V: Visitor>(visitor: &mut V, expr: &Node<Expression>)
    ensures
        final(visitor).log() == old(visitor).log() + expression_children(expr.node),
{
    match &expr.node {
        Expression::Literal { .. } => {},
        Expression::Variable { name } => {
            visitor.visit_ident(name);
        },
        Expression::Assign { lhs, rhs } => {
            visitor.visit_expression(lhs);
            visitor.visit_expression(rhs);
        },
        Expression::AssignOp { lhs, rhs, .. } => {
            visitor.visit_expression(lhs);
            visitor.visit_expression(rhs);
        },
        Expression::Return { val } => {
            visitor.visit_expression(val);
        },
        Expression::Call { func, args } => {
            visitor.visit_expression(func);
            walk_expressions(visitor, args);
        },
        Expression::Group(inner) => {
            visitor.visit_expression(inner);
        },
        Expression::Infix { lhs, rhs, .. } => {
            visitor.visit_expression(lhs);
            visitor.visit_expression(rhs);
        },
        Expression::Prefix { item, .. } => {
            visitor.visit_expression(item);
        },
        Expression::If { cond, conseq, altern } => {
            visitor.visit_expression(cond);
            visitor.visit_block(conseq);
            match altern {
                Some(else_block) => visitor.visit_block(else_block),
                None => {},
            }
        },
        Expression::While { cond, body } => {
            visitor.visit_expression(cond);
            visitor.visit_block(body);
        },
        Expression::Break => {},
        Expression::Unit => {},
    }
}

/// A visitor that records the nodes it is shown
pub struct NodeLog {
    pub nodes: Vec<NodeRef>,
}

impl NodeLog {
    pub fn new() -> (r: NodeLog)
        ensures
            r.nodes@ == Seq::<NodeRef>::empty(),
    {
        NodeLog { nodes: Vec::new() }
    }
}

impl Visitor for NodeLog {
    open spec fn log(&self) -> Seq<NodeRef> {
        self.nodes@
    }

    fn visit_symbol(&mut self, s: &Node<Symbol>) {
        self.nodes.push(NodeRef::Symbol(s.id));
    }

    fn visit_binding(&mut self, b: &Node<Binding>) {
        self.nodes.push(NodeRef::Binding(b.id));
    }

    fn visit_ident(&mut self, i: &Node<Ident>) {
        self.nodes.push(NodeRef::Ident(i.id));
    }

    fn visit_type(&mut self, t: &Type) {
        self.nodes.push(NodeRef::Type(*t));
    }

    fn visit_block(&mut self, b: &Node<Block>) {
        self.nodes.push(NodeRef::Block(b.id));
    }

    fn visit_statement(&mut self, s: &Node<Statement>) {
        self.nodes.push(NodeRef::Statement(s.id));
    }

    fn visit_expression(&mut self, e: &Node<Expression>) {
        self.nodes.push(NodeRef::Expression(e.id));
    }
}

} // verus!
