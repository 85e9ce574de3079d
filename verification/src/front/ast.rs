//! `RusTiny`'s Abstract Syntax Tree
//!
//! This is the representation of a `RusTiny` program. It's generated by the
//! parser and passed to the middle end after the analysis passes.

use vstd::prelude::*;
use crate::driver::interner::Ident;
use crate::util::text::chars_eq;

verus! {

// --- Types and Values ---------------------------------------------------------

#[derive(Clone, Copy, Debug, PartialEq, Eq, Structural)]
pub enum Type {
    Bool,
    Int,
    Char,
    Unit,
    /// Special type used for expressions with type errors
    Error,
}

/// The source name of a built-in type
pub open spec fn builtin_type_name(t: Type) -> Option<Seq<char>> {
    match t {
        Type::Bool => Some(seq!['b', 'o', 'o', 'l']),
        Type::Int => Some(seq!['i', 'n', 't']),
        Type::Char => Some(seq!['c', 'h', 'a', 'r']),
        _ => None,
    }
}

impl Type {
    /// Parse the name of a built-in type (`bool`, `int` or `char`)
    pub fn from_name(s: &[char]) -> (r: Result<Type, ()>)
        ensures
            r matches Ok(t) ==> builtin_type_name(t) == Some(s@),
            r is Err ==> (forall|t: Type| builtin_type_name(t) != Some(s@)),
    {
        let b = ['b', 'o', 'o', 'l'];
        let i = ['i', 'n', 't'];
        let c = ['c', 'h', 'a', 'r'];
        assert(b@ =~= seq!['b', 'o', 'o', 'l']);
        assert(i@ =~= seq!['i', 'n', 't']);
        assert(c@ =~= seq!['c', 'h', 'a', 'r']);
        if chars_eq(s, &b) {
            Ok(Type::Bool)
        } else if chars_eq(s, &i) {
            Ok(Type::Int)
        } else if chars_eq(s, &c) {
            Ok(Type::Char)
        } else {
            assert forall|t: Type| builtin_type_name(t) != Some(s@) by {
                match t {
                    Type::Bool => {},
                    Type::Int => {},
                    Type::Char => {},
                    _ => {},
                }
            }
            Err(())
        }
    }
}

impl Type {
    /// The type's name as shown to the user
    pub fn name(&self) -> (r: &'static str)
        ensures
            r@ == crate::util::pretty::type_text(*self),
    {
        match self {
            Type::Bool => "bool",
            Type::Int => "int",
            Type::Char => "char",
            Type::Unit => "()",
            Type::Error => "[type error]",
        }
    }
}

#[derive(Clone, Copy, Debug, PartialEq, Eq, Structural)]
pub enum Value {
    Bool(bool),
    Int(u32),
    Char(char),
}

/// The type of a literal value
pub open spec fn value_type(v: Value) -> Type {
    match v {
        Value::Bool(..) => Type::Bool,
        Value::Int(..) => Type::Int,
        Value::Char(..) => Type::Char,
    }
}

/// The numeric representation of a literal value
pub open spec fn value_bits(v: Value) -> u32 {
    match v {
        Value::Bool(b) => if b { 1 } else { 0 },
        Value::Int(i) => i,
        Value::Char(c) => c as u32,
    }
}

impl Value {
    pub fn get_ty(&self) -> (r: Type)
        ensures
            r == value_type(*self),
    {
        match *self {
            Value::Bool(..) => Type::Bool,
            Value::Int(..) => Type::Int,
            Value::Char(..) => Type::Char,
        }
    }

    pub fn as_u32(&self) -> (r: u32)
        ensures
            r == value_bits(*self),
    {
        match *self {
            Value::Bool(b) => if b { 1 } else { 0 },
            Value::Int(i) => i,
            Value::Char(c) => c as u32,
        }
    }
}

// --- Operators ----------------------------------------------------------------

#[derive(Clone, Copy, Debug, PartialEq, Eq, Structural, Hash)]
pub enum UnOp {
    /// `!`
    Not,
    /// `-`
    Neg,
}

#[derive(Clone, Copy, Debug, PartialEq, Eq, Structural, Hash)]
pub enum BinOp {
    /// `+`
    Add,
    /// `-`
    Sub,
    /// `*`
    Mul,
    /// `/`
    Div,
    /// `%`
    Mod,
    /// `**`
    Pow,
    /// `&&`
    And,
    /// `||`
    Or,
    /// `^`
    BitXor,
    /// `&`
    BitAnd,
    /// `|`
    BitOr,
    /// `<<`
    Shl,
    /// `>>`
    Shr,
    /// `==`
    EqEq,
    /// `<`
    Lt,
    /// `<=`
    Le,
    /// `!=`
    Ne,
    /// `>=`
    Ge,
    /// `>`
    Gt,
}

#[derive(Clone, Copy, Debug, PartialEq, Eq, Structural)]
pub enum BinOpType {
    Arithmetic,
    Logic,
    Bitwise,
    Comparison,
}

/// The class of a binary operator
pub open spec fn binop_type(op: BinOp) -> BinOpType {
    match op {
        BinOp::Add | BinOp::Sub | BinOp::Mul | BinOp::Div | BinOp::Mod | BinOp::Pow
        | BinOp::Shl | BinOp::Shr => BinOpType::Arithmetic,
        BinOp::And | BinOp::Or => BinOpType::Logic,
        BinOp::BitXor | BinOp::BitAnd | BinOp::BitOr => BinOpType::Bitwise,
        BinOp::EqEq | BinOp::Lt | BinOp::Le | BinOp::Ne | BinOp::Ge | BinOp::Gt => BinOpType::Comparison,
    }
}

impl BinOp {
    pub fn get_type(&self) -> (r: BinOpType)
        ensures
            r == binop_type(*self),
    {
        match *self {
            BinOp::Add | BinOp::Sub | BinOp::Mul | BinOp::Div | BinOp::Mod | BinOp::Pow
            | BinOp::Shl | BinOp::Shr => BinOpType::Arithmetic,
            BinOp::And | BinOp::Or => BinOpType::Logic,
            BinOp::BitXor | BinOp::BitAnd | BinOp::BitOr => BinOpType::Bitwise,
            BinOp::EqEq | BinOp::Lt | BinOp::Le | BinOp::Ne | BinOp::Ge | BinOp::Gt => {
                BinOpType::Comparison
            },
        }
    }
}

// --- The AST itself -----------------------------------------------------------

#[derive(Clone, Copy, Debug, PartialEq, Eq, Structural, Hash)]
pub struct NodeId(pub u32);

impl NodeId {
    pub fn as_u32(&self) -> (r: u32)
        ensures
            r == self.0,
    {
        self.0
    }
}

/// A region of the source file: `len` bytes starting at byte `pos` (0-indexed)
#[derive(Clone, Copy, Debug, PartialEq, Eq, Structural)]
pub struct Span {
    pub pos: u32,
    pub len: u32,
}

/// The span from the start of `lo` to the end of `hi`, in 32-bit arithmetic
pub open spec fn span_join(lo: Span, hi: Span) -> Span {
    Span {
        pos: lo.pos,
        len: ((hi.pos + hi.len - lo.pos) % 0x1_0000_0000) as u32,
    }
}

impl Span {
    /// Join two spans: the result starts where `self` starts and ends where
    /// `rhs` ends
    pub fn join(self, rhs: Span) -> (r: Span)
        ensures
            r == span_join(self, rhs),
    {
        let end = rhs.pos.wrapping_add(rhs.len);
        let len = end.wrapping_sub(self.pos);
        proof {
            let e: int = (rhs.pos + rhs.len) % 0x1_0000_0000;
            assert(end == e);
            assert(len as int == (e - self.pos) % 0x1_0000_0000);
            assert(((rhs.pos + rhs.len - self.pos) % 0x1_0000_0000) == ((e - self.pos) % 0x1_0000_0000)) by (nonlinear_arith)
                requires e == (rhs.pos + rhs.len) % 0x1_0000_0000, 0 <= rhs.pos + rhs.len;
        }
        Span { pos: self.pos, len }
    }
}

/// The span of nodes that do not stem from the source
pub open spec fn spec_empty_span() -> Span {
    Span { pos: 0, len: 0 }
}

#[verifier::when_used_as_spec(spec_empty_span)]
pub fn empty_span() -> (r: Span)
    ensures
        r == spec_empty_span(),
{
    Span { pos: 0, len: 0 }
}

/// A value along with the region of the source it was read from
#[derive(Debug)]
pub struct Spanned<T> {
    pub value: T,
    pub span: Span,
}

impl<T> Spanned<T> {
    pub fn new(t: T, lo: u32, hi: u32) -> (r: Spanned<T>)
        requires
            lo <= hi,
        ensures
            r.value == t,
            r.span == (Span { pos: lo, len: (hi - lo) as u32 }),
    {
        Spanned { value: t, span: Span { pos: lo, len: hi - lo } }
    }
}

/// A node in the AST: the content along with its source location and a
/// unique node id
#[derive(Clone, Copy, Debug)]
pub struct Node<T> {
    pub node: T,
    pub span: Span,
    pub id: NodeId,
}

impl<T> Node<T> {
    pub fn new(t: T, s: Span, id: NodeId) -> (r: Node<T>)
        ensures
            r.node == t,
            r.span == s,
            r.id == id,
    {
        Node { node: t, span: s, id }
    }

    /// A node that does not stem from the source (id `!0`, empty span)
    pub fn dummy(t: T) -> (r: Node<T>)
        ensures
            r.node == t,
            r.span == empty_span(),
            r.id == NodeId(0xffff_ffff),
    {
        Node { node: t, span: empty_span(), id: NodeId(0xffff_ffff) }
    }

    pub fn unwrap(self) -> (r: T)
        ensures
            r == self.node,
    {
        self.node
    }

    pub fn get(&self) -> (r: &T)
        ensures
            *r == self.node,
    {
        &self.node
    }
}

/// A program is a list of symbols
pub type Program = Vec<Node<Symbol>>;

/// A top level symbol
#[derive(Debug)]
pub enum Symbol {
    /// A function
    Function {
        name: Node<Ident>,
        bindings: Vec<Node<Binding>>,
        ret_ty: Type,
        body: Box<Node<Block>>,
    },
    /// A static value (can be modified at runtime)
    Static {
        binding: Box<Node<Binding>>,
        value: Box<Node<Expression>>,
    },
    /// A constant value. Usages will be replaced with the value at compilation time
    Constant {
        binding: Box<Node<Binding>>,
        value: Box<Node<Expression>>,
    },
}

/// The name a symbol defines
pub open spec fn symbol_ident(s: Symbol) -> Ident {
    match s {
        Symbol::Function { name, .. } => name.node,
        Symbol::Static { binding, .. } => binding.node.name.node,
        Symbol::Constant { binding, .. } => binding.node.name.node,
    }
}

/// `copy` is `orig` with an empty function body: the same name, bindings,
/// return type, or the same binding and the same value
pub open spec fn is_stripped_copy(orig: Symbol, copy: Symbol) -> bool {
    match orig {
        Symbol::Function { name, bindings, ret_ty, .. } => copy matches Symbol::Function { name: n, bindings: b, ret_ty: t, body }
            && n == name && b@ == bindings@ && t == ret_ty && body.node.stmts@.len() == 0
            && body.node.expr.node == Expression::Unit
            && body.span == empty_span() && body.id == NodeId(0xffff_ffff)
            && body.node.expr.span == empty_span() && body.node.expr.id == NodeId(0xffff_ffff),
        Symbol::Static { binding, value } => copy matches Symbol::Static { binding: b, value: v }
            && b == binding && same_node(*value, *v),
        Symbol::Constant { binding, value } => copy matches Symbol::Constant { binding: b, value: v }
            && b == binding && same_node(*value, *v),
    }
}

impl Symbol {
    pub fn get_ident(&self) -> (r: Ident)
        ensures
            r == symbol_ident(*self),
    {
        match self {
            Symbol::Function { name, .. } => name.node,
            Symbol::Static { binding, .. } => binding.node.name.node,
            Symbol::Constant { binding, .. } => binding.node.name.node,
        }
    }

    /// The value of a static or a constant
    pub fn get_value(&self) -> (r: &Expression)
        requires
            !(self is Function),
        ensures
            self matches Symbol::Static { value, .. } ==> *r == value.node,
            self matches Symbol::Constant { value, .. } ==> *r == value.node,
    {
        match self {
            Symbol::Static { value, .. } => &value.node,
            Symbol::Constant { value, .. } => &value.node,
            Symbol::Function { .. } => vstd::pervasive::unreached(),
        }
    }

    /// Clone the current symbol but strip the body if it's a function
    pub fn clone_stripped(&self) -> (r: Symbol)
        ensures
            is_stripped_copy(*self, r),
    {
        match self {
            Symbol::Function { name, bindings, ret_ty, .. } => {
                let mut b: Vec<Node<Binding>> = Vec::new();
                let mut i: usize = 0;
                while i < bindings.len()
                    invariant
                        i <= bindings@.len(),
                        b@ == bindings@.subrange(0, i as int),
                    decreases bindings@.len() - i,
                {
                    b.push(bindings[i]);
                    i = i + 1;
                }
                assert(b@ =~= bindings@);
                Symbol::Function {
                    name: *name,
                    bindings: b,
                    ret_ty: *ret_ty,
                    body: Box::new(Node::dummy(Block {
                        stmts: Vec::new(),
                        expr: Box::new(Node::dummy(Expression::Unit)),
                    })),
                }
            },
            Symbol::Static { binding, value } => Symbol::Static {
                binding: Box::new(**binding),
                value: Box::new(copy_expression_node(value)),
            },
            Symbol::Constant { binding, value } => Symbol::Constant {
                binding: Box::new(**binding),
                value: Box::new(copy_expression_node(value)),
            },
        }
    }
}

/// A block of statements (e.g. function body, if body, ...)
#[derive(Debug)]
pub struct Block {
    pub stmts: Vec<Node<Statement>>,
    pub expr: Box<Node<Expression>>,
}

/// A binding of a value to a name (e.g. local variable, function argument)
#[derive(Clone, Copy, Debug)]
pub struct Binding {
    pub ty: Type,
    pub name: Node<Ident>,
}

/// A declaration or an expression terminated with a semicolon
#[derive(Debug)]
pub enum Statement {
    Declaration {
        binding: Box<Node<Binding>>,
        value: Box<Node<Expression>>,
    },
    Expression {
        val: Box<Node<Expression>>,
    },
}

/// An expression. The real 'meat' of the language.
#[derive(Debug)]
#[allow(inconsistent_fields)]
pub enum Expression {
    /// A literal value
    Literal { val: Value },
    /// A variable referenced by name
    Variable { name: Node<Ident> },
    /// An assignment expression
    Assign { lhs: Box<Node<Expression>>, rhs: Box<Node<Expression>> },
    /// An assignment expression with an additional operator (ex: `a += 1`)
    AssignOp { op: BinOp, lhs: Box<Node<Expression>>, rhs: Box<Node<Expression>> },
    /// Exit the function with an optional return value
    Return { val: Box<Node<Expression>> },
    /// A function call
    Call { func: Box<Node<Expression>>, args: Vec<Node<Expression>> },
    /// A grouped expression (`(3 + 5)`)
    Group(Box<Node<Expression>>),
    /// An expression with an infix operator (`2 + 5`, `a == false`)
    Infix { op: BinOp, lhs: Box<Node<Expression>>, rhs: Box<Node<Expression>> },
    /// An expression with a prefix operator (`-2`, `!a`)
    Prefix { op: UnOp, item: Box<Node<Expression>> },
    /// A conditional with an optional `else` branch
    If { cond: Box<Node<Expression>>, conseq: Box<Node<Block>>, altern: Option<Box<Node<Block>>> },
    /// A while loop
    While { cond: Box<Node<Expression>>, body: Box<Node<Block>> },
    /// Break out of a loop
    Break,
    /// An expression without any content
    Unit,
}

impl Expression {
    pub fn unwrap_ident(&self) -> (r: Ident)
        requires
            self is Variable,
        ensures
            r == self->Variable_name.node,
    {
        match self {
            Expression::Variable { name } => name.node,
            _ => Ident(0),
        }
    }

    pub fn unwrap_literal(&self) -> (r: Value)
        requires
            self is Literal,
        ensures
            r == self->Literal_val,
    {
        match self {
            Expression::Literal { val } => *val,
            _ => Value::Int(0),
        }
    }
}

// --- Copying ------------------------------------------------------------------

/// Whether an expression has no sub-expressions
pub open spec fn is_leaf_expression(e: Expression) -> bool {
    e is Literal || e is Variable || e is Break || e is Unit
}

/// Two expression nodes are the same: the same place, id and expression
pub open spec fn same_node(a: Node<Expression>, b: Node<Expression>) -> bool
    decreases a, 1int,
{
    a.span == b.span && a.id == b.id && same_expr(a.node, b.node)
}

/// Two expressions are the same: the same variant and fields, and the same
/// sub-expressions and blocks
pub open spec fn same_expr(a: Expression, b: Expression) -> bool
    decreases a, 0int,
{
    match a {
        Expression::Assign { lhs, rhs } => b matches Expression::Assign { lhs: l, rhs: r }
            && same_node(*lhs, *l) && same_node(*rhs, *r),
        Expression::AssignOp { op, lhs, rhs } => b matches Expression::AssignOp { op: o, lhs: l, rhs: r }
            && o == op && same_node(*lhs, *l) && same_node(*rhs, *r),
        Expression::Return { val } => b matches Expression::Return { val: v } && same_node(*val, *v),
        Expression::Call { func, args } => b matches Expression::Call { func: f, args: a2 }
            && same_node(*func, *f) && a2@.len() == args@.len()
            && forall|i: int| 0 <= i < args@.len() ==> same_node(#[trigger] args@[i], a2@[i]),
        Expression::Group(inner) => b matches Expression::Group(i2) && same_node(*inner, *i2),
        Expression::Infix { op, lhs, rhs } => b matches Expression::Infix { op: o, lhs: l, rhs: r }
            && o == op && same_node(*lhs, *l) && same_node(*rhs, *r),
        Expression::Prefix { op, item } => b matches Expression::Prefix { op: o, item: i2 }
            && o == op && same_node(*item, *i2),
        Expression::If { cond, conseq, altern } => b matches Expression::If { cond: c, conseq: t, altern: e }
            && same_node(*cond, *c) && same_block_node(*conseq, *t)
            && match altern {
                Some(x) => e matches Some(y) && same_block_node(*x, *y),
                None => e is None,
            },
        Expression::While { cond, body } => b matches Expression::While { cond: c, body: t }
            && same_node(*cond, *c) && same_block_node(*body, *t),
        _ => b == a,
    }
}

/// Two block nodes are the same: the same place, id, statements and value
pub open spec fn same_block_node(a: Node<Block>, b: Node<Block>) -> bool
    decreases a, 0int,
{
    &&& a.span == b.span
    &&& a.id == b.id
    &&& b.node.stmts@.len() == a.node.stmts@.len()
    &&& forall|i: int| 0 <= i < a.node.stmts@.len() ==> same_statement_node(#[trigger] a.node.stmts@[i], b.node.stmts@[i])
    &&& same_node(*a.node.expr, *b.node.expr)
}

/// Two statement nodes are the same
pub open spec fn same_statement_node(a: Node<Statement>, b: Node<Statement>) -> bool
    decreases a, 0int,
{
    &&& a.span == b.span
    &&& a.id == b.id
    &&& match a.node {
        Statement::Declaration { binding, value } => b.node matches Statement::Declaration { binding: x, value: v }
            && *x == *binding && same_node(*value, *v),
        Statement::Expression { val } => b.node matches Statement::Expression { val: v } && same_node(*val, *v),
    }
}

/// A copy of an expression node
pub fn copy_expression_node(e: &Node<Expression>) -> (r: Node<Expression>)
    ensures
        r.span == e.span,
        r.id == e.id,
        is_leaf_expression(e.node) ==> r.node == e.node,
        same_node(*e, r),
    decreases e, 1int,
{
    Node { node: copy_expression(&e.node), span: e.span, id: e.id }
}

/// A copy of a list of expression nodes
pub fn copy_expression_nodes(v: &Vec<Node<Expression>>) -> (r: Vec<Node<Expression>>)
    ensures
        r@.len() == v@.len(),
        forall|i: int| 0 <= i < v@.len() ==> same_node(#[trigger] v@[i], r@[i]),
    decreases v, 1int,
{
    let mut r: Vec<Node<Expression>> = Vec::new();
    let mut i: usize = 0;
    while i < v.len()
        invariant
            i <= v@.len(),
            r@.len() == i,
            forall|j: int| 0 <= j < i ==> same_node(#[trigger] v@[j], r@[j]),
        decreases v@.len() - i,
    {
        assert(decreases_to!(v => v@[i as int]));
        r.push(copy_expression_node(&v[i]));
        i = i + 1;
    }
    r
}

/// A copy of a block node
pub fn copy_block_node(b: &Node<Block>) -> (r: Node<Block>)
    ensures
        r.span == b.span,
        r.id == b.id,
        r.node.stmts@.len() == b.node.stmts@.len(),
        same_block_node(*b, r),
    decreases b, 1int,
{
    let mut stmts: Vec<Node<Statement>> = Vec::new();
    let mut i: usize = 0;
    while i < b.node.stmts.len()
        invariant
            i <= b.node.stmts@.len(),
            stmts@.len() == i,
            forall|j: int| 0 <= j < i ==> same_statement_node(#[trigger] b.node.stmts@[j], stmts@[j]),
        decreases b.node.stmts@.len() - i,
    {
        assert(decreases_to!(b => b.node.stmts@[i as int]));
        let s = &b.node.stmts[i];
        let c = match &s.node {
            Statement::Declaration { binding, value } => Statement::Declaration {
                binding: Box::new(**binding),
                value: Box::new(copy_expression_node(value)),
            },
            Statement::Expression { val } => Statement::Expression {
                val: Box::new(copy_expression_node(val)),
            },
        };
        stmts.push(Node { node: c, span: s.span, id: s.id });
        i = i + 1;
    }
    Node {
        node: Block { stmts, expr: Box::new(copy_expression_node(&b.node.expr)) },
        span: b.span,
        id: b.id,
    }
}

/// A copy of an expression
pub fn copy_expression(e: &Expression) -> (r: Expression)
    ensures
        is_leaf_expression(*e) ==> r == *e,
        same_expr(*e, r),
    decreases e, 0int,
{
    match e {
        Expression::Literal { val } => Expression::Literal { val: *val },
        Expression::Variable { name } => Expression::Variable { name: *name },
        Expression::Assign { lhs, rhs } => Expression::Assign {
            lhs: Box::new(copy_expression_node(lhs)),
            rhs: Box::new(copy_expression_node(rhs)),
        },
        Expression::AssignOp { op, lhs, rhs } => Expression::AssignOp {
            op: *op,
            lhs: Box::new(copy_expression_node(lhs)),
            rhs: Box::new(copy_expression_node(rhs)),
        },
        Expression::Return { val } => Expression::Return { val: Box::new(copy_expression_node(val)) },
        Expression::Call { func, args } => Expression::Call {
            func: Box::new(copy_expression_node(func)),
            args: copy_expression_nodes(args),
        },
        Expression::Group(inner) => Expression::Group(Box::new(copy_expression_node(inner))),
        Expression::Infix { op, lhs, rhs } => Expression::Infix {
            op: *op,
            lhs: Box::new(copy_expression_node(lhs)),
            rhs: Box::new(copy_expression_node(rhs)),
        },
        Expression::Prefix { op, item } => Expression::Prefix {
            op: *op,
            item: Box::new(copy_expression_node(item)),
        },
        Expression::If { cond, conseq, altern } => {
            let a = match altern {
                Some(b) => Some(Box::new(copy_block_node(b))),
                None => None,
            };
            Expression::If {
                cond: Box::new(copy_expression_node(cond)),
                conseq: Box::new(copy_block_node(conseq)),
                altern: a,
            }
        },
        Expression::While { cond, body } => Expression::While {
            cond: Box::new(copy_expression_node(cond)),
            body: Box::new(copy_block_node(body)),
        },
        Expression::Break => Expression::Break,
        Expression::Unit => Expression::Unit,
    }
}

} // verus!
