//! Parselets for the Pratt parser
//!
//! A prefix parselet parses an expression that starts with a given token; an
//! infix parselet continues an already parsed expression (its left-hand side)
//! when the given token follows it. Each infix parselet has a precedence: the
//! Pratt parser only continues with it while its precedence is higher than
//! the one it was asked to parse with.

use vstd::prelude::*;
use crate::driver::session::Diagnostic;
use crate::front::ast::{BinOp, Expression, Node, Span, UnOp, Value};
use crate::front::parser::{Parser, stops_expression};
use crate::front::parser::operators::{expr_ids, same_shape};
use crate::front::parser::spelling::{args_with_commas, lemma_args_with_commas_prefix, lemma_token_values_split, spells_call_args, spells_expr};
use crate::front::tokens::{Keyword, Token, TokenType, token_type};
use crate::util::pretty::call_arity;

verus! {

/// The associativity of an infix operator
#[derive(Clone, Copy, Debug, PartialEq, Eq, Structural)]
pub enum Associativity {
    Left,
    Right,
}

/// `RusTiny` operator precedence
#[derive(Clone, Copy, Debug, PartialEq, Eq, Structural)]
pub enum Precedence {
    Call,
    Exponent,
    Product,
    Sum,
    Shift,
    BitAnd,
    BitXor,
    BitOr,
    Compare,
    And,
    Or,
    Assignment,
}

pub open spec fn precedence_value(p: Precedence) -> u32 {
    match p {
        Precedence::Call => 13,
        Precedence::Exponent => 11,
        Precedence::Product => 10,
        Precedence::Sum => 9,
        Precedence::Shift => 8,
        Precedence::BitAnd => 7,
        Precedence::BitXor => 6,
        Precedence::BitOr => 5,
        Precedence::Compare => 4,
        Precedence::And => 3,
        Precedence::Or => 2,
        Precedence::Assignment => 1,
    }
}

impl Precedence {
    pub fn val(self) -> (r: u32)
        ensures
            r == precedence_value(self),
    {
        match self {
            Precedence::Call => 13,
            Precedence::Exponent => 11,
            Precedence::Product => 10,
            Precedence::Sum => 9,
            Precedence::Shift => 8,
            Precedence::BitAnd => 7,
            Precedence::BitXor => 6,
            Precedence::BitOr => 5,
            Precedence::Compare => 4,
            Precedence::And => 3,
            Precedence::Or => 2,
            Precedence::Assignment => 1,
        }
    }
}

/// The precedence class of a binary operator
pub open spec fn binop_precedence(op: BinOp) -> Precedence {
    match op {
        BinOp::Add | BinOp::Sub => Precedence::Sum,
        BinOp::Mul | BinOp::Div | BinOp::Mod => Precedence::Product,
        BinOp::Pow => Precedence::Exponent,
        BinOp::And => Precedence::And,
        BinOp::Or => Precedence::Or,
        BinOp::BitXor => Precedence::BitXor,
        BinOp::BitAnd => Precedence::BitAnd,
        BinOp::BitOr => Precedence::BitOr,
        BinOp::Shl | BinOp::Shr => Precedence::Shift,
        _ => Precedence::Compare,
    }
}

/// The associativity of a binary operator (only `**` is right-associative)
pub open spec fn binop_assoc(op: BinOp) -> Associativity {
    if op == BinOp::Pow { Associativity::Right } else { Associativity::Left }
}

/// How tightly an expression binds: the precedence of the infix parselet
/// that built it, or 14 for expressions that are not built by one
pub open spec fn binding_power(e: Expression) -> u32 {
    match e {
        Expression::Infix { op, .. } => precedence_value(binop_precedence(op)),
        Expression::AssignOp { op, .. } => precedence_value(binop_precedence(op)),
        Expression::Assign { .. } => 1,
        Expression::Call { .. } => 13,
        _ => 14,
    }
}

/// The prefix parselets
#[derive(Clone, Copy, Debug, PartialEq, Eq, Structural)]
pub enum PrefixParselet {
    Ident(IdentParselet),
    Literal(LiteralParselet),
    PrefixOperator(PrefixOperatorParselet),
    Group(GroupParselet),
}

/// The infix parselets
#[derive(Clone, Copy, Debug, PartialEq, Eq, Structural)]
pub enum InfixParselet {
    BinaryOperator(BinaryOperatorParselet),
    Assign(AssignParselet),
    Call(CallParselet),
}

/// The prefix parselet table
pub open spec fn prefix_table(t: TokenType) -> Option<PrefixParselet> {
    match t {
        TokenType::Literal => Some(PrefixParselet::Literal(LiteralParselet)),
        TokenType::Ident => Some(PrefixParselet::Ident(IdentParselet)),
        TokenType::UnOp => Some(PrefixParselet::PrefixOperator(PrefixOperatorParselet)),
        TokenType::BinOp(BinOp::Sub) => Some(PrefixParselet::PrefixOperator(PrefixOperatorParselet)),
        TokenType::LParen => Some(PrefixParselet::Group(GroupParselet)),
        _ => None,
    }
}

/// The infix parselet table
pub open spec fn infix_table(t: TokenType) -> Option<InfixParselet> {
    match t {
        TokenType::BinOp(op) => Some(InfixParselet::BinaryOperator(BinaryOperatorParselet {
            preced: precedence_value(binop_precedence(op)),
            assoc: binop_assoc(op),
        })),
        TokenType::Eq => Some(InfixParselet::Assign(AssignParselet)),
        TokenType::LParen => Some(InfixParselet::Call(CallParselet)),
        _ => None,
    }
}

/// The precedence of an infix parselet
pub open spec fn infix_precedence(p: InfixParselet) -> u32 {
    match p {
        InfixParselet::BinaryOperator(b) => b.preced,
        InfixParselet::Assign(_) => 1,
        InfixParselet::Call(_) => 13,
    }
}

/// The infix precedence of a token: that of its infix parselet, or 0 where it
/// has none
pub open spec fn precedence_of(t: Token) -> u32 {
    match infix_table(token_type(t)) {
        Some(p) => infix_precedence(p),
        None => 0,
    }
}

/// The parselet tables
#[derive(Clone, Copy, Debug)]
pub struct ParseletManager;

impl ParseletManager {
    pub fn new() -> ParseletManager {
        ParseletManager
    }

    /// Look up the prefix parselet for a token
    pub fn lookup_prefix(&self, token: Token) -> (r: Option<PrefixParselet>)
        ensures
            r == prefix_table(token_type(token)),
    {
        match token.ty() {
            TokenType::Literal => Some(PrefixParselet::Literal(LiteralParselet)),
            TokenType::Ident => Some(PrefixParselet::Ident(IdentParselet)),
            TokenType::UnOp => Some(PrefixParselet::PrefixOperator(PrefixOperatorParselet)),
            TokenType::BinOp(BinOp::Sub) => Some(PrefixParselet::PrefixOperator(PrefixOperatorParselet)),
            TokenType::LParen => Some(PrefixParselet::Group(GroupParselet)),
            _ => None,
        }
    }

    /// Look up the infix parselet for a token
    pub fn lookup_infix(&self, token: Token) -> (r: Option<InfixParselet>)
        ensures
            r == infix_table(token_type(token)),
    {
        match token.ty() {
            TokenType::BinOp(op) => Some(InfixParselet::BinaryOperator(Self::register_binop(op))),
            TokenType::Eq => Some(InfixParselet::Assign(AssignParselet)),
            TokenType::LParen => Some(InfixParselet::Call(CallParselet)),
            _ => None,
        }
    }

    /// The binary operator parselet of an operator
    fn register_binop(op: BinOp) -> (r: BinaryOperatorParselet)
        ensures
            r.preced == precedence_value(binop_precedence(op)),
            r.assoc == binop_assoc(op),
    {
        let (p, assoc) = match op {
            BinOp::Add | BinOp::Sub => (Precedence::Sum, Associativity::Left),
            BinOp::Mul | BinOp::Div | BinOp::Mod => (Precedence::Product, Associativity::Left),
            BinOp::Pow => (Precedence::Exponent, Associativity::Right),
            BinOp::And => (Precedence::And, Associativity::Left),
            BinOp::Or => (Precedence::Or, Associativity::Left),
            BinOp::BitXor => (Precedence::BitXor, Associativity::Left),
            BinOp::BitAnd => (Precedence::BitAnd, Associativity::Left),
            BinOp::BitOr => (Precedence::BitOr, Associativity::Left),
            BinOp::Shl | BinOp::Shr => (Precedence::Shift, Associativity::Left),
            _ => (Precedence::Compare, Associativity::Left),
        };
        BinaryOperatorParselet { preced: p.val(), assoc }
    }
}

impl InfixParselet {
    pub fn precedence(&self) -> (r: u32)
        ensures
            r == infix_precedence(*self),
    {
        match self {
            InfixParselet::BinaryOperator(b) => b.precedence(),
            InfixParselet::Assign(a) => a.precedence(),
            InfixParselet::Call(c) => c.precedence(),
        }
    }
}

// --- Prefix Parselets ---------------------------------------------------------

#[derive(Clone, Copy, Debug, PartialEq, Eq, Structural)]
pub struct IdentParselet;

#[derive(Clone, Copy, Debug, PartialEq, Eq, Structural)]
pub struct LiteralParselet;

#[derive(Clone, Copy, Debug, PartialEq, Eq, Structural)]
pub struct PrefixOperatorParselet;

#[derive(Clone, Copy, Debug, PartialEq, Eq, Structural)]
pub struct GroupParselet;

impl IdentParselet {
    pub fn name(&self) -> (r: &'static str)
        ensures
            r@ == "IdentParselet"@,
    {
        "IdentParselet"
    }

    /// A variable: the identifier token itself
    pub fn parse(&self, parser: &mut Parser, token: Token, span: Span) -> (r: Result<Node<Expression>, Diagnostic>)
        requires
            old(parser).wf(),
        ensures
            final(parser).wf(),
            final(parser).unchanged_but_pos(*old(parser)),
            final(parser).pos == old(parser).pos,
            r matches Ok(e) ==> token matches Token::Ident(id) && e.node == (Expression::Variable { name: Node { node: id, span, id: e.node->Variable_name.id } })
                && e.span == span,
            r is Ok <==> (token is Ident && old(parser).ids_left(2)),
            r is Ok ==> final(parser).next_id == old(parser).next_id + 2,
    {
        let ident = match token {
            Token::Ident(id) => Node::new(id, span, parser.fresh_id()?),
            _ => return Err(parser.unexpected_token(Some("an identifier"))),
        };
        let id = parser.fresh_id()?;
        Ok(Node::new(Expression::Variable { name: ident }, span, id))
    }
}

/// The literal value of a literal token
pub open spec fn literal_of(t: Token) -> Option<Value> {
    match t {
        Token::Int(i) => Some(Value::Int(i)),
        Token::Char(c) => Some(Value::Char(c)),
        Token::Keyword(Keyword::True) => Some(Value::Bool(true)),
        Token::Keyword(Keyword::False) => Some(Value::Bool(false)),
        _ => None,
    }
}

impl LiteralParselet {
    pub fn name(&self) -> (r: &'static str)
        ensures
            r@ == "LiteralParselet"@,
    {
        "LiteralParselet"
    }

    /// A literal: the literal token itself
    pub fn parse(&self, parser: &mut Parser, token: Token, span: Span) -> (r: Result<Node<Expression>, Diagnostic>)
        requires
            old(parser).wf(),
        ensures
            final(parser).wf(),
            final(parser).unchanged_but_pos(*old(parser)),
            final(parser).pos == old(parser).pos,
            r matches Ok(e) ==> literal_of(token) == Some(e.node->Literal_val) && e.node is Literal && e.span == span,
            r is Ok <==> (literal_of(token) is Some && old(parser).ids_left(1)),
            r matches Ok(e) ==> e.id.0 == old(parser).next_id && final(parser).next_id == old(parser).next_id + 1,
    {
        let value = match token {
            Token::Int(i) => Value::Int(i),
            Token::Char(c) => Value::Char(c),
            Token::Keyword(Keyword::True) => Value::Bool(true),
            Token::Keyword(Keyword::False) => Value::Bool(false),
            _ => return Err(parser.unexpected_token(Some("a literal"))),
        };
        let id = parser.fresh_id()?;
        Ok(Node::new(Expression::Literal { val: value }, span, id))
    }
}

impl PrefixOperatorParselet {
    pub fn name(&self) -> (r: &'static str)
        ensures
            r@ == "PrefixOperatorParselet"@,
    {
        "PrefixOperatorParselet"
    }

    /// A prefix operation: the operator applied to the following expression
    pub fn parse(&self, parser: &mut Parser, token: Token, span: Span) -> (r: Result<Node<Expression>, Diagnostic>)
        requires
            old(parser).wf(),
        ensures
            final(parser).wf(),
            final(parser).unchanged_but_pos(*old(parser)),
            old(parser).pos <= final(parser).pos,
            r matches Ok(e) ==> old(parser).pos < final(parser).pos,
            r matches Ok(e) ==> e.node matches Expression::Prefix { op, item } && (
                (token == Token::UnOp(op)) || (token == Token::BinOp(BinOp::Sub) && op == UnOp::Neg))
                && spells_expr(final(parser).read(old(parser).pos as int, final(parser).pos as int), item.node, final(parser).names())
                && stops_expression(item.node, final(parser).current(), 0),
            forall|item: Expression, k: int| #[trigger] old(parser).reads_expr_at(item, k, 0)
                && old(parser).ids_left(expr_ids(item) + 1)
                && (token is UnOp || token == Token::BinOp(BinOp::Sub)) ==>
                (r matches Ok(x) && x.node matches Expression::Prefix { op: o, item: i } && same_shape(item, i.node)
                    && ((token == Token::UnOp(o)) || (token == Token::BinOp(BinOp::Sub) && o == UnOp::Neg)))
                && final(parser).pos == k && final(parser).next_id == old(parser).next_id + expr_ids(item) + 1,
        decreases old(parser).remaining(), 4nat,
    {
        let lo = span;
        let operand = parser.parse_expression()?;
        let op = match token {
            Token::UnOp(op) => op,
            Token::BinOp(BinOp::Sub) => UnOp::Neg,
            _ => return Err(parser.unexpected_token(Some("a unary operator"))),
        };
        let hi = operand.span;
        let id = parser.fresh_id()?;
        Ok(Node::new(Expression::Prefix { op, item: Box::new(operand) }, lo.join(hi), id))
    }
}

impl GroupParselet {
    pub fn name(&self) -> (r: &'static str)
        ensures
            r@ == "GroupParselet"@,
    {
        "GroupParselet"
    }

    /// A parenthesized expression
    pub fn parse(&self, parser: &mut Parser, token: Token, span: Span) -> (r: Result<Node<Expression>, Diagnostic>)
        requires
            old(parser).wf(),
        ensures
            final(parser).wf(),
            final(parser).unchanged_but_pos(*old(parser)),
            old(parser).pos <= final(parser).pos,
            r matches Ok(e) ==> old(parser).pos < final(parser).pos,
            r matches Ok(e) ==> e.node matches Expression::Group(inner) && old(parser).pos < final(parser).pos
                && final(parser).tokens@[final(parser).pos - 1].value == Token::RParen
                && spells_expr(final(parser).read(old(parser).pos as int, final(parser).pos - 1), inner.node, final(parser).names()),
            forall|inner: Expression, k: int| #[trigger] old(parser).reads_expr_at(inner, k, 0)
                && old(parser).tokens@[k].value == Token::RParen
                && (old(parser).lex_error is None || k + 1 < old(parser).tokens@.len() - 1)
                && old(parser).ids_left(expr_ids(inner) + 1) ==>
                (r matches Ok(x) && x.node matches Expression::Group(i) && same_shape(inner, i.node))
                && final(parser).pos == k + 1 && final(parser).next_id == old(parser).next_id + expr_ids(inner) + 1,
        decreases old(parser).remaining(), 4nat,
    {
        let lo = span;
        let expr = parser.parse_expression()?;
        parser.expect(Token::RParen)?;
        let id = parser.fresh_id()?;
        Ok(Node::new(Expression::Group(Box::new(expr)), lo.join(parser.span()), id))
    }
}

// --- Infix Parselets ----------------------------------------------------------

#[derive(Clone, Copy, Debug, PartialEq, Eq, Structural)]
pub struct BinaryOperatorParselet {
    pub preced: u32,
    pub assoc: Associativity,
}

impl BinaryOperatorParselet {
    pub fn name(&self) -> (r: &'static str)
        ensures
            r@ == "BinaryOperatorParselet"@,
    {
        "BinaryOperatorParselet"
    }

    pub fn precedence(&self) -> (r: u32)
        ensures
            r == self.preced,
    {
        self.preced
    }

    /// The precedence the right-hand side is read with: the operator's, one
    /// less for a right-associative operator
    pub open spec fn rhs_precedence(&self) -> u32 {
        (self.preced - (if self.assoc == Associativity::Right { 1int } else { 0 })) as u32
    }

    /// A binary operation `left op right`, or an assignment operation
    /// `left op= right` (except for `&&` and `||`). The right-hand side is
    /// parsed with the operator's precedence (one less for right-associative
    /// operators).
    pub fn parse(&self, parser: &mut Parser, left: Node<Expression>, token: Token, span: Span) -> (r: Result<Node<Expression>, Diagnostic>)
        requires
            old(parser).wf(),
            1 <= self.preced <= 13,
        ensures
            final(parser).wf(),
            final(parser).unchanged_but_pos(*old(parser)),
            old(parser).pos <= final(parser).pos,
            r matches Ok(e) ==> old(parser).pos < final(parser).pos,
            r matches Ok(e) ==> token matches Token::BinOp(op) && (
                (e.node matches Expression::Infix { op: o, lhs, rhs } && o == op && lhs.node == left.node
                    && binding_power(rhs.node) > self.preced - (if self.assoc == Associativity::Right { 1int } else { 0 })
                    && spells_expr(final(parser).read(old(parser).pos as int, final(parser).pos as int), rhs.node, final(parser).names())
                    && stops_expression(rhs.node, final(parser).current(),
                        (self.preced - (if self.assoc == Associativity::Right { 1int } else { 0 })) as u32))
                || (e.node matches Expression::AssignOp { op: o, lhs, rhs } && o == op && lhs.node == left.node
                    && op != BinOp::And && op != BinOp::Or
                    && binding_power(rhs.node) > self.preced - (if self.assoc == Associativity::Right { 1int } else { 0 })
                    && old(parser).current() == Token::Eq
                    && spells_expr(final(parser).read(old(parser).pos + 1, final(parser).pos as int), rhs.node, final(parser).names())
                    && stops_expression(rhs.node, final(parser).current(),
                        (self.preced - (if self.assoc == Associativity::Right { 1int } else { 0 })) as u32))),
            forall|rhs: Expression, k: int| #[trigger] old(parser).reads_expr_at(rhs, k, self.rhs_precedence())
                && old(parser).ids_left(expr_ids(rhs) + 1) && old(parser).current() != Token::Eq && token is BinOp ==>
                (r matches Ok(x) && x.node matches Expression::Infix { op: o, lhs, rhs: r2 } && token == Token::BinOp(o)
                    && lhs.node == left.node && same_shape(rhs, r2.node))
                && final(parser).pos == k && final(parser).next_id == old(parser).next_id + expr_ids(rhs) + 1,
        decreases old(parser).remaining(), 4nat,
    {
        let lo = left.span;
        let op = match token {
            Token::BinOp(op) => op,
            _ => return Err(parser.unexpected_token(Some("a binary operator"))),
        };
        let precedence = self.preced - match self.assoc {
            Associativity::Left => 0,
            Associativity::Right => 1,
        };
        if parser.token() == Token::Eq && op != BinOp::And && op != BinOp::Or {
            parser.bump()?;
            let right = parser.parse_expression_with_precedence(precedence)?;
            let hi = right.span;
            let id = parser.fresh_id()?;
            Ok(Node::new(Expression::AssignOp { op, lhs: Box::new(left), rhs: Box::new(right) }, lo.join(hi), id))
        } else {
            let right = parser.parse_expression_with_precedence(precedence)?;
            let hi = right.span;
            let id = parser.fresh_id()?;
            Ok(Node::new(Expression::Infix { op, lhs: Box::new(left), rhs: Box::new(right) }, lo.join(hi), id))
        }
    }
}

#[derive(Clone, Copy, Debug, PartialEq, Eq, Structural)]
pub struct AssignParselet;

impl AssignParselet {
    pub fn name(&self) -> (r: &'static str)
        ensures
            r@ == "AssignParselet"@,
    {
        "AssignParselet"
    }

    pub fn precedence(&self) -> (r: u32)
        ensures
            r == 1,
    {
        Precedence::Assignment.val()
    }

    /// An assignment `left = right`
    pub fn parse(&self, parser: &mut Parser, left: Node<Expression>, token: Token, span: Span) -> (r: Result<Node<Expression>, Diagnostic>)
        requires
            old(parser).wf(),
        ensures
            final(parser).wf(),
            final(parser).unchanged_but_pos(*old(parser)),
            old(parser).pos <= final(parser).pos,
            r matches Ok(e) ==> old(parser).pos < final(parser).pos,
            r matches Ok(e) ==> e.node matches Expression::Assign { lhs, rhs } && lhs.node == left.node
                && spells_expr(final(parser).read(old(parser).pos as int, final(parser).pos as int), rhs.node, final(parser).names())
                && stops_expression(rhs.node, final(parser).current(), 0),
            forall|rhs: Expression, k: int| #[trigger] old(parser).reads_expr_at(rhs, k, 0)
                && old(parser).ids_left(expr_ids(rhs) + 1) ==>
                (r matches Ok(x) && x.node matches Expression::Assign { lhs, rhs: r2 } && lhs.node == left.node
                    && same_shape(rhs, r2.node))
                && final(parser).pos == k && final(parser).next_id == old(parser).next_id + expr_ids(rhs) + 1,
        decreases old(parser).remaining(), 4nat,
    {
        let lo = left.span;
        let right = parser.parse_expression()?;
        let hi = right.span;
        let id = parser.fresh_id()?;
        Ok(Node::new(Expression::Assign { lhs: Box::new(left), rhs: Box::new(right) }, lo.join(hi), id))
    }
}

/// The call of `func` with `args`
pub open spec fn call_with(func: Node<Expression>, args: Vec<Node<Expression>>) -> Expression {
    Expression::Call { func: Box::new(func), args }
}

#[derive(Clone, Copy, Debug, PartialEq, Eq, Structural)]
pub struct CallParselet;

impl CallParselet {
    pub fn name(&self) -> (r: &'static str)
        ensures
            r@ == "CallParselet"@,
    {
        "CallParselet"
    }

    pub fn precedence(&self) -> (r: u32)
        ensures
            r == 13,
    {
        Precedence::Call.val()
    }

    /// A call `left(args, ...)`
    pub fn parse(&self, parser: &mut Parser, left: Node<Expression>, token: Token, span: Span) -> (r: Result<Node<Expression>, Diagnostic>)
        requires
            old(parser).wf(),
        ensures
            final(parser).wf(),
            final(parser).unchanged_but_pos(*old(parser)),
            old(parser).pos <= final(parser).pos,
            r matches Ok(e) ==> old(parser).pos < final(parser).pos,
            r matches Ok(e) ==> e.node matches Expression::Call { func, .. } && func.node == left.node
                && old(parser).pos < final(parser).pos && final(parser).tokens@[final(parser).pos - 1].value == Token::RParen
                && spells_call_args(final(parser).read(old(parser).pos as int, final(parser).pos - 1), e.node, final(parser).names()),
            old(parser).current() == Token::RParen && old(parser).advances(1) && old(parser).ids_left(1) ==>
                (r matches Ok(x) && x.node matches Expression::Call { func, args } && func.node == left.node && args@.len() == 0)
                && final(parser).pos == old(parser).pos + 1 && final(parser).next_id == old(parser).next_id + 1,
        decreases old(parser).remaining(), 4nat,
    {
        let lo = left.span;
        let mut args: Vec<Node<Expression>> = Vec::new();
        let ghost start = parser.pos as int;
        let ghost names = parser.names();
        assert(parser.read(start, start) =~= Seq::<Token>::empty());
        while parser.token() != Token::RParen
            invariant_except_break
                args_with_commas(parser.read(start, parser.pos as int), call_with(left, args), args@.len(), names),
            invariant
                parser.wf(),
                parser.unchanged_but_pos(*old(parser)),
                old(parser).pos <= parser.pos,
                start == old(parser).pos,
                names == parser.names(),
                old(parser).current() == Token::RParen ==> parser.pos == old(parser).pos && args@.len() == 0
                    && parser.next_id == old(parser).next_id,
            ensures
                spells_call_args(parser.read(start, parser.pos as int), call_with(left, args), names),
            decreases parser.remaining(),
        {
            let ghost before = parser.pos as int;
            let ghost old_args = args;
            let a = parser.parse_expression()?;
            let ghost mid = parser.pos as int;
            args.push(a);
            proof {
                lemma_args_with_commas_prefix(parser.read(start, before), call_with(left, old_args), call_with(left, args),
                    old_args@.len(), names);
                lemma_token_values_split(parser.tokens@, start, before, mid);
            }
            if !parser.eat(Token::Comma)? {
                proof {
                    let t = parser.read(start, mid);
                    assert(t.subrange(0, before - start) == parser.read(start, before));
                    assert(t.subrange(before - start, t.len() as int) == parser.read(before, mid));
                    assert(call_arity(call_with(left, args)) == args@.len());
                }
                break;
            }
            proof {
                lemma_token_values_split(parser.tokens@, start, before, mid + 1);
                lemma_token_values_split(parser.tokens@, before, mid, mid + 1);
                let t = parser.read(start, mid + 1);
                assert(t.subrange(0, before - start) == parser.read(start, before));
                assert(t.subrange(before - start, t.len() - 1) == parser.read(before, mid));
            }
        }
        parser.expect(Token::RParen)?;
        let id = parser.fresh_id()?;
        assert(parser.read(old(parser).pos as int, parser.pos - 1) == parser.read(start, parser.pos - 1));
        Ok(Node::new(Expression::Call { func: Box::new(left), args }, lo.join(parser.span()), id))
    }
}

} // verus!
