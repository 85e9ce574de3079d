//! Which token sequences spell which syntax trees
//!
//! These predicates describe what the parser reads: a symbol, a block, a
//! statement or an expression is spelled by exactly the tokens that the
//! parser consumed to build it. Parentheses are kept in the tree (as
//! `Group`), so an expression's tokens are determined by the expression; how
//! operators group is further constrained by the binding powers the parser
//! states.

use vstd::prelude::*;
use crate::front::ast::{BinOp, Binding, Block, Expression, Node, Spanned, Statement, Symbol, Type, UnOp, builtin_type_name};
use crate::front::parser::parselet::{Associativity, binding_power, binop_assoc, binop_precedence, literal_of, precedence_value};
use crate::front::tokens::{Keyword, Token};
use crate::util::pretty::call_arity;

verus! {

/// The values of the tokens `from..to`
pub open spec fn token_values(tokens: Seq<Spanned<Token>>, from: int, to: int) -> Seq<Token> {
    Seq::new((to - from) as nat, |i: int| tokens[from + i].value)
}

/// Whether all the tokens are semicolons
pub open spec fn all_semicolons(t: Seq<Token>) -> bool {
    forall|i: int| 0 <= i < t.len() ==> #[trigger] t[i] == Token::Semicolon
}

/// The name of a built-in type, as an identifier token
pub open spec fn spells_type(t: Token, ty: Type, names: Seq<Seq<char>>) -> bool {
    t matches Token::Ident(id) && 0 <= id.0 < names.len() && builtin_type_name(ty) == Some(names[id.0 as int])
}

/// An expression that ends with a construct that does not look at the
/// tokens after it (an operator after it applies to a larger expression)
pub open spec fn is_open(e: Expression) -> bool {
    e is If || e is While || e is Return || e is Break
}

/// The precedence the right-hand side of a binary operator is read with
pub open spec fn rhs_level(op: BinOp) -> int {
    precedence_value(binop_precedence(op)) - (if binop_assoc(op) == Associativity::Right { 1int } else { 0 })
}

/// Whether an expression can stand as the left-hand side of an operator of
/// precedence `p`: reading it stopped before such an operator
pub open spec fn closed_for(e: Expression, p: int) -> bool {
    match e {
        Expression::Infix { op, rhs, .. } => p <= rhs_level(op) || is_open(rhs.node),
        Expression::AssignOp { op, rhs, .. } => p <= rhs_level(op) || is_open(rhs.node),
        Expression::Assign { rhs, .. } => is_open(rhs.node),
        Expression::Prefix { item, .. } => is_open(item.node),
        Expression::Literal { .. } | Expression::Variable { .. } | Expression::Group(..) | Expression::Call { .. } => true,
        _ => false,
    }
}

/// A binding: `name: type`
pub open spec fn spells_binding(t: Seq<Token>, b: Binding, names: Seq<Seq<char>>) -> bool {
    &&& t.len() == 3
    &&& t[0] == Token::Ident(b.name.node)
    &&& t[1] == Token::Colon
    &&& spells_type(t[2], b.ty, names)
}

/// An expression
pub open spec fn spells_expr(t: Seq<Token>, e: Expression, names: Seq<Seq<char>>) -> bool
    decreases e, call_arity(e) + 2,
{
    match e {
        Expression::Literal { val } => t.len() == 1 && literal_of(t[0]) == Some(val),
        Expression::Variable { name } => t.len() == 1 && t[0] == Token::Ident(name.node),
        Expression::Group(inner) => t.len() >= 2 && t[0] == Token::LParen && t.last() == Token::RParen
            && spells_expr(t.subrange(1, t.len() - 1), inner.node, names),
        Expression::Prefix { op, item } => t.len() >= 1
            && (t[0] == Token::UnOp(op) || (t[0] == Token::BinOp(BinOp::Sub) && op == UnOp::Neg))
            && spells_expr(t.subrange(1, t.len() as int), item.node, names),
        Expression::Infix { op, lhs, rhs } => closed_for(lhs.node, precedence_value(binop_precedence(op)) as int)
            && binding_power(rhs.node) > rhs_level(op)
            && exists|k: int| 0 <= k < t.len()
            && spells_expr(#[trigger] t.subrange(0, k), lhs.node, names)
            && t[k] == Token::BinOp(op)
            && spells_expr(t.subrange(k + 1, t.len() as int), rhs.node, names),
        Expression::AssignOp { op, lhs, rhs } => op != BinOp::And && op != BinOp::Or
            && closed_for(lhs.node, precedence_value(binop_precedence(op)) as int)
            && binding_power(rhs.node) > rhs_level(op)
            && exists|k: int| 0 <= k && k + 1 < t.len()
                && spells_expr(#[trigger] t.subrange(0, k), lhs.node, names)
                && t[k] == Token::BinOp(op) && t[k + 1] == Token::Eq
                && spells_expr(t.subrange(k + 2, t.len() as int), rhs.node, names),
        Expression::Assign { lhs, rhs } => closed_for(lhs.node, 1) && exists|k: int| 0 <= k < t.len()
            && spells_expr(#[trigger] t.subrange(0, k), lhs.node, names)
            && t[k] == Token::Eq
            && spells_expr(t.subrange(k + 1, t.len() as int), rhs.node, names),
        Expression::Call { func, args } => closed_for(func.node, 13) && exists|k: int| 0 <= k && k + 2 <= t.len()
            && spells_expr(#[trigger] t.subrange(0, k), func.node, names)
            && t[k] == Token::LParen && t.last() == Token::RParen
            && spells_call_args(t.subrange(k + 1, t.len() - 1), e, names),
        Expression::If { cond, conseq, altern } => t.len() >= 1 && t[0] == Token::Keyword(Keyword::If)
            && exists|k: int, j: int| 1 <= k <= j <= t.len()
                && spells_expr(#[trigger] t.subrange(1, k), cond.node, names)
                && spells_block(#[trigger] t.subrange(k, j), conseq.node, names)
                && match altern {
                    None => j == t.len(),
                    Some(b) => j < t.len() && t[j] == Token::Keyword(Keyword::Else)
                        && spells_block(t.subrange(j + 1, t.len() as int), b.node, names),
                },
        Expression::While { cond, body } => t.len() >= 1 && t[0] == Token::Keyword(Keyword::While)
            && exists|k: int| 1 <= k <= t.len()
                && spells_expr(#[trigger] t.subrange(1, k), cond.node, names)
                && spells_block(t.subrange(k, t.len() as int), body.node, names),
        Expression::Break => t.len() == 1 && t[0] == Token::Keyword(Keyword::Break),
        Expression::Return { val } => t.len() >= 1 && t[0] == Token::Keyword(Keyword::Return)
            && spells_expr(t.subrange(1, t.len() as int), val.node, names),
        Expression::Unit => t.len() == 0,
    }
}

/// The arguments of a call: separated by commas, with an optional comma
/// after the last one
pub open spec fn spells_call_args(t: Seq<Token>, call: Expression, names: Seq<Seq<char>>) -> bool
    decreases call, call_arity(call) + 1,
{
    let n = call_arity(call);
    ||| args_with_commas(t, call, n, names)
    ||| (n > 0 && exists|k: int| 0 <= k <= t.len()
            && args_with_commas(#[trigger] t.subrange(0, k), call, (n - 1) as nat, names)
            && spells_expr(t.subrange(k, t.len() as int), call->Call_args@[n - 1].node, names))
}

/// The first `n` arguments of a call, each followed by a comma
pub open spec fn args_with_commas(t: Seq<Token>, call: Expression, n: nat, names: Seq<Seq<char>>) -> bool
    decreases call, n,
{
    if call is Call && 0 < n <= call->Call_args@.len() {
        t.len() >= 1 && t.last() == Token::Comma && exists|k: int| 0 <= k < t.len()
            && args_with_commas(#[trigger] t.subrange(0, k), call, (n - 1) as nat, names)
            && spells_expr(t.subrange(k, t.len() - 1), call->Call_args@[n - 1].node, names)
    } else {
        n == 0 && t.len() == 0
    }
}

/// A block: its statements, then semicolons, then its value (nothing where it
/// is `()`), in braces. A value that is an `if` or a `while` follows at least
/// one semicolon: without one, it would be read as a statement.
pub open spec fn spells_block(t: Seq<Token>, b: Block, names: Seq<Seq<char>>) -> bool
    decreases b, b.stmts@.len() + 1,
{
    t.len() >= 2 && t[0] == Token::LBrace && t.last() == Token::RBrace
        && exists|k: int, j: int| 1 <= k <= j <= t.len() - 1
            && spells_stmts(#[trigger] t.subrange(1, k), b, b.stmts@.len(), names)
            && all_semicolons(#[trigger] t.subrange(k, j))
            && ((b.expr.node is If || b.expr.node is While) ==> k < j)
            && spells_expr(t.subrange(j, t.len() - 1), b.expr.node, names)
}

/// The first `n` statements of a block
pub open spec fn spells_stmts(t: Seq<Token>, b: Block, n: nat, names: Seq<Seq<char>>) -> bool
    decreases b, n,
{
    if 0 < n <= b.stmts@.len() {
        exists|k: int| 0 <= k <= t.len()
            && spells_stmts(#[trigger] t.subrange(0, k), b, (n - 1) as nat, names)
            && spells_stmt(t.subrange(k, t.len() as int), b.stmts@[n - 1].node, names)
    } else {
        n == 0 && t.len() == 0
    }
}

/// A statement: a declaration; an `if` or a `while`; or an expression
/// after semicolons and before one (an `if` or a `while` read so follows at
/// least one semicolon)
pub open spec fn spells_stmt(t: Seq<Token>, s: Statement, names: Seq<Seq<char>>) -> bool
    decreases s, 0nat,
{
    match s {
        Statement::Declaration { binding, value } => t.len() >= 6 && t[0] == Token::Keyword(Keyword::Let)
            && spells_binding(t.subrange(1, 4), binding.node, names) && t[4] == Token::Eq
            && t.last() == Token::Semicolon && spells_expr(t.subrange(5, t.len() - 1), value.node, names),
        Statement::Expression { val } => {
            ||| ((val.node is If || val.node is While) && spells_expr(t, val.node, names))
            ||| (t.len() >= 1 && t.last() == Token::Semicolon && exists|j: int| 0 <= j < t.len()
                    && all_semicolons(#[trigger] t.subrange(0, j))
                    && ((val.node is If || val.node is While) ==> j > 0)
                    && spells_expr(t.subrange(j, t.len() - 1), val.node, names))
        },
    }
}

/// Parameters: bindings separated by commas, with an optional comma after
/// the last one
pub open spec fn spells_params(t: Seq<Token>, bs: Seq<Node<Binding>>, names: Seq<Seq<char>>) -> bool {
    ||| params_with_commas(t, bs, names)
    ||| (bs.len() > 0 && t.len() >= 3 && params_with_commas(t.subrange(0, t.len() - 3), bs.drop_last(), names)
            && spells_binding(t.subrange(t.len() - 3, t.len() as int), bs.last().node, names))
}

/// Bindings, each followed by a comma
pub open spec fn params_with_commas(t: Seq<Token>, bs: Seq<Node<Binding>>, names: Seq<Seq<char>>) -> bool
    decreases bs.len(),
{
    if bs.len() == 0 {
        t.len() == 0
    } else {
        t.len() >= 4 && params_with_commas(t.subrange(0, t.len() - 4), bs.drop_last(), names)
            && spells_binding(t.subrange(t.len() - 4, t.len() - 1), bs.last().node, names)
            && t.last() == Token::Comma
    }
}

/// A symbol: a function, a static or a constant
pub open spec fn spells_symbol(t: Seq<Token>, s: Symbol, names: Seq<Seq<char>>) -> bool {
    match s {
        Symbol::Function { name, bindings, ret_ty, body } => t.len() >= 3
            && t[0] == Token::Keyword(Keyword::Fn) && t[1] == Token::Ident(name.node) && t[2] == Token::LParen
            && exists|k: int, j: int| 3 <= k < j <= t.len()
                && spells_params(#[trigger] t.subrange(3, k), bindings@, names) && t[k] == Token::RParen
                && ((j == k + 1 && ret_ty == Type::Unit)
                    || (j == k + 3 && t[k + 1] == Token::RArrow && spells_type(t[k + 2], ret_ty, names)))
                && spells_block(#[trigger] t.subrange(j, t.len() as int), body.node, names),
        Symbol::Static { binding, value } => t.len() == 7 && t[0] == Token::Keyword(Keyword::Static)
            && spells_binding(t.subrange(1, 4), binding.node, names) && t[4] == Token::Eq
            && value.node is Literal && literal_of(t[5]) == Some(value.node->Literal_val) && t[6] == Token::Semicolon,
        Symbol::Constant { binding, value } => t.len() == 7 && t[0] == Token::Keyword(Keyword::Const)
            && spells_binding(t.subrange(1, 4), binding.node, names) && t[4] == Token::Eq
            && value.node is Literal && literal_of(t[5]) == Some(value.node->Literal_val) && t[6] == Token::Semicolon,
    }
}

/// A program: its symbols one after the other
pub open spec fn spells_program(t: Seq<Token>, p: Seq<Node<Symbol>>, names: Seq<Seq<char>>) -> bool
    decreases p.len(),
{
    if p.len() == 0 {
        t.len() == 0
    } else {
        exists|k: int| 0 <= k <= t.len()
            && spells_program(#[trigger] t.subrange(0, k), p.drop_last(), names)
            && spells_symbol(t.subrange(k, t.len() as int), p.last().node, names)
    }
}

/// Whether the comma-terminated arguments are read does not depend on the
/// arguments after them
pub proof fn lemma_args_with_commas_prefix(t: Seq<Token>, c1: Expression, c2: Expression, n: nat, names: Seq<Seq<char>>)
    requires
        c1 is Call,
        c2 is Call,
        n <= c1->Call_args@.len(),
        n <= c2->Call_args@.len(),
        forall|i: int| 0 <= i < n ==> #[trigger] c1->Call_args@[i].node == c2->Call_args@[i].node,
    ensures
        args_with_commas(t, c1, n, names) == args_with_commas(t, c2, n, names),
    decreases n,
{
    if n > 0 {
        assert forall|k: int| 0 <= k < t.len() implies args_with_commas(t.subrange(0, k), c1, (n - 1) as nat, names)
            == args_with_commas(t.subrange(0, k), c2, (n - 1) as nat, names) by {
            lemma_args_with_commas_prefix(t.subrange(0, k), c1, c2, (n - 1) as nat, names);
        }
        assert(c1->Call_args@[n - 1].node == c2->Call_args@[n - 1].node);
    }
}

/// Splitting the values of a token range
pub proof fn lemma_token_values_split(tokens: Seq<Spanned<Token>>, a: int, b: int, c: int)
    requires
        0 <= a <= b <= c <= tokens.len(),
    ensures
        token_values(tokens, a, c).subrange(0, b - a) == token_values(tokens, a, b),
        token_values(tokens, a, c).subrange(b - a, c - a) == token_values(tokens, b, c),
{
    assert(token_values(tokens, a, c).subrange(0, b - a) =~= token_values(tokens, a, b));
    assert(token_values(tokens, a, c).subrange(b - a, c - a) =~= token_values(tokens, b, c));
}


/// A prefix operation: its operator, then its operand
pub proof fn lemma_spells_prefix(tokens: Seq<Spanned<Token>>, a: int, c: int, e: Expression, names: Seq<Seq<char>>)
    requires
        0 <= a < c <= tokens.len(),
        e matches Expression::Prefix { op, item } && (tokens[a].value == Token::UnOp(op)
            || (tokens[a].value == Token::BinOp(BinOp::Sub) && op == UnOp::Neg))
            && spells_expr(token_values(tokens, a + 1, c), item.node, names),
    ensures
        spells_expr(token_values(tokens, a, c), e, names),
{
    lemma_token_values_split(tokens, a, a + 1, c);
}

/// A parenthesized expression
pub proof fn lemma_spells_group(tokens: Seq<Spanned<Token>>, a: int, c: int, e: Expression, names: Seq<Seq<char>>)
    requires
        0 <= a && a + 2 <= c <= tokens.len(),
        tokens[a].value == Token::LParen,
        tokens[c - 1].value == Token::RParen,
        e matches Expression::Group(inner) && spells_expr(token_values(tokens, a + 1, c - 1), inner.node, names),
    ensures
        spells_expr(token_values(tokens, a, c), e, names),
{
    lemma_token_values_split(tokens, a, a + 1, c);
    lemma_token_values_split(tokens, a + 1, c - 1, c);
    let t = token_values(tokens, a, c);
    assert(t.subrange(1, t.len() - 1) =~= token_values(tokens, a + 1, c - 1));
}

/// A binary operation, an assignment operation or an assignment: its
/// left-hand side from `a` to `m`, its operator at `m`, and its right-hand side
pub proof fn lemma_spells_binary(tokens: Seq<Spanned<Token>>, a: int, m: int, c: int, e: Expression, names: Seq<Seq<char>>)
    requires
        0 <= a <= m < c <= tokens.len(),
        match e {
            Expression::Infix { op, lhs, rhs } => closed_for(lhs.node, precedence_value(binop_precedence(op)) as int)
                && binding_power(rhs.node) > rhs_level(op)
                && spells_expr(token_values(tokens, a, m), lhs.node, names)
                && tokens[m].value == Token::BinOp(op) && spells_expr(token_values(tokens, m + 1, c), rhs.node, names),
            Expression::AssignOp { op, lhs, rhs } => op != BinOp::And && op != BinOp::Or
            && closed_for(lhs.node, precedence_value(binop_precedence(op)) as int)
            && binding_power(rhs.node) > rhs_level(op) && m + 1 < c
                && spells_expr(token_values(tokens, a, m), lhs.node, names)
                && tokens[m].value == Token::BinOp(op) && tokens[m + 1].value == Token::Eq
                && spells_expr(token_values(tokens, m + 2, c), rhs.node, names),
            Expression::Assign { lhs, rhs } => closed_for(lhs.node, 1) && spells_expr(token_values(tokens, a, m), lhs.node, names)
                && tokens[m].value == Token::Eq && spells_expr(token_values(tokens, m + 1, c), rhs.node, names),
            _ => false,
        },
    ensures
        spells_expr(token_values(tokens, a, c), e, names),
{
    let t = token_values(tokens, a, c);
    lemma_token_values_split(tokens, a, m, c);
    assert(t.subrange(0, m - a) == token_values(tokens, a, m));
    if e is AssignOp {
        lemma_token_values_split(tokens, a, m + 2, c);
        assert(t.subrange(m - a + 2, t.len() as int) == token_values(tokens, m + 2, c));
    } else {
        lemma_token_values_split(tokens, a, m + 1, c);
        assert(t.subrange(m - a + 1, t.len() as int) == token_values(tokens, m + 1, c));
    }
}

/// A call: the function from `a` to `m`, then its arguments in parentheses
pub proof fn lemma_spells_call(tokens: Seq<Spanned<Token>>, a: int, m: int, c: int, e: Expression, names: Seq<Seq<char>>)
    requires
        0 <= a <= m && m + 2 <= c <= tokens.len(),
        e matches Expression::Call { func, .. } && closed_for(func.node, 13)
            && spells_expr(token_values(tokens, a, m), func.node, names),
        tokens[m].value == Token::LParen,
        tokens[c - 1].value == Token::RParen,
        spells_call_args(token_values(tokens, m + 1, c - 1), e, names),
    ensures
        spells_expr(token_values(tokens, a, c), e, names),
{
    let t = token_values(tokens, a, c);
    lemma_token_values_split(tokens, a, m, c);
    assert(t.subrange(0, m - a) == token_values(tokens, a, m));
    assert(t.subrange(m - a + 1, t.len() - 1) =~= token_values(tokens, m + 1, c - 1));
}

/// A `return`, then its value (no tokens for `()`)
pub proof fn lemma_spells_return(tokens: Seq<Spanned<Token>>, a: int, c: int, e: Expression, names: Seq<Seq<char>>)
    requires
        0 <= a < c <= tokens.len(),
        tokens[a].value == Token::Keyword(Keyword::Return),
        e matches Expression::Return { val } && spells_expr(token_values(tokens, a + 1, c), val.node, names),
    ensures
        spells_expr(token_values(tokens, a, c), e, names),
{
    lemma_token_values_split(tokens, a, a + 1, c);
}

/// An `if`: its condition from `a + 1` to `k`, its first block from `k` to
/// `j`, and its `else` block after `j`
pub proof fn lemma_spells_if(tokens: Seq<Spanned<Token>>, a: int, k: int, j: int, c: int, e: Expression,
    names: Seq<Seq<char>>)
    requires
        0 <= a < k <= j <= c <= tokens.len(),
        tokens[a].value == Token::Keyword(Keyword::If),
        e matches Expression::If { cond, conseq, altern }
            && spells_expr(token_values(tokens, a + 1, k), cond.node, names)
            && spells_block(token_values(tokens, k, j), conseq.node, names)
            && match altern {
                None => j == c,
                Some(b) => j < c && tokens[j].value == Token::Keyword(Keyword::Else)
                    && spells_block(token_values(tokens, j + 1, c), b.node, names),
            },
    ensures
        spells_expr(token_values(tokens, a, c), e, names),
{
    let t = token_values(tokens, a, c);
    assert(t.subrange(1, k - a) =~= token_values(tokens, a + 1, k));
    assert(t.subrange(k - a, j - a) =~= token_values(tokens, k, j));
    if j < c {
        assert(t.subrange(j - a + 1, t.len() as int) =~= token_values(tokens, j + 1, c));
    }
}

/// A `while`: its condition from `a + 1` to `k`, then its body
pub proof fn lemma_spells_while(tokens: Seq<Spanned<Token>>, a: int, k: int, c: int, e: Expression,
    names: Seq<Seq<char>>)
    requires
        0 <= a < k <= c <= tokens.len(),
        tokens[a].value == Token::Keyword(Keyword::While),
        e matches Expression::While { cond, body }
            && spells_expr(token_values(tokens, a + 1, k), cond.node, names)
            && spells_block(token_values(tokens, k, c), body.node, names),
    ensures
        spells_expr(token_values(tokens, a, c), e, names),
{
    let t = token_values(tokens, a, c);
    assert(t.subrange(1, k - a) =~= token_values(tokens, a + 1, k));
    assert(t.subrange(k - a, t.len() as int) =~= token_values(tokens, k, c));
}


/// A block with the given statements (its value left open)
pub open spec fn stmts_block(stmts: Vec<Node<Statement>>) -> Block {
    Block { stmts, expr: Box::new(arbitrary()) }
}

/// Whether the first statements are read does not depend on the ones after
/// them or on the block's value
pub proof fn lemma_spells_stmts_prefix(t: Seq<Token>, b1: Block, b2: Block, n: nat, names: Seq<Seq<char>>)
    requires
        n <= b1.stmts@.len(),
        n <= b2.stmts@.len(),
        forall|i: int| 0 <= i < n ==> #[trigger] b1.stmts@[i].node == b2.stmts@[i].node,
    ensures
        spells_stmts(t, b1, n, names) == spells_stmts(t, b2, n, names),
    decreases n,
{
    if n > 0 {
        assert forall|k: int| 0 <= k <= t.len() implies spells_stmts(t.subrange(0, k), b1, (n - 1) as nat, names)
            == spells_stmts(t.subrange(0, k), b2, (n - 1) as nat, names) by {
            lemma_spells_stmts_prefix(t.subrange(0, k), b1, b2, (n - 1) as nat, names);
        }
        assert(b1.stmts@[n - 1].node == b2.stmts@[n - 1].node);
    }
}

/// One more statement, from `k` to `c`
pub proof fn lemma_spells_stmts_push(tokens: Seq<Spanned<Token>>, a: int, k: int, c: int, b: Block, n: nat,
    names: Seq<Seq<char>>)
    requires
        0 <= a <= k <= c <= tokens.len(),
        0 < n <= b.stmts@.len(),
        spells_stmts(token_values(tokens, a, k), b, (n - 1) as nat, names),
        spells_stmt(token_values(tokens, k, c), b.stmts@[n - 1].node, names),
    ensures
        spells_stmts(token_values(tokens, a, c), b, n, names),
{
    lemma_token_values_split(tokens, a, k, c);
    let t = token_values(tokens, a, c);
    assert(t.subrange(0, k - a) == token_values(tokens, a, k));
}

/// An expression statement: semicolons from `k` to `j`, the expression up to
/// `m`, and the semicolon at `m`
pub proof fn lemma_spells_expr_stmt(tokens: Seq<Spanned<Token>>, k: int, j: int, m: int, s: Statement,
    names: Seq<Seq<char>>)
    requires
        0 <= k <= j <= m < tokens.len(),
        all_semicolons(token_values(tokens, k, j)),
        tokens[m].value == Token::Semicolon,
        s matches Statement::Expression { val } && spells_expr(token_values(tokens, j, m), val.node, names)
            && ((val.node is If || val.node is While) ==> k < j),
    ensures
        spells_stmt(token_values(tokens, k, m + 1), s, names),
{
    let t = token_values(tokens, k, m + 1);
    assert(t.subrange(0, j - k) =~= token_values(tokens, k, j));
    assert(t.subrange(j - k, t.len() - 1) =~= token_values(tokens, j, m));
}

/// A block: `{`, its statements up to `k`, semicolons up to `j`, its value,
/// and `}` at `c - 1`
pub proof fn lemma_spells_block(tokens: Seq<Spanned<Token>>, a: int, k: int, j: int, c: int, b: Block,
    names: Seq<Seq<char>>)
    requires
        0 <= a && a + 1 <= k <= j <= c - 1 && c <= tokens.len(),
        tokens[a].value == Token::LBrace,
        tokens[c - 1].value == Token::RBrace,
        spells_stmts(token_values(tokens, a + 1, k), b, b.stmts@.len(), names),
        all_semicolons(token_values(tokens, k, j)),
        (b.expr.node is If || b.expr.node is While) ==> k < j,
        spells_expr(token_values(tokens, j, c - 1), b.expr.node, names),
    ensures
        spells_block(token_values(tokens, a, c), b, names),
{
    let t = token_values(tokens, a, c);
    assert(t.subrange(1, k - a) =~= token_values(tokens, a + 1, k));
    assert(t.subrange(k - a, j - a) =~= token_values(tokens, k, j));
    assert(t.subrange(j - a, t.len() - 1) =~= token_values(tokens, j, c - 1));
}

} // verus!
