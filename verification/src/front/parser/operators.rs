//! Expressions of operators, and how the tokens that spell one are read
//!
//! An expression of literals, variables, prefix and binary operations and
//! assignments is read from its tokens alone: the parser gives it back
//! whenever the tokens spell it and the token after them ends it. A binary
//! operation is read along the left spine of the expression: first its
//! leftmost operand, then each operator with its right-hand side.

use vstd::prelude::*;
use crate::front::ast::{BinOp, Block, Expression, Node, Spanned, Statement};
use crate::front::parser::parselet::{binding_power, binop_precedence, literal_of, precedence_of, precedence_value};
use crate::front::parser::spelling::{args_with_commas, rhs_level, spells_call_args, spells_expr, token_values};
use crate::front::tokens::Token;

verus! {

/// An expression of operators: literals, variables, prefix and binary
/// operations, assignments, calls without arguments and parentheses. `follow` is the infix precedence of the token
/// after it: a prefix operation takes all operators after it, so the token
/// after one has none.
pub open spec fn operator_expr(e: Expression, follow: u32) -> bool
    decreases e,
{
    match e {
        Expression::Literal { .. } => true,
        Expression::Variable { .. } => true,
        Expression::Prefix { item, .. } => follow == 0 && operator_expr(item.node, 0),
        Expression::Infix { op, lhs, rhs } => operator_expr(lhs.node, precedence_value(binop_precedence(op)))
            && operator_expr(rhs.node, follow),
        Expression::Assign { lhs, rhs } => operator_expr(lhs.node, 1) && operator_expr(rhs.node, follow),
        Expression::Call { func, args } => args@.len() == 0 && operator_expr(func.node, 13),
        Expression::Group(inner) => operator_expr(inner.node, 0),
        _ => false,
    }
}

/// The number of node ids the parser hands out for an expression of
/// operators: a literal takes one, a variable two (its name and itself)
pub open spec fn expr_ids(e: Expression) -> int
    decreases e,
{
    match e {
        Expression::Literal { .. } => 1,
        Expression::Variable { .. } => 2,
        Expression::Prefix { item, .. } => 1 + expr_ids(item.node),
        Expression::Infix { lhs, rhs, .. } => 1 + expr_ids(lhs.node) + expr_ids(rhs.node),
        Expression::Assign { lhs, rhs } => 1 + expr_ids(lhs.node) + expr_ids(rhs.node),
        Expression::Call { func, .. } => 1 + expr_ids(func.node),
        Expression::Group(inner) => 1 + expr_ids(inner.node),
        _ => 0,
    }
}

/// Two expressions of operators with the same operators, literals and
/// names, whatever the places and ids of their nodes
pub open spec fn same_shape(a: Expression, b: Expression) -> bool
    decreases a,
{
    match a {
        Expression::Literal { .. } => b == a,
        Expression::Variable { name } => b matches Expression::Variable { name: n } && n.node == name.node,
        Expression::Prefix { op, item } => b matches Expression::Prefix { op: o, item: i }
            && o == op && same_shape(item.node, i.node),
        Expression::Infix { op, lhs, rhs } => b matches Expression::Infix { op: o, lhs: l, rhs: r }
            && o == op && same_shape(lhs.node, l.node) && same_shape(rhs.node, r.node),
        Expression::Assign { lhs, rhs } => b matches Expression::Assign { lhs: l, rhs: r }
            && same_shape(lhs.node, l.node) && same_shape(rhs.node, r.node),
        Expression::Call { func, args } => b matches Expression::Call { func: f, args: a }
            && args@.len() == 0 && a@.len() == 0 && same_shape(func.node, f.node),
        Expression::Group(inner) => b matches Expression::Group(i) && same_shape(inner.node, i.node),
        _ => false,
    }
}

/// A token that can start an expression of operators
pub open spec fn starts_operand(t: Token) -> bool {
    literal_of(t) is Some || t is Ident || t is UnOp || t == Token::BinOp(BinOp::Sub) || t == Token::LParen
}

/// The precedence of the token after the first `m` of the tokens `t`, where
/// `follow` is that of the token after all of them
pub open spec fn follow_at(t: Seq<Token>, m: int, follow: u32) -> u32 {
    if m < t.len() { precedence_of(t[m]) } else { follow }
}

/// The token after a binary operation does not continue its right-hand
/// side, and the token after an assignment has no infix precedence
pub open spec fn follow_ok(e: Expression, follow: u32) -> bool {
    match e {
        Expression::Infix { op, .. } => follow <= rhs_level(op),
        Expression::Assign { .. } => follow == 0,
        _ => true,
    }
}

/// The tokens `t` read `lhs`, then the token `tok` at `j`, then `rhs`
pub open spec fn splits_at(t: Seq<Token>, lhs: Expression, tok: Token, rhs: Expression, j: int, names: Seq<Seq<char>>) -> bool {
    &&& 0 <= j < t.len()
    &&& spells_expr(t.subrange(0, j), lhs, names)
    &&& t[j] == tok
    &&& spells_expr(t.subrange(j + 1, t.len() as int), rhs, names)
}

/// Where the tokens `t` split into `lhs`, `tok` and `rhs`, if they do
pub open spec fn split_of(t: Seq<Token>, lhs: Expression, tok: Token, rhs: Expression, names: Seq<Seq<char>>) -> int {
    choose|j: int| splits_at(t, lhs, tok, rhs, j, names)
}

/// `s` is on the left spine of `e` (`e`, its left-hand side, that one's, and
/// so on), spelled by the first `m` of the tokens `t` that spell `e`
pub open spec fn spine_at(t: Seq<Token>, e: Expression, s: Expression, m: int, names: Seq<Seq<char>>) -> bool
    decreases e,
{
    ||| (s == e && m == t.len())
    ||| match e {
        Expression::Infix { op, lhs, rhs } => {
            let j = split_of(t, lhs.node, Token::BinOp(op), rhs.node, names);
            splits_at(t, lhs.node, Token::BinOp(op), rhs.node, j, names)
                && spine_at(t.subrange(0, j), lhs.node, s, m, names)
        },
        Expression::Assign { lhs, rhs } => {
            let j = split_of(t, lhs.node, Token::Eq, rhs.node, names);
            splits_at(t, lhs.node, Token::Eq, rhs.node, j, names)
                && spine_at(t.subrange(0, j), lhs.node, s, m, names)
        },
        Expression::Call { func, .. } => {
            let j = t.len() - 2;
            &&& 0 <= j
            &&& spells_expr(t.subrange(0, j), func.node, names)
            &&& t[j] == Token::LParen
            &&& t[j + 1] == Token::RParen
            &&& spine_at(t.subrange(0, j), func.node, s, m, names)
        },
        _ => false,
    }
}

/// An expression of operators takes at least one node id
pub proof fn lemma_expr_ids_positive(e: Expression, follow: u32)
    requires
        operator_expr(e, follow),
    ensures
        expr_ids(e) >= 1,
    decreases e,
{
    match e {
        Expression::Prefix { item, .. } => lemma_expr_ids_positive(item.node, 0),
        Expression::Infix { op, lhs, rhs } => {
            lemma_expr_ids_positive(lhs.node, precedence_value(binop_precedence(op)));
            lemma_expr_ids_positive(rhs.node, follow);
        },
        Expression::Assign { lhs, rhs } => {
            lemma_expr_ids_positive(lhs.node, 1);
            lemma_expr_ids_positive(rhs.node, follow);
        },
        Expression::Call { func, .. } => lemma_expr_ids_positive(func.node, 13),
        Expression::Group(inner) => lemma_expr_ids_positive(inner.node, 0),
        _ => {},
    }
}

/// Every expression binds with a power of at least one
pub proof fn lemma_binding_power_positive(e: Expression)
    ensures
        binding_power(e) >= 1,
{
}

/// A call without arguments: its function, then `(` and `)`
pub proof fn lemma_call_split(t: Seq<Token>, e: Expression, names: Seq<Seq<char>>)
    requires
        e matches Expression::Call { args, .. } && args@.len() == 0,
        spells_expr(t, e, names),
    ensures
        t.len() >= 2,
        spells_expr(t.subrange(0, t.len() - 2), e->Call_func.node, names),
        t[t.len() - 2] == Token::LParen,
        t[t.len() - 1] == Token::RParen,
{
    let k = choose|k: int| 0 <= k && k + 2 <= t.len()
        && spells_expr(#[trigger] t.subrange(0, k), e->Call_func.node, names)
        && t[k] == Token::LParen && t.last() == Token::RParen
        && spells_call_args(t.subrange(k + 1, t.len() - 1), e, names);
    assert(args_with_commas(t.subrange(k + 1, t.len() - 1), e, 0, names));
    assert(k == t.len() - 2);
}

/// The tokens that spell an expression of operators start with one that can
/// start it
pub proof fn lemma_first_token(t: Seq<Token>, e: Expression, follow: u32, names: Seq<Seq<char>>)
    requires
        operator_expr(e, follow),
        spells_expr(t, e, names),
    ensures
        t.len() >= 1,
        starts_operand(t[0]),
        expr_ids(e) >= 1,
    decreases e,
{
    match e {
        Expression::Prefix { item, .. } => {
            lemma_first_token(t.subrange(1, t.len() as int), item.node, 0, names);
        },
        Expression::Infix { op, lhs, rhs } => {
            let j = choose|j: int| 0 <= j < t.len() && spells_expr(#[trigger] t.subrange(0, j), lhs.node, names)
                && t[j] == Token::BinOp(op) && spells_expr(t.subrange(j + 1, t.len() as int), rhs.node, names);
            lemma_first_token(t.subrange(0, j), lhs.node, precedence_value(binop_precedence(op)), names);
            lemma_first_token(t.subrange(j + 1, t.len() as int), rhs.node, follow, names);
            assert(t.subrange(0, j)[0] == t[0]);
        },
        Expression::Assign { lhs, rhs } => {
            let j = choose|j: int| 0 <= j < t.len() && spells_expr(#[trigger] t.subrange(0, j), lhs.node, names)
                && t[j] == Token::Eq && spells_expr(t.subrange(j + 1, t.len() as int), rhs.node, names);
            lemma_first_token(t.subrange(0, j), lhs.node, 1, names);
            lemma_first_token(t.subrange(j + 1, t.len() as int), rhs.node, follow, names);
            assert(t.subrange(0, j)[0] == t[0]);
        },
        Expression::Call { func, .. } => {
            lemma_call_split(t, e, names);
            lemma_first_token(t.subrange(0, t.len() - 2), func.node, 13, names);
            assert(t.subrange(0, t.len() - 2)[0] == t[0]);
        },
        Expression::Group(inner) => {
            lemma_first_token(t.subrange(1, t.len() - 1), inner.node, 0, names);
        },
        _ => {},
    }
}

/// An expression of operators is not one that ends with a construct that
/// stops at no token
pub proof fn lemma_not_open(e: Expression, follow: u32)
    requires
        operator_expr(e, follow),
    ensures
        !(e is If || e is While || e is Return || e is Break),
{
}

/// The leftmost operand of an expression of operators: where reading it
/// starts. It is a literal, a variable or a prefix operation, and a prefix
/// operation is the whole expression.
pub proof fn lemma_spine_head(t: Seq<Token>, e: Expression, follow: u32, names: Seq<Seq<char>>) -> (r: (Expression, int))
    requires
        operator_expr(e, follow),
        spells_expr(t, e, names),
    ensures
        spine_at(t, e, r.0, r.1, names),
        1 <= r.1 <= t.len(),
        r.0 is Literal || r.0 is Variable || r.0 is Prefix || r.0 is Group,
        r.0 is Prefix ==> r.0 == e && r.1 == t.len(),
        spells_expr(t.subrange(0, r.1), r.0, names),
        operator_expr(r.0, follow_at(t, r.1, follow)),
        expr_ids(r.0) <= expr_ids(e),
    decreases e,
{
    lemma_first_token(t, e, follow, names);
    match e {
        Expression::Infix { op, lhs, rhs } => {
            assert(splits_at(t, lhs.node, Token::BinOp(op), rhs.node,
                choose|j: int| 0 <= j < t.len() && spells_expr(#[trigger] t.subrange(0, j), lhs.node, names)
                    && t[j] == Token::BinOp(op) && spells_expr(t.subrange(j + 1, t.len() as int), rhs.node, names), names));
            let j = split_of(t, lhs.node, Token::BinOp(op), rhs.node, names);
            let f = precedence_value(binop_precedence(op));
            let tl = t.subrange(0, j);
            let (s, m) = lemma_spine_head(tl, lhs.node, f, names);
            lemma_first_token(t.subrange(j + 1, t.len() as int), rhs.node, follow, names);
            assert(tl.subrange(0, m) =~= t.subrange(0, m));
            if s is Prefix {
                lemma_not_open(s->Prefix_item.node, 0);
            }
            if m < tl.len() {
                assert(tl[m] == t[m]);
            }
            return (s, m);
        },
        Expression::Assign { lhs, rhs } => {
            assert(splits_at(t, lhs.node, Token::Eq, rhs.node,
                choose|j: int| 0 <= j < t.len() && spells_expr(#[trigger] t.subrange(0, j), lhs.node, names)
                    && t[j] == Token::Eq && spells_expr(t.subrange(j + 1, t.len() as int), rhs.node, names), names));
            let j = split_of(t, lhs.node, Token::Eq, rhs.node, names);
            let tl = t.subrange(0, j);
            let (s, m) = lemma_spine_head(tl, lhs.node, 1, names);
            lemma_first_token(t.subrange(j + 1, t.len() as int), rhs.node, follow, names);
            assert(tl.subrange(0, m) =~= t.subrange(0, m));
            if s is Prefix {
                lemma_not_open(s->Prefix_item.node, 0);
            }
            if m < tl.len() {
                assert(tl[m] == t[m]);
            }
            return (s, m);
        },
        Expression::Call { func, .. } => {
            lemma_call_split(t, e, names);
            let j = t.len() - 2;
            let tl = t.subrange(0, j);
            let (s, m) = lemma_spine_head(tl, func.node, 13, names);
            assert(tl.subrange(0, m) =~= t.subrange(0, m));
            if s is Prefix {
                lemma_not_open(s->Prefix_item.node, 0);
            }
            if m < tl.len() {
                assert(tl[m] == t[m]);
            }
            return (s, m);
        },
        _ => {
            assert(t.subrange(0, t.len() as int) =~= t);
            return (e, t.len() as int);
        },
    }
}


/// The operation just above `s` on the spine of `e`: the token after `s` is
/// its operator, which binds at least as tightly as `e`, and its right-hand
/// side follows, ended by a token that does not continue it
pub proof fn lemma_spine_next(t: Seq<Token>, e: Expression, s: Expression, m: int, follow: u32, names: Seq<Seq<char>>) -> (r: (Expression, int))
    requires
        operator_expr(e, follow),
        follow_ok(e, follow),
        spells_expr(t, e, names),
        spine_at(t, e, s, m, names),
        !(s == e && m == t.len()),
    ensures
        spine_at(t, e, r.0, r.1, names),
        0 <= m < r.1 <= t.len(),
        binding_power(r.0) >= binding_power(e),
        precedence_of(t[m]) == binding_power(r.0),
        operator_expr(r.0, follow_at(t, r.1, follow)),
        follow_ok(r.0, follow_at(t, r.1, follow)),
        expr_ids(r.0) <= expr_ids(e),
        match r.0 {
            Expression::Infix { op, lhs, rhs } => lhs.node == s && t[m] == Token::BinOp(op)
                && binding_power(rhs.node) > rhs_level(op)
                && spells_expr(t.subrange(m + 1, r.1), rhs.node, names),
            Expression::Assign { lhs, rhs } => lhs.node == s && t[m] == Token::Eq
                && spells_expr(t.subrange(m + 1, r.1), rhs.node, names),
            Expression::Call { func, args } => func.node == s && t[m] == Token::LParen && r.1 == m + 2
                && t[m + 1] == Token::RParen && args@.len() == 0,
            _ => false,
        },
    decreases e,
{
    match e {
        Expression::Infix { op, lhs, rhs } => {
            let j = split_of(t, lhs.node, Token::BinOp(op), rhs.node, names);
            let tl = t.subrange(0, j);
            let f = precedence_value(binop_precedence(op));
            if s == lhs.node && m == j {
                return (e, t.len() as int);
            }
            lemma_not_open(lhs.node, f);
            assert(operator_expr(lhs.node, f));
            match lhs.node {
                Expression::Infix { rhs: r2, .. } => lemma_not_open(r2.node, f),
                Expression::Assign { rhs: r2, .. } => lemma_not_open(r2.node, f),
                _ => {},
            }
            lemma_expr_ids_positive(rhs.node, follow);
            let (p, mp) = lemma_spine_next(tl, lhs.node, s, m, f, names);
            assert(tl[m] == t[m]);
            assert(tl.subrange(m + 1, mp) =~= t.subrange(m + 1, mp));
            if mp < tl.len() {
                assert(tl[mp] == t[mp]);
            }
            return (p, mp);
        },
        Expression::Assign { lhs, rhs } => {
            let j = split_of(t, lhs.node, Token::Eq, rhs.node, names);
            let tl = t.subrange(0, j);
            if s == lhs.node && m == j {
                return (e, t.len() as int);
            }
            lemma_not_open(lhs.node, 1);
            assert(operator_expr(lhs.node, 1));
            match lhs.node {
                Expression::Assign { rhs: r2, .. } => lemma_not_open(r2.node, 1),
                _ => {},
            }
            lemma_binding_power_positive(lhs.node);
            lemma_expr_ids_positive(rhs.node, follow);
            let (p, mp) = lemma_spine_next(tl, lhs.node, s, m, 1, names);
            assert(tl[m] == t[m]);
            assert(tl.subrange(m + 1, mp) =~= t.subrange(m + 1, mp));
            if mp < tl.len() {
                assert(tl[mp] == t[mp]);
            }
            return (p, mp);
        },
        Expression::Call { func, .. } => {
            lemma_call_split(t, e, names);
            let j = t.len() - 2;
            let tl = t.subrange(0, j);
            if s == func.node && m == j {
                return (e, t.len() as int);
            }
            assert(operator_expr(func.node, 13));
            lemma_not_open(func.node, 13);
            match func.node {
                Expression::Infix { rhs: r2, .. } => lemma_not_open(r2.node, 13),
                Expression::Assign { rhs: r2, .. } => lemma_not_open(r2.node, 13),
                _ => {},
            }
            let (p, mp) = lemma_spine_next(tl, func.node, s, m, 13, names);
            assert(tl[m] == t[m]);
            assert(tl.subrange(m + 1, mp) =~= t.subrange(m + 1, mp));
            if mp < tl.len() {
                assert(tl[mp] == t[mp]);
            }
            if m + 1 < tl.len() {
                assert(tl[m + 1] == t[m + 1]);
            }
            return (p, mp);
        },
        _ => {
            assert(false);
            return (e, 0);
        },
    }
}


/// A range of the values of a token range
pub proof fn lemma_token_values_sub(tokens: Seq<Spanned<Token>>, a: int, c: int, x: int, y: int)
    requires
        0 <= a <= c <= tokens.len(),
        0 <= x <= y <= c - a,
    ensures
        token_values(tokens, a, c).subrange(x, y) == token_values(tokens, a + x, a + y),
{
    assert(token_values(tokens, a, c).subrange(x, y) =~= token_values(tokens, a + x, a + y));
}


/// The node of the left spine of `e` spelled by the first `m` of the tokens
/// `t` that spell `e`
pub open spec fn spine_node(t: Seq<Token>, e: Expression, m: int, names: Seq<Seq<char>>) -> Expression
    decreases e,
{
    if m < t.len() {
        match e {
            Expression::Infix { op, lhs, rhs } =>
                spine_node(t.subrange(0, split_of(t, lhs.node, Token::BinOp(op), rhs.node, names)), lhs.node, m, names),
            Expression::Assign { lhs, rhs } =>
                spine_node(t.subrange(0, split_of(t, lhs.node, Token::Eq, rhs.node, names)), lhs.node, m, names),
            Expression::Call { func, .. } => spine_node(t.subrange(0, t.len() - 2), func.node, m, names),
            _ => e,
        }
    } else {
        e
    }
}

/// A node on the spine is the one at its place
pub proof fn lemma_spine_node(t: Seq<Token>, e: Expression, s: Expression, m: int, names: Seq<Seq<char>>)
    requires
        spine_at(t, e, s, m, names),
    ensures
        s == spine_node(t, e, m, names),
        m <= t.len(),
    decreases e,
{
    if s == e && m == t.len() {
    } else {
        match e {
            Expression::Infix { op, lhs, rhs } => {
                let j = split_of(t, lhs.node, Token::BinOp(op), rhs.node, names);
                lemma_spine_node(t.subrange(0, j), lhs.node, s, m, names);
            },
            Expression::Assign { lhs, rhs } => {
                let j = split_of(t, lhs.node, Token::Eq, rhs.node, names);
                lemma_spine_node(t.subrange(0, j), lhs.node, s, m, names);
            },
            Expression::Call { func, .. } => {
                lemma_spine_node(t.subrange(0, t.len() - 2), func.node, s, m, names);
            },
            _ => {},
        }
    }
}


/// A statement of an expression of operators
pub open spec fn plain_stmt(s: Statement) -> bool {
    s matches Statement::Expression { val } && operator_expr(val.node, 0)
}

/// A block whose statements are expressions of operators, each followed by
/// a semicolon, and whose value is one too (or nothing)
pub open spec fn plain_block(b: Block) -> bool {
    &&& forall|j: int| 0 <= j < b.stmts@.len() ==> plain_stmt((#[trigger] b.stmts@[j]).node)
    &&& (b.expr.node is Unit || operator_expr(b.expr.node, 0))
}

/// The node ids the parser hands out for statements of expressions: those
/// of each expression and one for each statement
pub open spec fn stmts_ids(ss: Seq<Node<Statement>>) -> int
    decreases ss.len(),
{
    if ss.len() == 0 {
        0
    } else {
        stmts_ids(ss.drop_last()) + 1 + match ss.last().node {
            Statement::Expression { val } => expr_ids(val.node),
            Statement::Declaration { .. } => 0,
        }
    }
}

/// The node ids the parser hands out for a plain block: those of its
/// statements and value (one for a missing value) and one for the block
pub open spec fn block_ids(b: Block) -> int {
    stmts_ids(b.stmts@) + (if b.expr.node is Unit { 1 } else { expr_ids(b.expr.node) }) + 1
}

/// Two statements of expressions of the same shape
pub open spec fn same_stmt_shape(a: Statement, b: Statement) -> bool {
    a matches Statement::Expression { val: v } && b matches Statement::Expression { val: w } && same_shape(v.node, w.node)
}

/// Two plain blocks with statements and values of the same shape
pub open spec fn same_block_shape(a: Block, b: Block) -> bool {
    &&& b.stmts@.len() == a.stmts@.len()
    &&& forall|j: int| 0 <= j < a.stmts@.len() ==> same_stmt_shape((#[trigger] a.stmts@[j]).node, b.stmts@[j].node)
    &&& (a.expr.node is Unit ==> b.expr.node is Unit)
    &&& (!(a.expr.node is Unit) ==> same_shape(a.expr.node, b.expr.node))
}

/// The ids of a prefix of the statements are no more than those of all
pub proof fn lemma_stmts_ids_prefix(ss: Seq<Node<Statement>>, i: int)
    requires
        0 <= i <= ss.len(),
        forall|j: int| 0 <= j < ss.len() ==> plain_stmt((#[trigger] ss[j]).node),
    ensures
        0 <= stmts_ids(ss.subrange(0, i)) <= stmts_ids(ss),
    decreases ss.len(),
{
    if i == ss.len() {
        assert(ss.subrange(0, i) =~= ss);
    }
    if ss.len() > 0 {
        let init = ss.drop_last();
        assert forall|j: int| 0 <= j < init.len() implies plain_stmt((#[trigger] init[j]).node) by {
            assert(init[j] == ss[j]);
        }
        assert(ss.last() == ss[ss.len() - 1]);
        lemma_expr_ids_positive(ss.last().node->Expression_val.node, 0);
        if i < ss.len() {
            lemma_stmts_ids_prefix(init, i);
            assert(init.subrange(0, i) =~= ss.subrange(0, i));
        } else {
            lemma_stmts_ids_prefix(init, init.len() as int);
            assert(init.subrange(0, init.len() as int) =~= init);
        }
    }
}

} // verus!
