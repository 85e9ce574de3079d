//! The parser: transform a stream of tokens into an Abstract Syntax Tree
//!
//! The parser uses a straight forward recursive descent strategy (each
//! grammar rule has a corresponding parser method, e.g. `parse_symbol`).
//! For expressions a Pratt parser is used (see `parselet`).
//!
//! # The grammar (pseudo EBNF)
//!
//! ```ignore
//! program:        symbol*
//! symbol:         function | static | constant
//! function:       k_fn IDENT LPAREN (binding COMMA)* binding? RPAREN (RARROW TYPE)? block
//! static:         k_static binding EQ literal SEMICOLON
//! constant:       k_const binding EQ literal SEMICOLON
//! binding:        IDENT COLON TYPE
//! block:          LBRACE (declaration | expression SEMICOLON)* expr? RBRACE
//! declaration:    k_let binding EQ expression SEMICOLON
//! expression:     call | infix | prefix | literal | if | while | assign
//!                 | assign_op | break | return | variable | group
//! ```

pub mod operators;
pub mod parselet;
pub mod spelling;

use vstd::prelude::*;
use crate::driver::interner::Ident;
use crate::driver::session::{Diagnostic, Session};
use crate::front::ast::{Binding, Block, Expression, Node, NodeId, Program, Span, Spanned, Statement, Symbol, Type, Value, builtin_type_name};
use crate::front::lexer::{Lexer, spanned_text, spans_text, lemma_lexes_upto_extend, lemma_next_start_ge, lemma_token_ends_unique, lexes, lexes_all, lexes_next, lexes_upto,
    next_start, skippable, token_after, token_end, token_text};
use crate::front::parser::parselet::{InfixParselet, ParseletManager, PrefixParselet, binding_power, infix_precedence, infix_table, literal_of, precedence_of, prefix_table};
use crate::front::tokens::{Keyword, Token, push_token, token_type};
use crate::front::parser::operators::{expr_ids, follow_at, lemma_binding_power_positive, lemma_first_token, lemma_spine_head, lemma_spine_next,
    lemma_spine_node, lemma_token_values_sub, operator_expr, same_shape, spine_at, spine_node, starts_operand,
    block_ids, lemma_expr_ids_positive, lemma_stmts_ids_prefix, plain_block, plain_stmt, same_block_shape, same_stmt_shape, stmts_ids};
use crate::front::parser::spelling::rhs_level;
use crate::front::parser::spelling::{all_semicolons, closed_for, is_open, params_with_commas, spells_params, spells_type, lemma_spells_binary, lemma_spells_block, lemma_spells_expr_stmt,
    lemma_spells_stmts_prefix, lemma_spells_stmts_push, spells_stmts, stmts_block, lemma_spells_call, lemma_spells_group, lemma_spells_if, lemma_spells_prefix,
    lemma_spells_return, lemma_spells_while, lemma_token_values_split, spells_binding, spells_block, spells_expr, spells_program,
    spells_stmt, spells_symbol, token_values};
use crate::util::text::{push_str};

verus! {

pub struct Parser {
    /// The tokens of the source; the last one is `EOF`
    pub tokens: Vec<Spanned<Token>>,
    /// The index of the current token
    pub pos: usize,
    /// The error the lexer stopped with, reported when the parser reaches the
    /// end of the tokens read before it
    pub lex_error: Option<Diagnostic>,
    /// The id of the next node
    pub next_id: u32,
    pub session: Session,
    pub manager: ParseletManager,
}

impl Parser {
    // --- The specification view -----------------------------------------------

    pub open spec fn wf(&self) -> bool {
        &&& self.tokens@.len() > 0
        &&& self.pos < self.tokens@.len()
        &&& self.tokens@.last().value == Token::EOF
        &&& forall|i: int| 0 <= i < self.tokens@.len() - 1 ==> #[trigger] self.tokens@[i].value != Token::EOF
        &&& forall|i: int| 0 <= i < self.tokens@.len() && #[trigger] self.tokens@[i].value is Ident
            ==> self.tokens@[i].value->Ident_0.0 < self.session.interner@.len()
        &&& self.session.wf()
        &&& self.lex_error is Some ==> self.pos < self.tokens@.len() - 1
    }

    /// The number of tokens left (the current one included)
    pub open spec fn remaining(&self) -> nat {
        (self.tokens@.len() - self.pos) as nat
    }

    /// The values of the tokens `from..to`
    pub open spec fn read(&self, from: int, to: int) -> Seq<Token> {
        token_values(self.tokens@, from, to)
    }

    /// The names the interner knows
    pub open spec fn names(&self) -> Seq<Seq<char>> {
        self.session.interner@
    }

    /// The current token
    pub open spec fn current(&self) -> Token {
        self.tokens@[self.pos as int].value
    }

    /// The next `k` moves along the tokens succeed: none of them reaches the
    /// end where the lexer stopped with an error
    pub open spec fn advances(&self, k: int) -> bool {
        self.lex_error is None || self.pos + k < self.tokens@.len() - 1
    }

    /// At least `k` more node ids can be handed out
    pub open spec fn ids_left(&self, k: int) -> bool {
        self.next_id + k <= u32::MAX
    }

    /// The tokens from the current one up to `k` spell `e`, an expression of
    /// operators that binds tighter than `precedence`; the token at `k` does
    /// not continue it, the tokens before `k` can be moved past, and the node
    /// ids for `e` can be handed out
    pub open spec fn reads_expr_at(&self, e: Expression, k: int, precedence: u32) -> bool {
        &&& self.pos <= k < self.tokens@.len()
        &&& spells_expr(self.read(self.pos as int, k), e, self.names())
        &&& operator_expr(e, precedence_of(self.tokens@[k].value))
        &&& binding_power(e) > precedence
        &&& precedence_of(self.tokens@[k].value) <= precedence
        &&& (self.lex_error is None || k < self.tokens@.len() - 1)
        &&& self.ids_left(expr_ids(e))
    }

    /// The tokens from the current one up to `k` read the plain block `b`,
    /// and the node ids for `b` can be handed out
    pub open spec fn reads_block_at(&self, b: Block, k: int, cuts: Seq<int>) -> bool {
        self.reads_block_from(self.pos as int, self.next_id as int, b, k, cuts)
    }

    /// The tokens from `p` up to `k` read the plain block `b`: `{`, each
    /// statement's expression from `cuts[j]` followed by `;`, the value from
    /// `cuts[n]` (nothing where it is `()`), and `}` before `k`; the tokens
    /// before `k` can be moved past, and the node ids for `b` can be handed
    /// out from `next_id` on
    pub open spec fn reads_block_from(&self, p: int, next_id: int, b: Block, k: int, cuts: Seq<int>) -> bool {
        let n = b.stmts@.len() as int;
        &&& plain_block(b)
        &&& 0 <= p < k < self.tokens@.len()
        &&& self.tokens@[p].value == Token::LBrace
        &&& self.tokens@[k - 1].value == Token::RBrace
        &&& cuts.len() == n + 1
        &&& cuts[0] == p + 1
        &&& forall|j: int| 0 <= j < n ==> {
            &&& cuts[j] < cuts[j + 1]
            &&& self.tokens@[cuts[j + 1] - 1].value == Token::Semicolon
            &&& spells_expr(self.read(cuts[j], cuts[j + 1] - 1), (#[trigger] b.stmts@[j]).node->Expression_val.node, self.names())
        }
        &&& forall|j: int| 0 <= j <= n ==> #[trigger] cuts[j] <= cuts[n]
        &&& cuts[n] <= k - 1
        &&& (b.expr.node is Unit ==> cuts[n] == k - 1)
        &&& (!(b.expr.node is Unit) ==> spells_expr(self.read(cuts[n], k - 1), b.expr.node, self.names()))
        &&& (self.lex_error is None || k < self.tokens@.len() - 1)
        &&& next_id + block_ids(b) <= u32::MAX
    }

    /// The tokens from the current one up to `k` read `fn NAME ( )` and the
    /// plain block `b`; the node ids for the function can be handed out
    pub open spec fn reads_plain_fn_at(&self, b: Block, k: int, cuts: Seq<int>) -> bool {
        self.reads_plain_fn_from(self.pos as int, self.next_id as int, b, k, cuts)
    }

    /// The tokens from `p` up to `k` read `fn NAME ( )` and the plain block
    /// `b`; the node ids for the function can be handed out from `next_id` on
    pub open spec fn reads_plain_fn_from(&self, p: int, next_id: int, b: Block, k: int, cuts: Seq<int>) -> bool {
        &&& 0 <= p && p + 4 < self.tokens@.len()
        &&& self.tokens@[p].value == Token::Keyword(Keyword::Fn)
        &&& self.tokens@[p + 1].value is Ident
        &&& self.tokens@[p + 2].value == Token::LParen
        &&& self.tokens@[p + 3].value == Token::RParen
        &&& self.reads_block_from(p + 4, next_id + 1, b, k, cuts)
        &&& next_id + block_ids(b) + 2 <= u32::MAX
    }

    /// Where the `i`-th of the functions `fs` (each a body, where it ends
    /// and where its statements start) starts
    pub open spec fn plain_fn_start(&self, fs: Seq<(Block, int, Seq<int>)>, i: int) -> int {
        if i <= 0 { self.pos as int } else { fs[i - 1].1 }
    }

    /// The tokens from the current one read the functions `fs`, one after
    /// the other, and then end
    #[verifier::opaque]
    pub open spec fn reads_plain_fns(&self, fs: Seq<(Block, int, Seq<int>)>) -> bool {
        &&& forall|i: int| 0 <= i < fs.len() ==> self.reads_plain_fn_from(self.plain_fn_start(fs, i),
            self.next_id + plain_fns_ids(fs, i), (#[trigger] fs[i]).0, fs[i].1, fs[i].2)
        &&& 0 <= self.plain_fn_start(fs, fs.len() as int) < self.tokens@.len()
        &&& self.tokens@[self.plain_fn_start(fs, fs.len() as int)].value == Token::EOF
    }

    /// Where the `i`-th function of `fs` starts: a function, or the end
    /// after the last one
    pub proof fn lemma_plain_fn_at(&self, fs: Seq<(Block, int, Seq<int>)>, i: int)
        requires
            self.reads_plain_fns(fs),
            0 <= i <= fs.len(),
        ensures
            i < fs.len() ==> self.reads_plain_fn_from(self.plain_fn_start(fs, i),
                self.next_id + plain_fns_ids(fs, i), fs[i].0, fs[i].1, fs[i].2),
            i == fs.len() ==> 0 <= self.plain_fn_start(fs, i) < self.tokens@.len()
                && self.tokens@[self.plain_fn_start(fs, i)].value == Token::EOF,
    {
        reveal(Parser::reads_plain_fns);
    }

    /// Reading the expression `e` that the tokens from `start` to `k` spell
    /// has reached `pos`, with `left` read so far: the node of the left spine
    /// of `e` spelled up to `pos`, with its node ids handed out
    pub open spec fn reading_at(&self, start: int, e: Expression, k: int, pos: int, left: Expression, next_id: int) -> bool {
        let t = self.read(start, k);
        let m = pos - start;
        let s = spine_node(t, e, m, self.names());
        &&& pos <= k
        &&& spine_at(t, e, s, m, self.names())
        &&& same_shape(s, left)
        &&& next_id == self.next_id + expr_ids(s)
        &&& expr_ids(s) <= expr_ids(e)
    }

    /// Reading `e` (spelled from `start` to `k`) goes on from `start + m`,
    /// where the operator `token` is, to `start + mp`: `after` is at the
    /// right-hand side of the operation, which ends there
    pub open spec fn reading_step(&self, start: int, e: Expression, k: int, m: int, mp: int, token: Token, after: Parser) -> bool {
        let t = self.read(start, k);
        let names = self.names();
        let s = spine_node(t, e, m, names);
        let p = spine_node(t, e, mp, names);
        &&& spine_at(t, e, p, mp, names)
        &&& m < mp <= t.len()
        &&& expr_ids(p) <= expr_ids(e)
        &&& match p {
            Expression::Infix { op, lhs, rhs } => lhs.node == s && token == Token::BinOp(op)
                && after.reads_expr_at(rhs.node, start + mp, rhs_level(op) as u32)
                && after.ids_left(expr_ids(rhs.node) + 1) && after.current() != Token::Eq,
            Expression::Assign { lhs, rhs } => lhs.node == s && token == Token::Eq
                && after.reads_expr_at(rhs.node, start + mp, 0)
                && after.ids_left(expr_ids(rhs.node) + 1),
            Expression::Call { func, args } => func.node == s && token == Token::LParen && mp == m + 2
                && after.current() == Token::RParen && after.advances(1) && after.ids_left(1) && args@.len() == 0,
            _ => false,
        }
    }

    /// The tokens from the current one on read `kw IDENT COLON TYPE EQ
    /// literal SEMICOLON`, with a built-in type's name for `TYPE`
    pub open spec fn simple_symbol_at(&self, kw: Keyword) -> bool {
        let t = self.tokens@;
        let p = self.pos as int;
        &&& p + 6 < t.len()
        &&& t[p].value == Token::Keyword(kw)
        &&& t[p + 1].value is Ident
        &&& t[p + 2].value == Token::Colon
        &&& (t[p + 3].value matches Token::Ident(ty)
            && (exists|x: Type| builtin_type_name(x) == Some(self.names()[ty.0 as int])))
        &&& t[p + 4].value == Token::Eq
        &&& literal_of(t[p + 5].value) is Some
        &&& t[p + 6].value == Token::Semicolon
    }

    /// The current token is a literal or an identifier standing alone: the
    /// token after it is no operator that binds tighter than `precedence`
    pub open spec fn atom_at(&self, precedence: u32) -> bool {
        &&& (literal_of(self.current()) is Some || self.current() is Ident)
        &&& precedence_of(self.tokens@[self.pos + 1].value) <= precedence
    }

    /// The node ids that the atom at the current token takes: a literal one,
    /// a variable two (its name and itself)
    pub open spec fn atom_ids(&self) -> int {
        if self.current() is Ident { 2 } else { 1 }
    }

    /// The tokens from the current one on read `fn IDENT ( ) { }`: a
    /// function without parameters, result or code
    pub open spec fn empty_fn_at(&self) -> bool {
        let t = self.tokens@;
        let p = self.pos as int;
        &&& p + 5 < t.len()
        &&& t[p].value == Token::Keyword(Keyword::Fn)
        &&& t[p + 1].value is Ident
        &&& t[p + 2].value == Token::LParen
        &&& t[p + 3].value == Token::RParen
        &&& t[p + 4].value == Token::LBrace
        &&& t[p + 5].value == Token::RBrace
    }

    /// The node ids that the atom `k` tokens after the current one takes
    pub open spec fn atom_ids_at(&self, k: int) -> int {
        if self.tokens@[self.pos + k].value is Ident { 2 } else { 1 }
    }

    /// The tokens from the current one on read `kw atom { }`: an `if` or a
    /// `while` whose condition is a literal or a variable and whose body is
    /// empty
    pub open spec fn keyword_atom_empty_block_at(&self, kw: Keyword) -> bool {
        let t = self.tokens@;
        let p = self.pos as int;
        &&& p + 3 < t.len()
        &&& t[p].value == Token::Keyword(kw)
        &&& (literal_of(t[p + 1].value) is Some || t[p + 1].value is Ident)
        &&& t[p + 2].value == Token::LBrace
        &&& t[p + 3].value == Token::RBrace
    }

    /// The tokens from the current one on read `let IDENT : TYPE = atom ;`,
    /// with a built-in type's name for `TYPE` and a literal or a variable
    /// for the atom
    pub open spec fn simple_declaration_at(&self) -> bool {
        let t = self.tokens@;
        let p = self.pos as int;
        &&& p + 6 < t.len()
        &&& t[p].value == Token::Keyword(Keyword::Let)
        &&& t[p + 1].value is Ident
        &&& t[p + 2].value == Token::Colon
        &&& (t[p + 3].value matches Token::Ident(ty)
            && (exists|x: Type| builtin_type_name(x) == Some(self.names()[ty.0 as int])))
        &&& t[p + 4].value == Token::Eq
        &&& (literal_of(t[p + 5].value) is Some || t[p + 5].value is Ident)
        &&& t[p + 6].value == Token::Semicolon
    }

    /// Only the position and the node id counter differ from `old`
    pub open spec fn unchanged_but_pos(&self, old: Parser) -> bool {
        &&& self.tokens@ == old.tokens@
        &&& self.session == old.session
        &&& self.lex_error == old.lex_error
        &&& old.next_id <= self.next_id
    }

    // --- The public API -------------------------------------------------------

    /// Create a new parser instance: read all tokens of the lexer
    pub fn new(lexer: Lexer) -> (r: Result<Parser, Diagnostic>)
        requires
            lexer.wf(),
        ensures
            r matches Ok(p) ==> p.wf() && p.pos == 0 && p.next_id == 0,
            r matches Ok(p) ==> (p.lex_error is None ==> lexes(lexer.chars(), p.names(), lexer.index(), p.read(0, p.tokens@.len() as int))),
            r is Ok <==> lexes_next(lexer.chars(), lexer.index()),
            lexes_all(lexer.chars(), lexer.index()) ==> (r matches Ok(p) && p.lex_error is None),
            r matches Ok(p) ==> forall|i: int| 0 <= i < p.tokens@.len() && p.tokens@[i].value != Token::EOF
                ==> spanned_text(#[trigger] p.tokens@[i], lexer.chars(), lexer.byte_offsets(), p.names()),
    {
        let ghost chars = lexer.chars();
        let ghost offs = lexer.byte_offsets();
        let ghost a0 = lexer.index();
        let mut lx = lexer;
        let mut tokens: Vec<Spanned<Token>> = Vec::new();
        let mut lex_error: Option<Diagnostic> = None;
        assert(token_values(tokens@, 0, 0) =~= Seq::<Token>::empty());
        loop
            invariant_except_break
                forall|i: int| 0 <= i < tokens@.len() ==> #[trigger] tokens@[i].value != Token::EOF,
                lex_error is None,
                lexes_upto(chars, lx.session.interner@, a0, token_values(tokens@, 0, tokens@.len() as int), lx.index()),
                lexes_all(chars, a0) == lexes_all(chars, lx.index()),
            invariant
                lx.wf(),
                lx.chars() == chars,
                forall|i: int| 0 <= i < tokens@.len() && #[trigger] tokens@[i].value is Ident
                    ==> tokens@[i].value->Ident_0.0 < lx.session.interner@.len(),
                tokens@.len() == 0 ==> lx.index() == a0,
                chars == lexer.chars(),
                a0 == lexer.index(),
                tokens@.len() > 0 ==> lexes_next(chars, a0),
                lx.byte_offsets() == offs,
                forall|i: int| 0 <= i < tokens@.len() && tokens@[i].value != Token::EOF
                    ==> spanned_text(#[trigger] tokens@[i], chars, offs, lx.session.interner@),
            ensures
                lexes_all(chars, a0) ==> lex_error is None,
                lexes_next(chars, a0),
                lx.wf(),
                tokens@.len() > 0,
                tokens@.last().value == Token::EOF,
                forall|i: int| 0 <= i < tokens@.len() - 1 ==> #[trigger] tokens@[i].value != Token::EOF,
                forall|i: int| 0 <= i < tokens@.len() && #[trigger] tokens@[i].value is Ident
                    ==> tokens@[i].value->Ident_0.0 < lx.session.interner@.len(),
                lex_error is Some ==> tokens@.len() >= 2,
                lex_error is None ==> lexes(chars, lx.session.interner@, a0, token_values(tokens@, 0, tokens@.len() as int)),
            decreases lx.chars().len() - lx.index(),
        {
            let ghost start = lx.index();
            let ghost names_before = lx.session.interner@;
            let ghost before = token_values(tokens@, 0, tokens@.len() as int);
            let next = lx.next_token();
            proof {
                if next is Ok && next->Ok_0.value != Token::EOF {
                    let p = next_start(chars, start);
                    lemma_next_start_ge(chars, start);
                    lemma_token_ends_unique(chars, p, token_end(chars, p), lx.index());
                    assert(lexes_all(chars, start) == lexes_all(chars, lx.index()));
                }
            }
            match next {
                Ok(t) => {
                    let is_eof = t.value == Token::EOF;
                    proof {
                        lemma_lexes_upto_extend(chars, names_before, lx.session.interner@, a0, before, start);
                        if !is_eof {
                            let s = choose|s: int| start <= s < lx.index() && skippable(chars, start, s)
                                && #[trigger] lx.token_at(t, s, lx.index(), &lx);
                            assert(token_text(t.value, lx.chars().subrange(s, lx.index()), lx.session.interner@));
                            assert(token_after(chars, lx.session.interner@, start, t.value, lx.index()));
                            assert(spans_text(t, s, lx.index() as int, chars, offs, lx.session.interner@));
                        }
                        assert forall|i: int| 0 <= i < tokens@.len() && tokens@[i].value != Token::EOF implies
                            spanned_text(#[trigger] tokens@[i], chars, offs, lx.session.interner@) by {
                            let (s, e) = choose|s: int, e: int| #[trigger] spans_text(tokens@[i], s, e, chars, offs, names_before);
                            assert(spans_text(tokens@[i], s, e, chars, offs, lx.session.interner@));
                        }
                    }
                    let ghost toks_before = tokens@;
                    tokens.push(t);
                    proof {
                        assert forall|i: int| 0 <= i < tokens@.len() && tokens@[i].value != Token::EOF implies
                            spanned_text(#[trigger] tokens@[i], chars, offs, lx.session.interner@) by {
                            if i < tokens@.len() - 1 {
                                assert(tokens@[i] == toks_before[i]);
                            } else {
                                assert(tokens@[i] == t);
                            }
                        }
                        let now = token_values(tokens@, 0, tokens@.len() as int);
                        assert(now.drop_last() =~= before);
                        assert(now.last() == t.value);
                        if is_eof {
                            assert(lexes_upto(chars, lx.session.interner@, a0, now.drop_last(), start));
                            assert forall|i: int| 0 <= i < now.len() - 1 implies #[trigger] now[i] != Token::EOF by {
                                assert(now[i] == tokens@[i].value);
                            }
                        }
                    }
                    if is_eof {
                        break;
                    }
                },
                Err(e) => {
                    if tokens.len() == 0 {
                        return Err(e);
                    }
                    let p = match e.pos { Some(p) => p, None => 0 };
                    let ghost toks_before = tokens@;
                    tokens.push(Spanned { value: Token::EOF, span: Span { pos: p, len: 0 } });
                    proof {
                        assert forall|i: int| 0 <= i < tokens@.len() && tokens@[i].value != Token::EOF implies
                            spanned_text(#[trigger] tokens@[i], chars, offs, lx.session.interner@) by {
                            if i < tokens@.len() - 1 {
                                assert(tokens@[i] == toks_before[i]);
                                let (s, e) = choose|s: int, e: int| #[trigger] spans_text(toks_before[i], s, e, chars, offs, names_before);
                                assert(spans_text(tokens@[i], s, e, chars, offs, lx.session.interner@));
                            }
                        }
                    }
                    lex_error = Some(e);
                    break;
                },
            }
        }
        Ok(Parser {
            tokens,
            pos: 0,
            lex_error,
            next_id: 0,
            session: lx.session,
            manager: ParseletManager::new(),
        })
    }

    /// The session of the parser (interner, codemap, ...)
    pub fn into_session(self) -> (r: Session)
        ensures
            r == self.session,
    {
        self.session
    }

    /// Process all tokens and create an AST
    #[verifier::rlimit(100)]
    #[verifier::spinoff_prover]
    pub fn parse(&mut self) -> (r: Result<Program, Diagnostic>)
        requires
            old(self).wf(),
        ensures
            final(self).wf(),
            final(self).unchanged_but_pos(*old(self)),
            r is Ok ==> final(self).current() == Token::EOF,
            r is Ok ==> final(self).lex_error is None && final(self).pos == final(self).tokens@.len() - 1,
            r matches Ok(p) ==> spells_program(final(self).read(old(self).pos as int, final(self).pos as int), p@, final(self).names()),
            old(self).current() == Token::EOF ==> (r matches Ok(p) && p@.len() == 0),
            old(self).empty_fn_at() && old(self).tokens@[old(self).pos + 6].value == Token::EOF
                ==> (r is Ok <==> (old(self).advances(6) && old(self).ids_left(4))),
            old(self).empty_fn_at() && old(self).tokens@[old(self).pos + 6].value == Token::EOF
                ==> (r matches Ok(p) ==> p@.len() == 1 && p@[0].node is Function),
            forall|fs: Seq<(Block, int, Seq<int>)>| #[trigger] old(self).reads_plain_fns(fs) ==>
                (r matches Ok(p) && p@.len() == fs.len()
                    && forall|i: int| 0 <= i < fs.len() ==> plain_fn_shape(fs[i].0, (#[trigger] p@[i]).node)),
    {
        let mut source: Vec<Node<Symbol>> = Vec::new();
        let ghost start = self.pos as int;
        assert(self.read(start, start) =~= Seq::<Token>::empty());
        // A program is a list of symbols
        while self.token() != Token::EOF
            invariant
                self.wf(),
                self.unchanged_but_pos(*old(self)),
                start == old(self).pos,
                start <= self.pos,
                spells_program(self.read(start, self.pos as int), source@, self.names()),
                old(self).current() == Token::EOF ==> source@.len() == 0 && self.pos == old(self).pos,
                old(self).empty_fn_at() && old(self).tokens@[old(self).pos + 6].value == Token::EOF ==>
                    (self.pos == old(self).pos && source@.len() == 0 && self.next_id == old(self).next_id)
                    || (self.pos == old(self).pos + 6 && source@.len() == 1 && source@[0].node is Function
                        && old(self).advances(6) && old(self).ids_left(4)),
                forall|fs: Seq<(Block, int, Seq<int>)>| #[trigger] old(self).reads_plain_fns(fs) ==> {
                    &&& source@.len() <= fs.len()
                    &&& self.pos == old(self).plain_fn_start(fs, source@.len() as int)
                    &&& self.next_id == old(self).next_id + plain_fns_ids(fs, source@.len() as int)
                    &&& forall|i: int| 0 <= i < source@.len() ==> plain_fn_shape(fs[i].0, (#[trigger] source@[i]).node)
                },
            decreases self.remaining(),
        {
            let ghost before = self.pos as int;
            let ghost old_source = source@;
            proof {
                assert forall|fs: Seq<(Block, int, Seq<int>)>| #[trigger] old(self).reads_plain_fns(fs) implies
                    source@.len() < fs.len()
                    && self.reads_plain_fn_at(fs[source@.len() as int].0, fs[source@.len() as int].1, fs[source@.len() as int].2) by {
                    let i = source@.len() as int;
                    old(self).lemma_plain_fn_at(fs, i);
                    if i == fs.len() {
                        assert(self.current() == Token::EOF);
                    }
                }
            }
            source.push(self.parse_symbol()?);
            proof {
                assert forall|fs: Seq<(Block, int, Seq<int>)>| #[trigger] old(self).reads_plain_fns(fs) implies
                    forall|i: int| 0 <= i < source@.len() ==> plain_fn_shape(fs[i].0, (#[trigger] source@[i]).node) by {
                    assert forall|i: int| 0 <= i < source@.len() implies plain_fn_shape(fs[i].0, (#[trigger] source@[i]).node) by {
                        if i < old_source.len() {
                            assert(source@[i] == old_source[i]);
                        }
                    }
                }
                let t = self.read(start, self.pos as int);
                lemma_token_values_split(self.tokens@, start, before, self.pos as int);
                assert(source@.drop_last() == old_source);
                assert(t.subrange(0, before - start) == self.read(start, before));
            }
        }
        proof {
            assert forall|fs: Seq<(Block, int, Seq<int>)>| #[trigger] old(self).reads_plain_fns(fs) implies
                source@.len() == fs.len() by {
                let i = source@.len() as int;
                old(self).lemma_plain_fn_at(fs, i);
            }
        }
        Ok(source)
    }

    // --- Error handling -------------------------------------------------------

    /// A fatal error at the current token
    fn fatal(&self, msg: String) -> (r: Diagnostic)
        requires
            self.wf(),
        ensures
            r.msg@ == msg@,
            r.pos == Some(self.tokens@[self.pos as int].span.pos),
    {
        Diagnostic::at(msg, self.tokens[self.pos].span.pos)
    }

    /// An unexpected token error
    pub fn unexpected_token(&self, expected: Option<&'static str>) -> (r: Diagnostic)
        requires
            self.wf(),
        ensures
            r.pos == Some(self.tokens@[self.pos as int].span.pos),
    {
        let mut msg = String::new();
        push_str(&mut msg, "unexpected token: `");
        push_token(&mut msg, &self.tokens[self.pos].value, &self.session.interner);
        push_str(&mut msg, "`");
        if let Some(ex) = expected {
            push_str(&mut msg, ", expected ");
            push_str(&mut msg, ex);
        }
        self.fatal(msg)
    }

    /// The token `distance` places after the current one (`EOF` past the end
    /// of the source)
    pub fn look_ahead(&self, distance: usize) -> (r: Token)
        requires
            self.wf(),
            distance >= 1,
        ensures
            self.pos + distance < self.tokens@.len() ==> r == self.tokens@[self.pos + distance].value,
            self.pos + distance >= self.tokens@.len() ==> r == Token::EOF,
    {
        if distance < self.tokens.len() - self.pos {
            self.tokens[self.pos + distance].value
        } else {
            Token::EOF
        }
    }

    /// A fresh node id
    pub fn fresh_id(&mut self) -> (r: Result<NodeId, Diagnostic>)
        requires
            old(self).wf(),
        ensures
            final(self).wf(),
            final(self).pos == old(self).pos,
            final(self).unchanged_but_pos(*old(self)),
            r matches Ok(id) ==> id.0 == old(self).next_id && final(self).next_id == old(self).next_id + 1,
            r is Ok <==> old(self).ids_left(1),
            r is Err ==> final(self).next_id == old(self).next_id,
    {
        if self.next_id == u32::MAX {
            let mut msg = String::new();
            push_str(&mut msg, "too many syntax tree nodes");
            return Err(self.fatal(msg));
        }
        let id = NodeId(self.next_id);
        self.next_id = self.next_id + 1;
        Ok(id)
    }

    // --- Token processing -----------------------------------------------------

    /// The current token
    pub fn token(&self) -> (r: Token)
        requires
            self.wf(),
        ensures
            r == self.current(),
    {
        self.tokens[self.pos].value
    }

    /// The span of the current token
    pub fn span(&self) -> (r: Span)
        requires
            self.wf(),
        ensures
            r == self.tokens@[self.pos as int].span,
    {
        self.tokens[self.pos].span
    }

    /// Move along to the next token
    pub fn bump(&mut self) -> (r: Result<(), Diagnostic>)
        requires
            old(self).wf(),
        ensures
            final(self).wf(),
            final(self).unchanged_but_pos(*old(self)),
            final(self).next_id == old(self).next_id,
            r is Ok && old(self).current() != Token::EOF ==> final(self).pos == old(self).pos + 1,
            r is Err || old(self).current() == Token::EOF ==> final(self).pos == old(self).pos,
            r is Ok <==> old(self).advances(1),
            r matches Err(e) ==> old(self).lex_error matches Some(l) && e.msg@ == l.msg@ && e.pos == l.pos,
    {
        if self.pos < self.tokens.len() - 1 {
            // The tokens end early where the lexer failed: report its error
            // on reaching that end
            if self.pos + 1 == self.tokens.len() - 1 {
                if let Some(e) = &self.lex_error {
                    return Err(e.copy());
                }
            }
            self.pos = self.pos + 1;
        }
        Ok(())
    }

    /// Try consuming a token, return `true` on succes
    pub fn eat(&mut self, tok: Token) -> (r: Result<bool, Diagnostic>)
        requires
            old(self).wf(),
        ensures
            final(self).wf(),
            final(self).unchanged_but_pos(*old(self)),
            r matches Ok(b) ==> b == (old(self).current() == tok),
            r is Ok && old(self).current() == tok && tok != Token::EOF ==> final(self).pos == old(self).pos + 1,
            r is Err || old(self).current() != tok || tok == Token::EOF ==> final(self).pos == old(self).pos,
            r is Ok <==> (old(self).current() != tok || old(self).advances(1)),
            final(self).next_id == old(self).next_id,
    {
        if self.token() == tok {
            self.bump()?;
            Ok(true)
        } else {
            Ok(false)
        }
    }

    /// Try consuming a token, fail with an error otherwise
    pub fn expect(&mut self, tok: Token) -> (r: Result<(), Diagnostic>)
        requires
            old(self).wf(),
        ensures
            final(self).wf(),
            final(self).unchanged_but_pos(*old(self)),
            r is Ok ==> old(self).current() == tok,
            r is Ok && old(self).current() == tok && tok != Token::EOF ==> final(self).pos == old(self).pos + 1,
            r is Err || old(self).current() != tok || tok == Token::EOF ==> final(self).pos == old(self).pos,
            r is Ok <==> (old(self).current() == tok && old(self).advances(1)),
            final(self).next_id == old(self).next_id,
    {
        if !self.eat(tok)? {
            let mut msg = String::new();
            push_str(&mut msg, "expected `");
            push_token(&mut msg, &tok, &self.session.interner);
            push_str(&mut msg, "`, found `");
            push_token(&mut msg, &self.tokens[self.pos].value, &self.session.interner);
            push_str(&mut msg, "`");
            return Err(self.fatal(msg));
        }
        Ok(())
    }

    // --- Parse tokens ---------------------------------------------------------

    /// Parse an identifier
    pub fn parse_ident(&mut self) -> (r: Result<Node<Ident>, Diagnostic>)
        requires
            old(self).wf(),
        ensures
            final(self).wf(),
            final(self).unchanged_but_pos(*old(self)),
            old(self).pos <= final(self).pos,
            r is Ok ==> final(self).pos == old(self).pos + 1,
            r matches Ok(n) ==> old(self).current() == Token::Ident(n.node) && n.node.0 < final(self).session.interner@.len(),
            r is Ok <==> (old(self).current() is Ident && old(self).ids_left(1) && old(self).advances(1)),
            r matches Ok(n) ==> n.id.0 == old(self).next_id && final(self).next_id == old(self).next_id + 1,
    {
        let span = self.span();
        let ident = match self.token() {
            Token::Ident(id) => id,
            _ => return Err(self.unexpected_token(Some("an identifier"))),
        };
        let id = self.fresh_id()?;
        self.bump()?;
        Ok(Node::new(ident, span, id))
    }

    /// Parse a literal
    pub fn parse_literal(&mut self) -> (r: Result<Node<Expression>, Diagnostic>)
        requires
            old(self).wf(),
        ensures
            final(self).wf(),
            final(self).unchanged_but_pos(*old(self)),
            old(self).pos <= final(self).pos,
            r is Ok ==> final(self).pos == old(self).pos + 1,
            r matches Ok(n) ==> n.node is Literal && literal_of(old(self).current()) == Some(n.node->Literal_val),
            r matches Ok(n) ==> spells_expr(final(self).read(old(self).pos as int, final(self).pos as int), n.node, final(self).names()),
            r is Ok <==> (literal_of(old(self).current()) is Some && old(self).ids_left(1) && old(self).advances(1)),
            r matches Ok(n) ==> n.id.0 == old(self).next_id && final(self).next_id == old(self).next_id + 1,
    {
        let span = self.span();
        let value = match self.token() {
            Token::Int(i) => Value::Int(i),
            Token::Char(c) => Value::Char(c),
            Token::Keyword(Keyword::True) => Value::Bool(true),
            Token::Keyword(Keyword::False) => Value::Bool(false),
            _ => return Err(self.unexpected_token(Some("a literal"))),
        };
        let id = self.fresh_id()?;
        self.bump()?;
        Ok(Node::new(Expression::Literal { val: value }, span, id))
    }

    /// Parse a builtin type
    pub fn parse_type(&mut self) -> (r: Result<Type, Diagnostic>)
        requires
            old(self).wf(),
        ensures
            final(self).wf(),
            final(self).unchanged_but_pos(*old(self)),
            old(self).pos <= final(self).pos,
            r is Ok ==> final(self).pos == old(self).pos + 1,
            r matches Ok(t) ==> old(self).current() matches Token::Ident(id)
                && builtin_type_name(t) == Some(final(self).session.interner@[id.0 as int]),
            r matches Ok(t) ==> spells_type(old(self).current(), t, final(self).names()),
            r is Ok <==> (old(self).current() matches Token::Ident(id)
                && (exists|t: Type| builtin_type_name(t) == Some(old(self).names()[id.0 as int]))
                && old(self).ids_left(1) && old(self).advances(1)),
            r is Ok ==> final(self).next_id == old(self).next_id + 1,
    {
        let ident = self.parse_ident()?;
        let name = self.session.interner.resolve(ident.node);
        match Type::from_name(name) {
            Ok(ty) => Ok(ty),
            Err(()) => Err(self.unexpected_token(Some("a type"))),
        }
    }

    // --- Parse helpers --------------------------------------------------------

    /// Parse a binding: `IDENT COLON TYPE`
    pub fn parse_binding(&mut self) -> (r: Result<Node<Binding>, Diagnostic>)
        requires
            old(self).wf(),
        ensures
            final(self).wf(),
            final(self).unchanged_but_pos(*old(self)),
            old(self).pos <= final(self).pos,
            r is Ok ==> final(self).pos == old(self).pos + 3,
            r matches Ok(b) ==> old(self).current() == Token::Ident(b.node.name.node),
            r matches Ok(b) ==> spells_binding(final(self).read(old(self).pos as int, final(self).pos as int), b.node, final(self).names()),
            r is Ok <==> (old(self).pos + 2 < old(self).tokens@.len()
                && old(self).current() is Ident
                && old(self).tokens@[old(self).pos + 1].value == Token::Colon
                && (old(self).tokens@[old(self).pos + 2].value matches Token::Ident(ty)
                    && (exists|t: Type| builtin_type_name(t) == Some(old(self).names()[ty.0 as int])))
                && old(self).ids_left(3) && old(self).advances(3)),
            r is Ok ==> final(self).next_id == old(self).next_id + 3,
    {
        let lo = self.span();
        let name = self.parse_ident()?;
        self.expect(Token::Colon)?;
        let ty = self.parse_type()?;
        let id = self.fresh_id()?;
        Ok(Node::new(Binding { ty, name }, lo.join(self.span()), id))
    }

    /// Parse a block: `LBRACE (declaration | expression SEMICOLON)* expr? RBRACE`
    ///
    /// Blocks contain a list of semicolon-separated statements and an
    /// optional expression that acts as the block's value (`Unit` where
    /// there is none). `if` and `while` expressions can appear as statements
    /// without a trailing semicolon.
    #[verifier::rlimit(50)]
    #[verifier::spinoff_prover]
    pub fn parse_block(&mut self) -> (r: Result<Node<Block>, Diagnostic>)
        requires
            old(self).wf(),
        ensures
            final(self).wf(),
            final(self).unchanged_but_pos(*old(self)),
            old(self).pos <= final(self).pos,
            r is Ok ==> old(self).pos < final(self).pos,
            r is Ok ==> old(self).current() == Token::LBrace,
            r is Ok ==> final(self).tokens@[final(self).pos - 1].value == Token::RBrace,
            r matches Ok(b) ==> spells_block(final(self).read(old(self).pos as int, final(self).pos as int), b.node, final(self).names()),
            old(self).current() != Token::LBrace ==> r is Err,
            old(self).current() == Token::LBrace && old(self).tokens@[old(self).pos + 1].value == Token::RBrace
                ==> (r is Ok <==> (old(self).advances(2) && old(self).ids_left(2))),
            old(self).current() == Token::LBrace && old(self).tokens@[old(self).pos + 1].value == Token::RBrace
                ==> (r matches Ok(b) ==> final(self).next_id == old(self).next_id + 2 && final(self).pos == old(self).pos + 2
                    && b.node.stmts@.len() == 0 && b.node.expr.node is Unit),
            forall|b: Block, k: int, cuts: Seq<int>| #[trigger] old(self).reads_block_at(b, k, cuts) ==>
                (r matches Ok(x) && same_block_shape(b, x.node)) && final(self).pos == k
                    && final(self).next_id == old(self).next_id + block_ids(b),
        decreases old(self).remaining(), 5nat,
    {
        let lo = self.span();
        self.expect(Token::LBrace)?;
        let mut stmts: Vec<Node<Statement>> = Vec::new();
        let mut expr: Option<Node<Expression>> = None;
        let ghost start = self.pos as int;
        let ghost names = self.names();
        // Where the statements end, and where the semicolons after them end
        let ghost mut stmts_end: int = start;
        let ghost mut semis_end: int = start;
        assert(self.read(start, start) =~= Seq::<Token>::empty());
        // Parse all statements
        loop
            invariant_except_break
                expr is None,
                spells_stmts(self.read(start, self.pos as int), stmts_block(stmts), stmts@.len(), names),
                forall|b: Block, k: int, cuts: Seq<int>| #[trigger] old(self).reads_block_at(b, k, cuts) ==> {
                    &&& stmts@.len() <= b.stmts@.len()
                    &&& self.pos == cuts[stmts@.len() as int]
                    &&& forall|j: int| 0 <= j < stmts@.len() ==> same_stmt_shape((#[trigger] b.stmts@[j]).node, stmts@[j].node)
                    &&& self.next_id == old(self).next_id + stmts_ids(b.stmts@.subrange(0, stmts@.len() as int))
                },
            invariant
                self.wf(),
                self.unchanged_but_pos(*old(self)),
                old(self).pos < start <= self.pos,
                start == old(self).pos + 1,
                old(self).current() == Token::LBrace,
                names == self.names(),
                self.tokens@[start].value == Token::RBrace ==> self.pos == start && self.next_id == old(self).next_id
                    && stmts@.len() == 0,
            ensures
                self.tokens@[start].value == Token::RBrace ==> self.pos == start && self.next_id == old(self).next_id
                    && expr is None,
                start <= stmts_end <= semis_end <= self.pos,
                spells_stmts(self.read(start, stmts_end), stmts_block(stmts), stmts@.len(), names),
                all_semicolons(self.read(stmts_end, semis_end)),
                expr is None ==> semis_end == self.pos,
                expr matches Some(e) ==> spells_expr(self.read(semis_end, self.pos as int), e.node, names)
                    && ((e.node is If || e.node is While) ==> stmts_end < semis_end),
                forall|b: Block, k: int, cuts: Seq<int>| #[trigger] old(self).reads_block_at(b, k, cuts) ==> {
                    &&& stmts@.len() == b.stmts@.len()
                    &&& self.pos == k - 1
                    &&& forall|j: int| 0 <= j < stmts@.len() ==> same_stmt_shape((#[trigger] b.stmts@[j]).node, stmts@[j].node)
                    &&& (b.expr.node is Unit ==> expr is None && self.next_id == old(self).next_id + stmts_ids(b.stmts@))
                    &&& (!(b.expr.node is Unit) ==> (expr matches Some(x) && same_shape(b.expr.node, x.node))
                        && self.next_id == old(self).next_id + stmts_ids(b.stmts@) + expr_ids(b.expr.node))
                },
            decreases self.remaining(),
        {
            let ghost before = self.pos as int;
            let ghost old_stmts = stmts;
            let ghost cur0 = self.current();
            proof {
                assert forall|b: Block, k: int, cuts: Seq<int>| #[trigger] old(self).reads_block_at(b, k, cuts) implies
                    (starts_operand(cur0) && (stmts@.len() < b.stmts@.len() || !(b.expr.node is Unit)))
                    || (cur0 == Token::RBrace && stmts@.len() == b.stmts@.len() && b.expr.node is Unit) by {
                    let n = b.stmts@.len() as int;
                    let i = stmts@.len() as int;
                    if i < n {
                        assert(plain_stmt(b.stmts@[i].node));
                        let t = self.read(cuts[i], cuts[i + 1] - 1);
                        lemma_first_token(t, b.stmts@[i].node->Expression_val.node, 0, names);
                        assert(t[0] == cur0);
                    } else if !(b.expr.node is Unit) {
                        let t = self.read(cuts[n], k - 1);
                        lemma_first_token(t, b.expr.node, 0, names);
                        assert(t[0] == cur0);
                    }
                }
            }
            // Special cases: declarations, if's and while's
            match self.token() {
                Token::Keyword(Keyword::Let) => {
                    let decl = self.parse_declaration()?;
                    stmts.push(decl);
                    proof {
                        lemma_spells_stmts_prefix(self.read(start, before), stmts_block(old_stmts), stmts_block(stmts),
                            old_stmts@.len(), names);
                        lemma_spells_stmts_push(self.tokens@, start, before, self.pos as int, stmts_block(stmts),
                            stmts@.len(), names);
                    }
                    continue;
                },
                Token::Keyword(Keyword::If) => {
                    let lo = self.span();
                    let if_expr = self.parse_if()?;
                    let id = self.fresh_id()?;
                    stmts.push(Node::new(Statement::Expression { val: Box::new(if_expr) }, lo.join(self.span()), id));
                    proof {
                        lemma_spells_stmts_prefix(self.read(start, before), stmts_block(old_stmts), stmts_block(stmts),
                            old_stmts@.len(), names);
                        lemma_spells_stmts_push(self.tokens@, start, before, self.pos as int, stmts_block(stmts),
                            stmts@.len(), names);
                    }
                    continue;
                },
                Token::Keyword(Keyword::While) => {
                    let lo = self.span();
                    let while_expr = self.parse_while()?;
                    let id = self.fresh_id()?;
                    stmts.push(Node::new(Statement::Expression { val: Box::new(while_expr) }, lo.join(self.span()), id));
                    proof {
                        lemma_spells_stmts_prefix(self.read(start, before), stmts_block(old_stmts), stmts_block(stmts),
                            old_stmts@.len(), names);
                        lemma_spells_stmts_push(self.tokens@, start, before, self.pos as int, stmts_block(stmts),
                            stmts@.len(), names);
                    }
                    continue;
                },
                _ => {},
            }
            // Eat all semicolons that are remaining
            let ghost round = self.pos as int;
            let ghost nid0 = self.next_id;
            assert(self.read(round, round) =~= Seq::<Token>::empty());
            while self.eat(Token::Semicolon)?
                invariant
                    self.next_id == nid0,
                    forall|b: Block, k: int, cuts: Seq<int>| #[trigger] old(self).reads_block_at(b, k, cuts) ==>
                        self.pos == round && self.current() == cur0 && cur0 != Token::Semicolon,
                    self.wf(),
                    self.unchanged_but_pos(*old(self)),
                    old(self).pos < start <= round <= self.pos,
                    all_semicolons(self.read(round, self.pos as int)),
                    self.tokens@[start].value == Token::RBrace ==> self.pos == start && round == start
                        && self.next_id == old(self).next_id && self.current() == Token::RBrace,
                    start == old(self).pos + 1,
                decreases self.remaining(),
            {
                assert forall|i: int| 0 <= i < self.pos - round implies #[trigger] self.read(round, self.pos as int)[i]
                    == Token::Semicolon by {
                    if i < self.pos - 1 - round {
                        assert(self.read(round, self.pos - 1)[i] == Token::Semicolon);
                    }
                }
            }
            let ghost semis = self.pos as int;
            if self.token() == Token::RBrace {
                // We've reached the end of the block already
                proof {
                    stmts_end = round;
                    semis_end = semis;
                    assert forall|b: Block, k: int, cuts: Seq<int>| #[trigger] old(self).reads_block_at(b, k, cuts) implies
                        self.next_id == old(self).next_id + stmts_ids(b.stmts@) by {
                        assert(b.stmts@.subrange(0, b.stmts@.len() as int) =~= b.stmts@);
                    }
                }
                break;
            }
            let ghost pre_expr = *self;
            proof {
                assert forall|b: Block, k: int, cuts: Seq<int>| #[trigger] old(self).reads_block_at(b, k, cuts) implies {
                    let n = b.stmts@.len() as int;
                    let i = stmts@.len() as int;
                    &&& i < n ==> self.reads_expr_at(b.stmts@[i].node->Expression_val.node, cuts[i + 1] - 1, 0)
                        && self.ids_left(expr_ids(b.stmts@[i].node->Expression_val.node) + 1)
                        && stmts_ids(b.stmts@.subrange(0, i + 1))
                            == stmts_ids(b.stmts@.subrange(0, i)) + 1 + expr_ids(b.stmts@[i].node->Expression_val.node)
                    &&& i == n ==> !(b.expr.node is Unit) && self.reads_expr_at(b.expr.node, k - 1, 0)
                        && self.ids_left(expr_ids(b.expr.node) + 1)
                        && b.stmts@.subrange(0, i) == b.stmts@
                } by {
                    let n = b.stmts@.len() as int;
                    let i = stmts@.len() as int;
                    assert forall|j: int| 0 <= j < n implies plain_stmt((#[trigger] b.stmts@[j]).node) by {}
                    lemma_stmts_ids_prefix(b.stmts@, n);
                    assert(b.stmts@.subrange(0, n) =~= b.stmts@);
                    if i < n {
                        let v = b.stmts@[i].node->Expression_val.node;
                        assert(plain_stmt(b.stmts@[i].node));
                        lemma_binding_power_positive(v);
                        lemma_stmts_ids_prefix(b.stmts@, i + 1);
                        let post = b.stmts@.subrange(0, i + 1);
                        assert(post.drop_last() =~= b.stmts@.subrange(0, i));
                        assert(post.last() == b.stmts@[i]);
                        assert(cuts[i + 1] <= cuts[n]);
                        if !(b.expr.node is Unit) {
                            lemma_expr_ids_positive(b.expr.node, 0);
                        }
                    } else {
                        lemma_binding_power_positive(b.expr.node);
                    }
                }
            }
            // Parse the expression
            let lo = self.span();
            let maybe_expr = self.parse_expression()?;
            let ghost m = self.pos as int;
            proof {
                if maybe_expr.node is If || maybe_expr.node is While {
                    assert(self.read(semis, m)[0] == self.tokens@[semis].value);
                }
            }
            if self.eat(Token::Semicolon)? {
                // It's actually a statement
                let id = self.fresh_id()?;
                stmts.push(Node::new(Statement::Expression { val: Box::new(maybe_expr) }, lo.join(self.span()), id));
                proof {
                    lemma_spells_expr_stmt(self.tokens@, round, semis, m, stmts@.last().node, names);
                    lemma_spells_stmts_prefix(self.read(start, round), stmts_block(old_stmts), stmts_block(stmts),
                        old_stmts@.len(), names);
                    lemma_spells_stmts_push(self.tokens@, start, round, self.pos as int, stmts_block(stmts),
                        stmts@.len(), names);
                    assert forall|b: Block, k: int, cuts: Seq<int>| #[trigger] old(self).reads_block_at(b, k, cuts) implies
                        forall|j: int| 0 <= j < stmts@.len() ==> same_stmt_shape((#[trigger] b.stmts@[j]).node, stmts@[j].node) by {
                        assert forall|j: int| 0 <= j < stmts@.len() implies same_stmt_shape((#[trigger] b.stmts@[j]).node, stmts@[j].node) by {
                            if j < old_stmts@.len() {
                                assert(stmts@[j] == old_stmts@[j]);
                            }
                        }
                    }
                }
            } else {
                // It's the last expression
                expr = Some(maybe_expr);
                proof {
                    stmts_end = round;
                    semis_end = semis;
                }
                break;
            }
        }
        let ghost value_end = self.pos as int;
        let expr = match expr {
            Some(e) => e,
            None => {
                let id = self.fresh_id()?;
                Node::new(Expression::Unit, self.span(), id)
            },
        };
        self.expect(Token::RBrace)?;
        let id = self.fresh_id()?;
        let b = Node::new(Block { stmts, expr: Box::new(expr) }, lo.join(self.span()), id);
        proof {
            lemma_spells_stmts_prefix(self.read(start, stmts_end), stmts_block(b.node.stmts), b.node, b.node.stmts@.len(), names);
            assert(self.read(semis_end, value_end) == self.read(semis_end, self.pos - 1));
            lemma_spells_block(self.tokens@, old(self).pos as int, stmts_end, semis_end, self.pos as int, b.node, names);
        }
        Ok(b)
    }

    // --- Parsing: Statements --------------------------------------------------

    /// Parse a declaration: `k_let binding EQ expression SEMICOLON`
    pub fn parse_declaration(&mut self) -> (r: Result<Node<Statement>, Diagnostic>)
        requires
            old(self).wf(),
        ensures
            final(self).wf(),
            final(self).unchanged_but_pos(*old(self)),
            old(self).pos <= final(self).pos,
            r is Ok ==> old(self).pos < final(self).pos,
            r is Ok ==> old(self).current() == Token::Keyword(Keyword::Let),
            r matches Ok(s) ==> s.node is Declaration,
            r matches Ok(s) ==> spells_stmt(final(self).read(old(self).pos as int, final(self).pos as int), s.node, final(self).names()),
            old(self).current() != Token::Keyword(Keyword::Let) ==> r is Err,
            old(self).simple_declaration_at() ==> (r is Ok <==> (old(self).advances(7)
                && old(self).ids_left(4 + old(self).atom_ids_at(5)))),
        decreases old(self).remaining(), 5nat,
    {
        let lo = self.span();
        self.expect(Token::Keyword(Keyword::Let))?;
        let binding = self.parse_binding()?;
        self.expect(Token::Eq)?;
        let value = self.parse_expression()?;
        let ghost value_end = self.pos as int;
        self.expect(Token::Semicolon)?;
        let id = self.fresh_id()?;
        let decl = Node::new(Statement::Declaration { binding: Box::new(binding), value: Box::new(value) }, lo.join(self.span()), id);
        proof {
            let a = old(self).pos as int;
            let t = self.read(a, self.pos as int);
            assert(t.subrange(1, 4) =~= self.read(a + 1, a + 4));
            assert(t.subrange(5, t.len() - 1) =~= self.read(a + 5, value_end));
            assert(t[4] == self.tokens@[a + 4].value);
        }
        Ok(decl)
    }

    // --- Parsing: Expressions -------------------------------------------------
    // Using the Pratt parser technique

    /// Parse an arbitrary expression
    pub fn parse_expression(&mut self) -> (r: Result<Node<Expression>, Diagnostic>)
        requires
            old(self).wf(),
        ensures
            final(self).wf(),
            final(self).unchanged_but_pos(*old(self)),
            old(self).pos <= final(self).pos,
            r is Ok ==> old(self).pos < final(self).pos,
            r matches Ok(e) ==> stops_expression(e.node, final(self).current(), 0),
            r matches Ok(e) ==> spells_expr(final(self).read(old(self).pos as int, final(self).pos as int), e.node, final(self).names()),
            old(self).atom_at(0) ==> (r is Ok <==> (old(self).advances(1) && old(self).ids_left(old(self).atom_ids()))),
            old(self).atom_at(0) && r is Ok ==> final(self).pos == old(self).pos + 1
                && final(self).next_id == old(self).next_id + old(self).atom_ids(),
            forall|e: Expression, k: int| #[trigger] old(self).reads_expr_at(e, k, 0) ==>
                (r matches Ok(x) && same_shape(e, x.node)) && final(self).pos == k
                    && final(self).next_id == old(self).next_id + expr_ids(e),
        decreases old(self).remaining(), 3nat,
    {
        self.parse_expression_with_precedence(0)
    }

    /// Parse an expression whose operators all bind tighter than `precedence`
    pub fn parse_expression_with_precedence(&mut self, precedence: u32) -> (r: Result<Node<Expression>, Diagnostic>)
        requires
            old(self).wf(),
            precedence <= 13,
        ensures
            final(self).wf(),
            final(self).unchanged_but_pos(*old(self)),
            old(self).pos <= final(self).pos,
            r is Ok ==> old(self).pos < final(self).pos,
            r matches Ok(e) ==> binding_power(e.node) > precedence,
            r matches Ok(e) ==> stops_expression(e.node, final(self).current(), precedence),
            r matches Ok(e) ==> spells_expr(final(self).read(old(self).pos as int, final(self).pos as int), e.node, final(self).names()),
            old(self).current() == Token::Keyword(Keyword::Break) ==> (r is Ok <==> (old(self).advances(1) && old(self).ids_left(1))),
            old(self).atom_at(precedence) ==> (r is Ok <==> (old(self).advances(1) && old(self).ids_left(old(self).atom_ids()))),
            old(self).atom_at(precedence) && r is Ok ==> final(self).pos == old(self).pos + 1
                && final(self).next_id == old(self).next_id + old(self).atom_ids(),
            old(self).current() == Token::Keyword(Keyword::Return)
                && (old(self).tokens@[old(self).pos + 1].value == Token::RBrace
                    || old(self).tokens@[old(self).pos + 1].value == Token::Semicolon)
                ==> (r is Ok <==> (old(self).advances(1) && old(self).ids_left(2))),
            forall|e: Expression, k: int| #[trigger] old(self).reads_expr_at(e, k, precedence) ==>
                (r matches Ok(x) && same_shape(e, x.node)) && final(self).pos == k
                    && final(self).next_id == old(self).next_id + expr_ids(e),
        decreases old(self).remaining(), 2nat,
    {
        proof {
            assert forall|e: Expression, k: int| #[trigger] old(self).reads_expr_at(e, k, precedence) implies
                starts_operand(old(self).current()) by {
                let t = old(self).read(old(self).pos as int, k);
                lemma_first_token(t, e, precedence_of(old(self).tokens@[k].value), old(self).names());
                assert(t[0] == old(self).current());
            }
        }
        match self.token() {
            Token::Keyword(Keyword::If) => self.parse_if(),
            Token::Keyword(Keyword::While) => self.parse_while(),
            Token::Keyword(Keyword::Return) => {
                let lo = self.span();
                self.bump()?;
                // Parse the return value
                let val = if self.token() == Token::RBrace || self.token() == Token::Semicolon {
                    let id = self.fresh_id()?;
                    Node::new(Expression::Unit, self.span(), id)
                } else {
                    self.parse_expression()?
                };
                let id = self.fresh_id()?;
                let e = Node::new(Expression::Return { val: Box::new(val) }, lo.join(self.span()), id);
                proof {
                    lemma_spells_return(self.tokens@, old(self).pos as int, self.pos as int, e.node, self.names());
                }
                Ok(e)
            },
            Token::Keyword(Keyword::Break) => {
                let lo = self.span();
                self.bump()?;
                let id = self.fresh_id()?;
                Ok(Node::new(Expression::Break, lo.join(self.span()), id))
            },
            _ => self.pratt_parser(precedence),
        }
    }

    /// The current token's infix precedence
    pub fn current_precedence(&self) -> (r: u32)
        requires
            self.wf(),
        ensures
            r == precedence_of(self.current()),
    {
        match self.manager.lookup_infix(self.token()) {
            Some(p) => p.precedence(),
            None => 0,
        }
    }

    /// Entry point for the Pratt parser: a prefix expression, continued by
    /// infix operators as long as they bind tighter than `precedence`
    #[verifier::rlimit(80)]
    #[verifier::spinoff_prover]
    pub fn pratt_parser(&mut self, precedence: u32) -> (r: Result<Node<Expression>, Diagnostic>)
        requires
            old(self).wf(),
            precedence <= 13,
        ensures
            final(self).wf(),
            final(self).unchanged_but_pos(*old(self)),
            old(self).pos <= final(self).pos,
            r is Ok ==> old(self).pos < final(self).pos,
            r matches Ok(e) ==> binding_power(e.node) > precedence,
            r is Ok ==> precedence_of(final(self).current()) <= precedence,
            r matches Ok(e) ==> spells_expr(final(self).read(old(self).pos as int, final(self).pos as int), e.node, final(self).names()),
            prefix_table(token_type(old(self).current())) is None ==> r is Err,
            old(self).atom_at(precedence) ==> (r is Ok <==> (old(self).advances(1) && old(self).ids_left(old(self).atom_ids()))),
            old(self).atom_at(precedence) && r is Ok ==> final(self).pos == old(self).pos + 1
                && final(self).next_id == old(self).next_id + old(self).atom_ids(),
            forall|e: Expression, k: int| #[trigger] old(self).reads_expr_at(e, k, precedence) ==>
                (r matches Ok(x) && same_shape(e, x.node)) && final(self).pos == k
                    && final(self).next_id == old(self).next_id + expr_ids(e),
        decreases old(self).remaining(), 1nat,
    {
        let ghost start = old(self).pos as int;
        let ghost names = old(self).names();
        proof {
            assert forall|e: Expression, k: int| #[trigger] old(self).reads_expr_at(e, k, precedence) implies
                starts_operand(old(self).current()) && old(self).advances(1) && start < k by {
                let t = old(self).read(start, k);
                lemma_first_token(t, e, precedence_of(old(self).tokens@[k].value), names);
                assert(t[0] == old(self).current());
            }
        }
        // Look up the prefix parselet
        let p_parselet = match self.manager.lookup_prefix(self.token()) {
            Some(p) => p,
            None => return Err(self.unexpected_token(Some("a prefix expression"))),
        };
        // Parse the prefix expression
        let token = self.token();
        let span = self.span();
        self.bump()?;
        let ghost after = *self;
        proof {
            // What the head of the expression is, by its first token
            assert forall|e: Expression, k: int| #[trigger] old(self).reads_expr_at(e, k, precedence) implies {
                let t = old(self).read(start, k);
                &&& (token is Ident || literal_of(token) is Some) ==> {
                    let s0 = spine_node(t, e, 1, names);
                    &&& spine_at(t, e, s0, 1, names)
                    &&& expr_ids(s0) <= expr_ids(e)
                    &&& (token is Ident ==> (s0 matches Expression::Variable { name } && token == Token::Ident(name.node)))
                    &&& (literal_of(token) is Some ==> (s0 matches Expression::Literal { val } && literal_of(token) == Some(val)))
                }
                &&& (token is UnOp || token == Token::BinOp(crate::front::ast::BinOp::Sub)) ==> {
                    &&& e matches Expression::Prefix { op, item } && after.reads_expr_at(item.node, k, 0)
                        && after.ids_left(expr_ids(item.node) + 1)
                        && (token == Token::UnOp(op) || (token == Token::BinOp(crate::front::ast::BinOp::Sub) && op == crate::front::ast::UnOp::Neg))
                    &&& spine_node(t, e, t.len() as int, names) == e
                    &&& spine_at(t, e, e, t.len() as int, names)
                }
                &&& token == Token::LParen ==> exists|m0: int| #![trigger spine_node(t, e, m0, names)] {
                    let s0 = spine_node(t, e, m0, names);
                    &&& 2 <= m0 <= t.len()
                    &&& spine_at(t, e, s0, m0, names)
                    &&& expr_ids(s0) <= expr_ids(e)
                    &&& s0 matches Expression::Group(inner) && after.reads_expr_at(inner.node, start + m0 - 1, 0)
                        && old(self).tokens@[start + m0 - 1].value == Token::RParen
                        && (old(self).lex_error is None || start + m0 < old(self).tokens@.len() - 1)
                        && after.ids_left(expr_ids(inner.node) + 1)
                }
                &&& token is Ident || literal_of(token) is Some || token is UnOp || token == Token::BinOp(crate::front::ast::BinOp::Sub)
                    || token == Token::LParen
            } by {
                let t = old(self).read(start, k);
                let f = precedence_of(old(self).tokens@[k].value);
                let (s0, m0) = lemma_spine_head(t, e, f, names);
                lemma_spine_node(t, e, s0, m0, names);
                lemma_first_token(t, e, f, names);
                assert(t[0] == token);
                assert(t.subrange(0, m0)[0] == token);
                if s0 is Prefix {
                    let item = s0->Prefix_item.node;
                    lemma_binding_power_positive(item);
                    lemma_token_values_sub(old(self).tokens@, start, k, 1, t.len() as int);
                    assert(spells_expr(t.subrange(1, t.len() as int), item, names));
                }
                if s0 is Group {
                    let inner = s0->Group_0.node;
                    let u = t.subrange(0, m0);
                    lemma_binding_power_positive(inner);
                    lemma_token_values_sub(old(self).tokens@, start, k, 1, m0 - 1);
                    assert(u.subrange(1, u.len() - 1) =~= t.subrange(1, m0 - 1));
                    assert(u[u.len() - 1] == t[m0 - 1]);
                    assert(t[m0 - 1] == old(self).tokens@[start + m0 - 1].value);
                    if m0 < t.len() {
                        assert(t[m0] == old(self).tokens@[start + m0].value);
                    }
                    assert(spine_node(t, e, m0, names) == s0);
                }
            }
        }
        let mut left = match p_parselet {
            PrefixParselet::Ident(p) => {
                let e = p.parse(self, token, span)?;
                proof {
                    assert forall|ee: Expression, k: int| #[trigger] old(self).reads_expr_at(ee, k, precedence) implies
                        same_shape(spine_node(old(self).read(start, k), ee, 1, names), e.node) by {
                        let s0 = spine_node(old(self).read(start, k), ee, 1, names);
                        assert(s0 matches Expression::Variable { name } && token == Token::Ident(name.node));
                    }
                }
                e
            },
            PrefixParselet::Literal(p) => p.parse(self, token, span)?,
            PrefixParselet::PrefixOperator(p) => {
                let e = p.parse(self, token, span)?;
                proof {
                    lemma_spells_prefix(self.tokens@, start, self.pos as int, e.node, self.names());
                }
                e
            },
            PrefixParselet::Group(p) => {
                let e = p.parse(self, token, span)?;
                proof {
                    lemma_spells_group(self.tokens@, start, self.pos as int, e.node, self.names());
                    assert forall|ee: Expression, k: int| #[trigger] old(self).reads_expr_at(ee, k, precedence) implies
                        old(self).reading_at(start, ee, k, self.pos as int, e.node, self.next_id as int) by {
                        let t = old(self).read(start, k);
                        let m0 = choose|m0: int| #![trigger spine_node(t, ee, m0, names)] {
                            let s0 = spine_node(t, ee, m0, names);
                            &&& 2 <= m0 <= t.len()
                            &&& spine_at(t, ee, s0, m0, names)
                            &&& expr_ids(s0) <= expr_ids(ee)
                            &&& s0 matches Expression::Group(inner) && after.reads_expr_at(inner.node, start + m0 - 1, 0)
                                && old(self).tokens@[start + m0 - 1].value == Token::RParen
                                && (old(self).lex_error is None || start + m0 < old(self).tokens@.len() - 1)
                                && after.ids_left(expr_ids(inner.node) + 1)
                        };
                        let s0 = spine_node(t, ee, m0, names);
                        assert(after.reads_expr_at(s0->Group_0.node, start + m0 - 1, 0));
                    }
                }
                e
            },
        };
        while precedence < self.current_precedence()
            invariant
                self.wf(),
                self.unchanged_but_pos(*old(self)),
                old(self).pos < self.pos,
                precedence <= 13,
                binding_power(left.node) > precedence,
                start == old(self).pos,
                names == old(self).names(),
                spells_expr(self.read(start, self.pos as int), left.node, self.names()),
                precedence < precedence_of(self.current()) ==> closed_for(left.node, precedence_of(self.current()) as int),
                old(self).atom_at(precedence) ==> self.pos == old(self).pos + 1
                    && self.next_id == old(self).next_id + old(self).atom_ids(),
                forall|e: Expression, k: int| #[trigger] old(self).reads_expr_at(e, k, precedence) ==>
                    old(self).reading_at(start, e, k, self.pos as int, left.node, self.next_id as int),
            decreases self.remaining(),
        {
            let ghost before = *self;
            let ghost lbefore = left;
            proof {
                // Reading goes on: the token after the spine node is the
                // operator of the node above it
                assert forall|e: Expression, k: int| #[trigger] old(self).reads_expr_at(e, k, precedence) implies
                    before.pos < k && before.advances(1) by {
                    let t = old(self).read(start, k);
                    let m = before.pos - start;
                    let f = precedence_of(old(self).tokens@[k].value);
                    let sn = spine_node(t, e, m, names);
                    if sn == e && m == t.len() {
                        assert(before.current() == old(self).tokens@[k].value);
                    } else {
                        let (pp, mp) = lemma_spine_next(t, e, sn, m, f, names);
                    }
                }
            }
            // Look up the infix parselet
            let i_parselet = match self.manager.lookup_infix(self.token()) {
                Some(p) => p,
                None => return Err(self.unexpected_token(Some("an infix operator"))),
            };
            // Parse the infix expression
            let token = self.token();
            let span = self.span();
            let ghost mid = self.pos as int;
            self.bump()?;
            let ghost after = *self;
            proof {
                assert forall|e: Expression, k: int| #[trigger] old(self).reads_expr_at(e, k, precedence) implies
                    exists|mp: int| #[trigger] old(self).reading_step(start, e, k, before.pos - start, mp, token, after) by {
                    let t = old(self).read(start, k);
                    let m = before.pos - start;
                    let f = precedence_of(old(self).tokens@[k].value);
                    let sn = spine_node(t, e, m, names);
                    if sn == e && m == t.len() {
                        assert(before.current() == old(self).tokens@[k].value);
                    } else {
                        let (pp, mp) = lemma_spine_next(t, e, sn, m, f, names);
                        lemma_spine_node(t, e, pp, mp, names);
                        assert(t[m] == token);
                        lemma_token_values_sub(old(self).tokens@, start, k, m + 1, mp);
                        if mp < t.len() {
                            assert(t[mp] == old(self).tokens@[start + mp].value);
                        }
                        match pp {
                            Expression::Infix { op, lhs, rhs } => {
                                lemma_first_token(t.subrange(m + 1, mp), rhs.node, follow_at(t, mp, f), names);
                                assert(t.subrange(m + 1, mp)[0] == after.current());
                            },
                            Expression::Assign { lhs, rhs } => {
                                lemma_binding_power_positive(rhs.node);
                            },
                            Expression::Call { .. } => {
                                assert(t[m + 1] == after.current());
                            },
                            _ => {},
                        }
                        assert(spine_node(t, e, mp, names) == pp);
                        assert(old(self).reading_step(start, e, k, m, mp, token, after));
                    }
                }
            }
            left = match i_parselet {
                InfixParselet::BinaryOperator(p) => {
                    proof {
                        assert forall|ee: Expression, k: int| #[trigger] old(self).reads_expr_at(ee, k, precedence) implies
                            exists|mp: int| #[trigger] old(self).reading_step(start, ee, k, before.pos - start, mp, token, after)
                                && spine_node(old(self).read(start, k), ee, mp, names) is Infix
                                && after.reads_expr_at(spine_node(old(self).read(start, k), ee, mp, names)->Infix_rhs.node, start + mp, p.rhs_precedence()) by {
                            let mp = choose|mp: int| #[trigger] old(self).reading_step(start, ee, k, before.pos - start, mp, token, after);
                            assert(old(self).reading_step(start, ee, k, before.pos - start, mp, token, after));
                        }
                    }
                    let e = p.parse(self, left, token, span)?;
                    proof {
                        lemma_spells_binary(self.tokens@, start, mid, self.pos as int, e.node, self.names());
                        assert forall|ee: Expression, k: int| #[trigger] old(self).reads_expr_at(ee, k, precedence) implies
                            old(self).reading_at(start, ee, k, self.pos as int, e.node, self.next_id as int) by {
                            let mp = choose|mp: int| #[trigger] old(self).reading_step(start, ee, k, before.pos - start, mp, token, after)
                                && spine_node(old(self).read(start, k), ee, mp, names) is Infix
                                && after.reads_expr_at(spine_node(old(self).read(start, k), ee, mp, names)->Infix_rhs.node, start + mp, p.rhs_precedence());
                            assert(old(self).reading_at(start, ee, k, before.pos as int, lbefore.node, before.next_id as int));
                        }
                    }
                    e
                },
                InfixParselet::Assign(p) => {
                    proof {
                        assert forall|ee: Expression, k: int| #[trigger] old(self).reads_expr_at(ee, k, precedence) implies
                            exists|mp: int| #[trigger] old(self).reading_step(start, ee, k, before.pos - start, mp, token, after)
                                && spine_node(old(self).read(start, k), ee, mp, names) is Assign
                                && after.reads_expr_at(spine_node(old(self).read(start, k), ee, mp, names)->Assign_rhs.node, start + mp, 0) by {
                            let mp = choose|mp: int| #[trigger] old(self).reading_step(start, ee, k, before.pos - start, mp, token, after);
                            assert(old(self).reading_step(start, ee, k, before.pos - start, mp, token, after));
                        }
                    }
                    let e = p.parse(self, left, token, span)?;
                    proof {
                        lemma_spells_binary(self.tokens@, start, mid, self.pos as int, e.node, self.names());
                        assert forall|ee: Expression, k: int| #[trigger] old(self).reads_expr_at(ee, k, precedence) implies
                            old(self).reading_at(start, ee, k, self.pos as int, e.node, self.next_id as int) by {
                            let mp = choose|mp: int| #[trigger] old(self).reading_step(start, ee, k, before.pos - start, mp, token, after)
                                && spine_node(old(self).read(start, k), ee, mp, names) is Assign
                                && after.reads_expr_at(spine_node(old(self).read(start, k), ee, mp, names)->Assign_rhs.node, start + mp, 0);
                            assert(old(self).reading_at(start, ee, k, before.pos as int, lbefore.node, before.next_id as int));
                        }
                    }
                    e
                },
                InfixParselet::Call(p) => {
                    proof {
                        assert forall|ee: Expression, k: int| #[trigger] old(self).reads_expr_at(ee, k, precedence) implies
                            exists|mp: int| #[trigger] old(self).reading_step(start, ee, k, before.pos - start, mp, token, after)
                                && spine_node(old(self).read(start, k), ee, mp, names) is Call by {
                            let mp = choose|mp: int| #[trigger] old(self).reading_step(start, ee, k, before.pos - start, mp, token, after);
                            assert(old(self).reading_step(start, ee, k, before.pos - start, mp, token, after));
                        }
                    }
                    let e = p.parse(self, left, token, span)?;
                    proof {
                        lemma_spells_call(self.tokens@, start, mid, self.pos as int, e.node, self.names());
                        assert forall|ee: Expression, k: int| #[trigger] old(self).reads_expr_at(ee, k, precedence) implies
                            old(self).reading_at(start, ee, k, self.pos as int, e.node, self.next_id as int) by {
                            let mp = choose|mp: int| #[trigger] old(self).reading_step(start, ee, k, before.pos - start, mp, token, after)
                                && spine_node(old(self).read(start, k), ee, mp, names) is Call;
                            assert(old(self).reading_at(start, ee, k, before.pos as int, lbefore.node, before.next_id as int));
                        }
                    }
                    e
                },
            };
        }
        proof {
            assert forall|e: Expression, k: int| #[trigger] old(self).reads_expr_at(e, k, precedence) implies
                self.pos == k && same_shape(e, left.node) && self.next_id == old(self).next_id + expr_ids(e) by {
                let t = old(self).read(start, k);
                let m = self.pos - start;
                let f = precedence_of(old(self).tokens@[k].value);
                let sn = spine_node(t, e, m, names);
                if !(sn == e && m == t.len()) {
                    let (pp, mp) = lemma_spine_next(t, e, sn, m, f, names);
                    assert(t[m] == self.current());
                }
            }
        }
        Ok(left)
    }

    /// Parse a conditional: `k_if expression block (k_else block)?`
    pub fn parse_if(&mut self) -> (r: Result<Node<Expression>, Diagnostic>)
        requires
            old(self).wf(),
        ensures
            final(self).wf(),
            final(self).unchanged_but_pos(*old(self)),
            old(self).pos <= final(self).pos,
            r is Ok ==> old(self).pos < final(self).pos,
            r is Ok ==> old(self).current() == Token::Keyword(Keyword::If),
            r matches Ok(e) ==> e.node is If,
            r matches Ok(e) ==> spells_expr(final(self).read(old(self).pos as int, final(self).pos as int), e.node, final(self).names()),
            old(self).current() != Token::Keyword(Keyword::If) ==> r is Err,
            old(self).keyword_atom_empty_block_at(Keyword::If)
                && old(self).tokens@[old(self).pos + 4].value != Token::Keyword(Keyword::Else)
                ==> (r is Ok <==> (old(self).advances(4) && old(self).ids_left(3 + old(self).atom_ids_at(1)))),
        decreases old(self).remaining(), 0nat,
    {
        let lo = self.span();
        self.expect(Token::Keyword(Keyword::If))?;
        let cond = self.parse_expression()?;
        let ghost k = self.pos as int;
        let conseq = self.parse_block()?;
        let ghost j = self.pos as int;
        let altern = if self.eat(Token::Keyword(Keyword::Else))? {
            Some(Box::new(self.parse_block()?))
        } else {
            None
        };
        let id = self.fresh_id()?;
        let e = Node::new(Expression::If { cond: Box::new(cond), conseq: Box::new(conseq), altern }, lo.join(self.span()), id);
        proof {
            lemma_spells_if(self.tokens@, old(self).pos as int, k, j, self.pos as int, e.node, self.names());
        }
        Ok(e)
    }

    /// Parse a loop: `k_while expression block`
    pub fn parse_while(&mut self) -> (r: Result<Node<Expression>, Diagnostic>)
        requires
            old(self).wf(),
        ensures
            final(self).wf(),
            final(self).unchanged_but_pos(*old(self)),
            old(self).pos <= final(self).pos,
            r is Ok ==> old(self).pos < final(self).pos,
            r is Ok ==> old(self).current() == Token::Keyword(Keyword::While),
            r matches Ok(e) ==> e.node is While,
            r matches Ok(e) ==> spells_expr(final(self).read(old(self).pos as int, final(self).pos as int), e.node, final(self).names()),
            old(self).current() != Token::Keyword(Keyword::While) ==> r is Err,
            old(self).keyword_atom_empty_block_at(Keyword::While)
                ==> (r is Ok <==> (old(self).advances(4) && old(self).ids_left(3 + old(self).atom_ids_at(1)))),
        decreases old(self).remaining(), 0nat,
    {
        let lo = self.span();
        self.expect(Token::Keyword(Keyword::While))?;
        let cond = self.parse_expression()?;
        let ghost k = self.pos as int;
        let body = self.parse_block()?;
        let id = self.fresh_id()?;
        let e = Node::new(Expression::While { cond: Box::new(cond), body: Box::new(body) }, lo.join(self.span()), id);
        proof {
            lemma_spells_while(self.tokens@, old(self).pos as int, k, self.pos as int, e.node, self.names());
        }
        Ok(e)
    }
    // --- Parsing: Symbols -----------------------------------------------------

    /// Parse a function:
    /// `k_fn IDENT LPAREN (binding COMMA)* binding? RPAREN (RARROW TYPE)? block`
    #[verifier::spinoff_prover]
    #[verifier::rlimit(40)]
    pub fn parse_fn(&mut self) -> (r: Result<Node<Symbol>, Diagnostic>)
        requires
            old(self).wf(),
        ensures
            final(self).wf(),
            final(self).unchanged_but_pos(*old(self)),
            old(self).pos < final(self).pos || r is Err,
            old(self).pos <= final(self).pos,
            r is Ok ==> old(self).current() == Token::Keyword(Keyword::Fn),
            r matches Ok(f) ==> f.node matches Symbol::Function { name, .. }
                && old(self).tokens@[old(self).pos + 1].value == Token::Ident(name.node),
            r matches Ok(f) ==> spells_symbol(final(self).read(old(self).pos as int, final(self).pos as int), f.node, final(self).names()),
            old(self).current() != Token::Keyword(Keyword::Fn) ==> r is Err,
            old(self).empty_fn_at() ==> (r is Ok <==> (old(self).advances(6) && old(self).ids_left(4))),
            old(self).empty_fn_at() ==> (r matches Ok(f) ==> final(self).pos == old(self).pos + 6
                && (f.node matches Symbol::Function { bindings, ret_ty, body, .. }
                && bindings@.len() == 0 && ret_ty == Type::Unit && body.node.stmts@.len() == 0 && body.node.expr.node is Unit)),
            forall|b: Block, k: int, cuts: Seq<int>| #[trigger] old(self).reads_plain_fn_at(b, k, cuts) ==>
                (r matches Ok(f) && f.node matches Symbol::Function { name, bindings, ret_ty, body }
                    && old(self).tokens@[old(self).pos + 1].value == Token::Ident(name.node)
                    && bindings@.len() == 0 && ret_ty == Type::Unit && same_block_shape(b, body.node))
                && final(self).pos == k && final(self).next_id == old(self).next_id + block_ids(b) + 2,
    {
        let lo = self.span();
        // Parse `fn <name>`
        proof {
            assert forall|b: Block, k: int, cuts: Seq<int>| #[trigger] old(self).reads_plain_fn_at(b, k, cuts) implies
                block_ids(b) >= 0 && old(self).pos + 4 < k by {
                assert forall|j: int| 0 <= j < b.stmts@.len() implies plain_stmt((#[trigger] b.stmts@[j]).node) by {}
                lemma_stmts_ids_prefix(b.stmts@, 0);
                if !(b.expr.node is Unit) {
                    lemma_expr_ids_positive(b.expr.node, 0);
                }
            }
        }
        self.expect(Token::Keyword(Keyword::Fn))?;
        let ident = self.parse_ident()?;
        self.expect(Token::LParen)?;
        // Parse the expected arguments
        let mut bindings: Vec<Node<Binding>> = Vec::new();
        let ghost a = old(self).pos as int;
        let ghost names = self.names();
        assert(self.read(a + 3, a + 3) =~= Seq::<Token>::empty());
        while self.token() != Token::RParen
            invariant_except_break
                params_with_commas(self.read(a + 3, self.pos as int), bindings@, names),
            invariant
                self.wf(),
                self.unchanged_but_pos(*old(self)),
                old(self).pos < self.pos,
                a == old(self).pos,
                a + 3 <= self.pos,
                names == self.names(),
                old(self).empty_fn_at() ==> self.pos == a + 3 && self.next_id == old(self).next_id + 1
                    && bindings@.len() == 0,
                forall|b: Block, k: int, cuts: Seq<int>| #[trigger] old(self).reads_plain_fn_at(b, k, cuts) ==>
                    self.pos == a + 3 && self.next_id == old(self).next_id + 1 && bindings@.len() == 0,
            ensures
                spells_params(self.read(a + 3, self.pos as int), bindings@, names),
                old(self).empty_fn_at() ==> self.pos == a + 3 && self.next_id == old(self).next_id + 1
                    && bindings@.len() == 0,
            decreases self.remaining(),
        {
            let ghost before = self.pos as int;
            let ghost old_bindings = bindings@;
            bindings.push(self.parse_binding()?);
            proof {
                assert(bindings@.drop_last() == old_bindings);
                lemma_token_values_split(self.tokens@, a + 3, before, before + 3);
            }
            if !self.eat(Token::Comma)? {
                break;
            }
            proof {
                let t = self.read(a + 3, self.pos as int);
                assert(t.subrange(0, t.len() - 4) =~= self.read(a + 3, before));
                assert(t.subrange(t.len() - 4, t.len() - 1) =~= self.read(before, before + 3));
            }
        }
        let ghost k = self.pos as int;
        self.expect(Token::RParen)?;
        // Parse the return type
        let ret_ty = if self.eat(Token::RArrow)? {
            self.parse_type()?
        } else {
            Type::Unit
        };
        let ghost j = self.pos as int;
        proof {
            assert forall|b: Block, k: int, cuts: Seq<int>| #[trigger] old(self).reads_plain_fn_at(b, k, cuts) implies
                self.reads_block_at(b, k, cuts) by {
                assert(self.pos == old(self).pos + 4);
                assert(self.next_id == old(self).next_id + 1);
            }
        }
        // Parse the body
        let body = self.parse_block()?;
        let id = self.fresh_id()?;
        let f = Node::new(Symbol::Function { name: ident, bindings, ret_ty, body: Box::new(body) }, lo.join(self.span()), id);
        proof {
            let t = self.read(a, self.pos as int);
            assert(t.subrange(3, k - a) =~= self.read(a + 3, k));
            assert(t.subrange(j - a, t.len() as int) =~= self.read(j, self.pos as int));
            assert(t[k - a] == self.tokens@[k].value);
            if j == k + 3 {
                assert(t[k - a + 1] == self.tokens@[k + 1].value);
                assert(t[k - a + 2] == self.tokens@[k + 2].value);
            }
        }
        Ok(f)
    }

    /// Parse a static: `k_static binding EQ literal SEMICOLON`
    pub fn parse_static(&mut self) -> (r: Result<Node<Symbol>, Diagnostic>)
        requires
            old(self).wf(),
        ensures
            final(self).wf(),
            final(self).unchanged_but_pos(*old(self)),
            old(self).pos < final(self).pos || r is Err,
            old(self).pos <= final(self).pos,
            r is Ok ==> old(self).current() == Token::Keyword(Keyword::Static),
            r matches Ok(s) ==> s.node matches Symbol::Static { binding, value }
                && old(self).tokens@[old(self).pos + 1].value == Token::Ident(binding.node.name.node)
                && value.node is Literal
                && literal_of(old(self).tokens@[old(self).pos + 5].value) == Some(value.node->Literal_val),
            r matches Ok(s) ==> spells_symbol(final(self).read(old(self).pos as int, final(self).pos as int), s.node, final(self).names()),
            old(self).current() != Token::Keyword(Keyword::Static) ==> r is Err,
            r is Ok <==> (old(self).simple_symbol_at(Keyword::Static) && old(self).ids_left(5) && old(self).advances(7)),
    {
        let lo = self.span();
        self.expect(Token::Keyword(Keyword::Static))?;
        let binding = self.parse_binding()?;
        self.expect(Token::Eq)?;
        let value = self.parse_literal()?;
        self.expect(Token::Semicolon)?;
        let id = self.fresh_id()?;
        proof {
            let a = old(self).pos as int;
            let t = self.read(a, self.pos as int);
            assert(t.subrange(1, 4) =~= self.read(a + 1, a + 4));
            assert(t[5] == self.read(a + 5, a + 6)[0]);
        }
        Ok(Node::new(Symbol::Static { binding: Box::new(binding), value: Box::new(value) }, lo.join(self.span()), id))
    }

    /// Parse a constant: `k_const binding EQ literal SEMICOLON`
    pub fn parse_const(&mut self) -> (r: Result<Node<Symbol>, Diagnostic>)
        requires
            old(self).wf(),
        ensures
            final(self).wf(),
            final(self).unchanged_but_pos(*old(self)),
            old(self).pos < final(self).pos || r is Err,
            old(self).pos <= final(self).pos,
            r is Ok ==> old(self).current() == Token::Keyword(Keyword::Const),
            r matches Ok(s) ==> s.node matches Symbol::Constant { binding, value }
                && old(self).tokens@[old(self).pos + 1].value == Token::Ident(binding.node.name.node)
                && value.node is Literal
                && literal_of(old(self).tokens@[old(self).pos + 5].value) == Some(value.node->Literal_val),
            r matches Ok(s) ==> spells_symbol(final(self).read(old(self).pos as int, final(self).pos as int), s.node, final(self).names()),
            old(self).current() != Token::Keyword(Keyword::Const) ==> r is Err,
            r is Ok <==> (old(self).simple_symbol_at(Keyword::Const) && old(self).ids_left(5) && old(self).advances(7)),
    {
        let lo = self.span();
        self.expect(Token::Keyword(Keyword::Const))?;
        let binding = self.parse_binding()?;
        self.expect(Token::Eq)?;
        let value = self.parse_literal()?;
        self.expect(Token::Semicolon)?;
        let id = self.fresh_id()?;
        proof {
            let a = old(self).pos as int;
            let t = self.read(a, self.pos as int);
            assert(t.subrange(1, 4) =~= self.read(a + 1, a + 4));
            assert(t[5] == self.read(a + 5, a + 6)[0]);
        }
        Ok(Node::new(Symbol::Constant { binding: Box::new(binding), value: Box::new(value) }, lo.join(self.span()), id))
    }

    /// Parse a symbol: a function, a static or a constant
    pub fn parse_symbol(&mut self) -> (r: Result<Node<Symbol>, Diagnostic>)
        requires
            old(self).wf(),
        ensures
            final(self).wf(),
            final(self).unchanged_but_pos(*old(self)),
            old(self).pos < final(self).pos || r is Err,
            old(self).pos <= final(self).pos,
            r matches Ok(s) ==> (s.node is Function <==> old(self).current() == Token::Keyword(Keyword::Fn)),
            r matches Ok(s) ==> (s.node is Static <==> old(self).current() == Token::Keyword(Keyword::Static)),
            r matches Ok(s) ==> (s.node is Constant <==> old(self).current() == Token::Keyword(Keyword::Const)),
            r matches Ok(s) ==> spells_symbol(final(self).read(old(self).pos as int, final(self).pos as int), s.node, final(self).names()),
            !symbol_start(old(self).current()) ==> r is Err,
            old(self).current() == Token::Keyword(Keyword::Static) ==> (r is Ok <==>
                (old(self).simple_symbol_at(Keyword::Static) && old(self).ids_left(5) && old(self).advances(7))),
            old(self).empty_fn_at() ==> (r is Ok <==> (old(self).advances(6) && old(self).ids_left(4))),
            old(self).empty_fn_at() ==> (r matches Ok(f) ==> f.node is Function && final(self).pos == old(self).pos + 6),
            old(self).current() == Token::Keyword(Keyword::Const) ==> (r is Ok <==>
                (old(self).simple_symbol_at(Keyword::Const) && old(self).ids_left(5) && old(self).advances(7))),
            forall|b: Block, k: int, cuts: Seq<int>| #[trigger] old(self).reads_plain_fn_at(b, k, cuts) ==>
                (r matches Ok(f) && plain_fn_shape(b, f.node))
                && final(self).pos == k && final(self).next_id == old(self).next_id + block_ids(b) + 2,
    {
        match self.token() {
            Token::Keyword(Keyword::Fn) => self.parse_fn(),
            Token::Keyword(Keyword::Static) => self.parse_static(),
            Token::Keyword(Keyword::Const) => self.parse_const(),
            _ => Err(self.unexpected_token(Some("a symbol"))),
        }
    }
}

/// The tokens a symbol starts with
pub open spec fn symbol_start(t: Token) -> bool {
    t == Token::Keyword(Keyword::Fn) || t == Token::Keyword(Keyword::Static) || t == Token::Keyword(Keyword::Const)
}

/// Where an expression parsed with a precedence ends: before a token whose
/// infix precedence is not higher (an `if`, `while`, `return` or `break` ends
/// The node ids that reading the first `i` of the functions `fs` hands out
pub open spec fn plain_fns_ids(fs: Seq<(Block, int, Seq<int>)>, i: int) -> int
    decreases i,
{
    if i <= 0 || i > fs.len() { 0 } else { plain_fns_ids(fs, i - 1) + block_ids(fs[i - 1].0) + 2 }
}

/// A function without parameters or result whose body has the shape of `b`
pub open spec fn plain_fn_shape(b: Block, s: Symbol) -> bool {
    s matches Symbol::Function { bindings, ret_ty, body, .. } && bindings@.len() == 0 && ret_ty == Type::Unit
        && same_block_shape(b, body.node)
}

/// by its own syntax)
pub open spec fn stops_expression(e: Expression, next: Token, precedence: u32) -> bool {
    is_open(e) || precedence_of(next) <= precedence
}

} // verus!
