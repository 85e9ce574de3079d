//! All tokens that the RusTiny lexer produces

use vstd::prelude::*;
use crate::driver::interner::{Ident, Interner};
use crate::front::ast::{BinOp, UnOp};
use crate::util::text::{chars_eq, push_char, push_chars, push_str, push_u64};

verus! {

#[derive(Clone, Copy, Debug, PartialEq, Eq, Structural)]
pub enum Token {
    BinOp(BinOp),
    UnOp(UnOp),

    LParen,
    RParen,
    LBrace,
    RBrace,
    Comma,
    Colon,
    Semicolon,
    RArrow,
    Eq,

    Keyword(Keyword),
    Ident(Ident),
    Int(u32),
    Char(char),

    EOF,
}

/// The classes of tokens the parselet tables are keyed by
#[derive(Clone, Copy, Debug, PartialEq, Eq, Structural)]
pub enum TokenType {
    Literal,
    Ident,
    UnOp,
    BinOp(BinOp),
    LParen,
    RParen,
    LBrace,
    RBrace,
    Comma,
    Colon,
    Semicolon,
    RArrow,
    Eq,
    Keyword(Keyword),
    EOF,
}

/// The class of a token
pub open spec fn token_type(t: Token) -> TokenType {
    match t {
        Token::BinOp(op) => TokenType::BinOp(op),
        Token::UnOp(..) => TokenType::UnOp,
        Token::LParen => TokenType::LParen,
        Token::RParen => TokenType::RParen,
        Token::LBrace => TokenType::LBrace,
        Token::RBrace => TokenType::RBrace,
        Token::Comma => TokenType::Comma,
        Token::Colon => TokenType::Colon,
        Token::Semicolon => TokenType::Semicolon,
        Token::RArrow => TokenType::RArrow,
        Token::Eq => TokenType::Eq,
        Token::Keyword(Keyword::True) | Token::Keyword(Keyword::False) => TokenType::Literal,
        Token::Keyword(kw) => TokenType::Keyword(kw),
        Token::Ident(..) => TokenType::Ident,
        Token::Int(..) | Token::Char(..) => TokenType::Literal,
        Token::EOF => TokenType::EOF,
    }
}

impl Token {
    pub fn ty(&self) -> (r: TokenType)
        ensures
            r == token_type(*self),
    {
        match *self {
            Token::BinOp(op) => TokenType::BinOp(op),
            Token::UnOp(..) => TokenType::UnOp,
            Token::LParen => TokenType::LParen,
            Token::RParen => TokenType::RParen,
            Token::LBrace => TokenType::LBrace,
            Token::RBrace => TokenType::RBrace,
            Token::Comma => TokenType::Comma,
            Token::Colon => TokenType::Colon,
            Token::Semicolon => TokenType::Semicolon,
            Token::RArrow => TokenType::RArrow,
            Token::Eq => TokenType::Eq,
            Token::Keyword(Keyword::True) | Token::Keyword(Keyword::False) => TokenType::Literal,
            Token::Keyword(kw) => TokenType::Keyword(kw),
            Token::Ident(..) => TokenType::Ident,
            Token::Int(..) | Token::Char(..) => TokenType::Literal,
            Token::EOF => TokenType::EOF,
        }
    }
}

// --- List of keywords ---------------------------------------------------------

#[derive(Clone, Copy, Debug, PartialEq, Eq, Structural)]
pub enum Keyword {
    Fn,
    Static,
    Const,
    Let,
    If,
    Else,
    While,
    Return,
    Break,
    True,
    False,
    Impl,
}

/// The spelling of a keyword
pub open spec fn keyword_name(k: Keyword) -> Seq<char> {
    match k {
        Keyword::Fn => seq!['f', 'n'],
        Keyword::Static => seq!['s', 't', 'a', 't', 'i', 'c'],
        Keyword::Const => seq!['c', 'o', 'n', 's', 't'],
        Keyword::Let => seq!['l', 'e', 't'],
        Keyword::If => seq!['i', 'f'],
        Keyword::Else => seq!['e', 'l', 's', 'e'],
        Keyword::While => seq!['w', 'h', 'i', 'l', 'e'],
        Keyword::Return => seq!['r', 'e', 't', 'u', 'r', 'n'],
        Keyword::Break => seq!['b', 'r', 'e', 'a', 'k'],
        Keyword::True => seq!['t', 'r', 'u', 'e'],
        Keyword::False => seq!['f', 'a', 'l', 's', 'e'],
        Keyword::Impl => seq!['i', 'm', 'p', 'l'],
    }
}

/// The keywords in the order they are loaded into the interner
pub open spec fn all_keywords() -> Seq<Keyword> {
    seq![
        Keyword::Fn, Keyword::Static, Keyword::Const, Keyword::Let, Keyword::If, Keyword::Else,
        Keyword::While, Keyword::Return, Keyword::Break, Keyword::True, Keyword::False, Keyword::Impl,
    ]
}

impl Keyword {
    /// The spelling of the keyword
    pub fn name(&self) -> (r: &'static [char])
        ensures
            r@ == keyword_name(*self),
    {
        match *self {
            Keyword::Fn => { let a: &'static [char] = &['f', 'n']; assert(a@ =~= keyword_name(*self)); a },
            Keyword::Static => { let a: &'static [char] = &['s', 't', 'a', 't', 'i', 'c']; assert(a@ =~= keyword_name(*self)); a },
            Keyword::Const => { let a: &'static [char] = &['c', 'o', 'n', 's', 't']; assert(a@ =~= keyword_name(*self)); a },
            Keyword::Let => { let a: &'static [char] = &['l', 'e', 't']; assert(a@ =~= keyword_name(*self)); a },
            Keyword::If => { let a: &'static [char] = &['i', 'f']; assert(a@ =~= keyword_name(*self)); a },
            Keyword::Else => { let a: &'static [char] = &['e', 'l', 's', 'e']; assert(a@ =~= keyword_name(*self)); a },
            Keyword::While => { let a: &'static [char] = &['w', 'h', 'i', 'l', 'e']; assert(a@ =~= keyword_name(*self)); a },
            Keyword::Return => { let a: &'static [char] = &['r', 'e', 't', 'u', 'r', 'n']; assert(a@ =~= keyword_name(*self)); a },
            Keyword::Break => { let a: &'static [char] = &['b', 'r', 'e', 'a', 'k']; assert(a@ =~= keyword_name(*self)); a },
            Keyword::True => { let a: &'static [char] = &['t', 'r', 'u', 'e']; assert(a@ =~= keyword_name(*self)); a },
            Keyword::False => { let a: &'static [char] = &['f', 'a', 'l', 's', 'e']; assert(a@ =~= keyword_name(*self)); a },
            Keyword::Impl => { let a: &'static [char] = &['i', 'm', 'p', 'l']; assert(a@ =~= keyword_name(*self)); a },
        }
    }

    /// Load all keywords into the interner
    pub fn setup(interner: &mut Interner)
        requires
            old(interner).wf(),
        ensures
            final(interner).wf(),
            forall|i: int| 0 <= i < all_keywords().len() ==> #[trigger] final(interner)@.contains(keyword_name(all_keywords()[i])),
            forall|n: Seq<char>| old(interner)@.contains(n) ==> final(interner)@.contains(n),
            forall|n: Seq<char>| #[trigger] final(interner)@.contains(n) ==> old(interner)@.contains(n)
                || exists|j: int| 0 <= j < all_keywords().len() && n == keyword_name(all_keywords()[j]),
    {
        let kws = [
            Keyword::Fn, Keyword::Static, Keyword::Const, Keyword::Let, Keyword::If, Keyword::Else,
            Keyword::While, Keyword::Return, Keyword::Break, Keyword::True, Keyword::False, Keyword::Impl,
        ];
        assert(kws@ =~= all_keywords());
        let ghost start = interner@;
        let mut i: usize = 0;
        while i < 12
            invariant
                i <= 12,
                kws@ == all_keywords(),
                interner.wf(),
                forall|j: int| 0 <= j < i ==> #[trigger] interner@.contains(keyword_name(all_keywords()[j])),
                forall|n: Seq<char>| start.contains(n) ==> interner@.contains(n),
                forall|n: Seq<char>| #[trigger] interner@.contains(n) ==> start.contains(n)
                    || exists|j: int| 0 <= j < all_keywords().len() && n == keyword_name(all_keywords()[j]),
            decreases 12 - i,
        {
            let ghost before = interner@;
            let id = interner.intern(kws[i].name());
            assert(interner@[id.0 as int] == keyword_name(all_keywords()[i as int]));
            assert(interner@.contains(keyword_name(all_keywords()[i as int])));
            assert forall|n: Seq<char>| #[trigger] interner@.contains(n) implies start.contains(n)
                || exists|j: int| 0 <= j < all_keywords().len() && n == keyword_name(all_keywords()[j]) by {
                if !before.contains(n) {
                    let k = choose|k: int| 0 <= k < interner@.len() && interner@[k] == n;
                    if before.contains(keyword_name(all_keywords()[i as int])) {
                        assert(interner@ == before);
                        assert(before[k] == n);
                    } else {
                        assert(interner@ == before.push(keyword_name(all_keywords()[i as int])));
                        if k < before.len() {
                            assert(before[k] == n);
                        }
                        assert(n == keyword_name(all_keywords()[i as int]));
                    }
                }
            }
            assert forall|n: Seq<char>| before.contains(n) implies interner@.contains(n) by {
                let k = choose|k: int| 0 <= k < before.len() && before[k] == n;
                assert(interner@[k] == n);
            }
            assert forall|j: int| 0 <= j < i + 1 implies #[trigger] interner@.contains(keyword_name(all_keywords()[j])) by {
                if j < i {
                    assert(before.contains(keyword_name(all_keywords()[j])));
                }
            }
            i = i + 1;
        }
    }
}

/// Get the keyword a name represents, if any
pub fn lookup_keyword(s: &[char]) -> (r: Option<Keyword>)
    ensures
        r matches Some(k) ==> keyword_name(k) == s@,
        r is None ==> forall|k: Keyword| keyword_name(k) != s@,
{
    let kws = [
        Keyword::Fn, Keyword::Static, Keyword::Const, Keyword::Let, Keyword::If, Keyword::Else,
        Keyword::While, Keyword::Return, Keyword::Break, Keyword::True, Keyword::False, Keyword::Impl,
    ];
    assert(kws@ =~= all_keywords());
    let mut i: usize = 0;
    while i < 12
        invariant
            i <= 12,
            kws@ == all_keywords(),
            forall|j: int| 0 <= j < i ==> keyword_name(#[trigger] all_keywords()[j]) != s@,
        decreases 12 - i,
    {
        if chars_eq(kws[i].name(), s) {
            return Some(kws[i]);
        }
        i = i + 1;
    }
    assert forall|k: Keyword| keyword_name(k) != s@ by {
        match k {
            Keyword::Fn => assert(all_keywords()[0] == k),
            Keyword::Static => assert(all_keywords()[1] == k),
            Keyword::Const => assert(all_keywords()[2] == k),
            Keyword::Let => assert(all_keywords()[3] == k),
            Keyword::If => assert(all_keywords()[4] == k),
            Keyword::Else => assert(all_keywords()[5] == k),
            Keyword::While => assert(all_keywords()[6] == k),
            Keyword::Return => assert(all_keywords()[7] == k),
            Keyword::Break => assert(all_keywords()[8] == k),
            Keyword::True => assert(all_keywords()[9] == k),
            Keyword::False => assert(all_keywords()[10] == k),
            Keyword::Impl => assert(all_keywords()[11] == k),
        }
    }
    None
}

/// The spelling of a binary operator
pub fn binop_str(op: BinOp) -> (r: &'static str)
    ensures
        r@ == crate::util::pretty::binop_text(op),
{
    match op {
        BinOp::Add => "+",
        BinOp::Sub => "-",
        BinOp::Mul => "*",
        BinOp::Div => "/",
        BinOp::Mod => "%",
        BinOp::Pow => "**",
        BinOp::And => "&&",
        BinOp::Or => "||",
        BinOp::BitXor => "^",
        BinOp::BitAnd => "&",
        BinOp::BitOr => "|",
        BinOp::Shl => "<<",
        BinOp::Shr => ">>",
        BinOp::EqEq => "==",
        BinOp::Lt => "<",
        BinOp::Le => "<=",
        BinOp::Ne => "!=",
        BinOp::Ge => ">=",
        BinOp::Gt => ">",
    }
}

/// The spelling of a unary operator
pub fn unop_str(op: UnOp) -> (r: &'static str)
    ensures
        r@ == crate::util::pretty::unop_text(op),
{
    match op {
        UnOp::Neg => "-",
        UnOp::Not => "!",
    }
}

/// The text of a token as error messages show it, given the interned names
pub open spec fn token_display(t: Token, names: Seq<Seq<char>>) -> Seq<char> {
    match t {
        Token::BinOp(op) => crate::util::pretty::binop_text(op),
        Token::UnOp(op) => crate::util::pretty::unop_text(op),
        Token::LParen => "("@,
        Token::RParen => ")"@,
        Token::LBrace => "{"@,
        Token::RBrace => "}"@,
        Token::Comma => ","@,
        Token::Colon => ":"@,
        Token::Semicolon => ";"@,
        Token::RArrow => "->"@,
        Token::Eq => "="@,
        Token::Keyword(kw) => keyword_name(kw),
        Token::Ident(id) => if id.0 < names.len() { names[id.0 as int] } else { "<unknown identifier>"@ },
        Token::Int(i) => crate::util::text::decimal(i as nat),
        Token::Char(c) => seq![c],
        Token::EOF => "EOF"@,
    }
}

/// Append the text of a token (as shown in error messages)
pub fn push_token(s: &mut String, t: &Token, interner: &Interner)
    ensures
        final(s)@ == old(s)@ + token_display(*t, interner@),
{
    let ghost s0 = s@;
    match *t {
        Token::BinOp(op) => push_str(s, binop_str(op)),
        Token::UnOp(op) => push_str(s, unop_str(op)),
        Token::LParen => push_str(s, "("),
        Token::RParen => push_str(s, ")"),
        Token::LBrace => push_str(s, "{"),
        Token::RBrace => push_str(s, "}"),
        Token::Comma => push_str(s, ","),
        Token::Colon => push_str(s, ":"),
        Token::Semicolon => push_str(s, ";"),
        Token::RArrow => push_str(s, "->"),
        Token::Eq => push_str(s, "="),
        Token::Keyword(kw) => push_chars(s, kw.name()),
        Token::Ident(id) => {
            if id.0 < interner.len() {
                push_chars(s, interner.resolve(id));
            } else {
                push_str(s, "<unknown identifier>");
            }
        },
        Token::Int(i) => push_u64(s, i as u64),
        Token::Char(c) => push_char(s, c),
        Token::EOF => push_str(s, "EOF"),
    }
}

} // verus!
