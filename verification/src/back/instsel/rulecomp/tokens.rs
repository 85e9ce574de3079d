//! All tokens that the rule parser understands

use vstd::prelude::*;
use crate::driver::interner::{Ident, Interner};
use crate::util::pretty::{ident_text, push_ident};
use crate::util::text::{chars_eq_str, push_str};

verus! {

// --- List of tokens -----------------------------------------------------------

#[derive(Clone, Copy, Debug, PartialEq, Eq, Structural)]
pub enum Token {
    Bang,
    Dollar,
    Percent,
    At,
    Zero,
    Equal,
    Plus,
    Minus,
    Asterisk,
    Dot,
    DoubleDot,
    LParen,
    RParen,
    LBracket,
    RBracket,
    LBrace,
    RBrace,
    Comma,
    Semicolon,
    Arrow,
    FatArrow,
    Keyword(Keyword),
    Ident(Ident),
    Literal(Ident),
    EOF,
}

// --- List of keywords ---------------------------------------------------------

#[derive(Clone, Copy, Debug, PartialEq, Eq, Structural)]
pub enum Keyword {
    Rules,
    If,
    Add,
    Sub,
    Mul,
    Div,
    Mod,
    Pow,
    Shl,
    Shr,
    And,
    Or,
    Xor,
    Neg,
    Not,
    Cmp,
    Lt,
    Le,
    Eq,
    Ne,
    Ge,
    Gt,
    Alloca,
    Load,
    Store,
    Call,
    Ret,
    Br,
    Jmp,
    Byte,
    Word,
    DWord,
    QWord,
    Ptr,
    Void,
}

/// The spelling of a keyword
pub open spec fn keyword_text(k: Keyword) -> Seq<char> {
    match k {
        Keyword::Rules => "rules"@,
        Keyword::If => "if"@,
        Keyword::Add => "add"@,
        Keyword::Sub => "sub"@,
        Keyword::Mul => "mul"@,
        Keyword::Div => "div"@,
        Keyword::Mod => "mod"@,
        Keyword::Pow => "pow"@,
        Keyword::Shl => "shl"@,
        Keyword::Shr => "shr"@,
        Keyword::And => "and"@,
        Keyword::Or => "or"@,
        Keyword::Xor => "xor"@,
        Keyword::Neg => "neg"@,
        Keyword::Not => "not"@,
        Keyword::Cmp => "cmp"@,
        Keyword::Lt => "lt"@,
        Keyword::Le => "le"@,
        Keyword::Eq => "eq"@,
        Keyword::Ne => "ne"@,
        Keyword::Ge => "ge"@,
        Keyword::Gt => "gt"@,
        Keyword::Alloca => "alloca"@,
        Keyword::Load => "load"@,
        Keyword::Store => "store"@,
        Keyword::Call => "call"@,
        Keyword::Ret => "ret"@,
        Keyword::Br => "br"@,
        Keyword::Jmp => "jmp"@,
        Keyword::Byte => "byte"@,
        Keyword::Word => "word"@,
        Keyword::DWord => "dword"@,
        Keyword::QWord => "qword"@,
        Keyword::Ptr => "ptr"@,
        Keyword::Void => "void"@,
    }
}

impl Keyword {
    /// The spelling of the keyword
    pub fn name(&self) -> (r: &'static str)
        ensures
            r@ == keyword_text(*self),
    {
        match self {
            Keyword::Rules => "rules",
            Keyword::If => "if",
            Keyword::Add => "add",
            Keyword::Sub => "sub",
            Keyword::Mul => "mul",
            Keyword::Div => "div",
            Keyword::Mod => "mod",
            Keyword::Pow => "pow",
            Keyword::Shl => "shl",
            Keyword::Shr => "shr",
            Keyword::And => "and",
            Keyword::Or => "or",
            Keyword::Xor => "xor",
            Keyword::Neg => "neg",
            Keyword::Not => "not",
            Keyword::Cmp => "cmp",
            Keyword::Lt => "lt",
            Keyword::Le => "le",
            Keyword::Eq => "eq",
            Keyword::Ne => "ne",
            Keyword::Ge => "ge",
            Keyword::Gt => "gt",
            Keyword::Alloca => "alloca",
            Keyword::Load => "load",
            Keyword::Store => "store",
            Keyword::Call => "call",
            Keyword::Ret => "ret",
            Keyword::Br => "br",
            Keyword::Jmp => "jmp",
            Keyword::Byte => "byte",
            Keyword::Word => "word",
            Keyword::DWord => "dword",
            Keyword::QWord => "qword",
            Keyword::Ptr => "ptr",
            Keyword::Void => "void",
        }
    }
}

/// All keywords
pub open spec fn all_keywords() -> Seq<Keyword> {
    seq![Keyword::Rules, Keyword::If, Keyword::Add, Keyword::Sub, Keyword::Mul, Keyword::Div, Keyword::Mod, Keyword::Pow, Keyword::Shl, Keyword::Shr, Keyword::And, Keyword::Or, Keyword::Xor, Keyword::Neg, Keyword::Not, Keyword::Cmp, Keyword::Lt, Keyword::Le, Keyword::Eq, Keyword::Ne, Keyword::Ge, Keyword::Gt, Keyword::Alloca, Keyword::Load, Keyword::Store, Keyword::Call, Keyword::Ret, Keyword::Br, Keyword::Jmp, Keyword::Byte, Keyword::Word, Keyword::DWord, Keyword::QWord, Keyword::Ptr, Keyword::Void]
}

impl Keyword {
    /// Load all keywords into the interner
    pub fn setup(interner: &mut Interner)
        requires
            old(interner).wf(),
        ensures
            final(interner).wf(),
            forall|i: int| 0 <= i < all_keywords().len() ==> #[trigger] final(interner)@.contains(keyword_text(all_keywords()[i])),
            forall|n: Seq<char>| old(interner)@.contains(n) ==> final(interner)@.contains(n),
            old(interner)@.len() <= final(interner)@.len(),
            forall|k: int| 0 <= k < old(interner)@.len() ==> #[trigger] final(interner)@[k] == old(interner)@[k],
            (forall|i: int| 0 <= i < all_keywords().len() ==> #[trigger] old(interner)@.contains(keyword_text(all_keywords()[i])))
                ==> final(interner)@ == old(interner)@,
    {
        let kws = [
            Keyword::Rules, Keyword::If, Keyword::Add, Keyword::Sub, Keyword::Mul, Keyword::Div, Keyword::Mod, Keyword::Pow, Keyword::Shl, Keyword::Shr, Keyword::And, Keyword::Or, Keyword::Xor, Keyword::Neg, Keyword::Not, Keyword::Cmp, Keyword::Lt, Keyword::Le, Keyword::Eq, Keyword::Ne, Keyword::Ge, Keyword::Gt, Keyword::Alloca, Keyword::Load, Keyword::Store, Keyword::Call, Keyword::Ret, Keyword::Br, Keyword::Jmp, Keyword::Byte, Keyword::Word, Keyword::DWord, Keyword::QWord, Keyword::Ptr, Keyword::Void,
        ];
        assert(kws@ =~= all_keywords());
        let ghost start = interner@;
        let mut i: usize = 0;
        while i < 35
            invariant
                i <= 35,
                kws@ == all_keywords(),
                interner.wf(),
                forall|j: int| 0 <= j < i ==> #[trigger] interner@.contains(keyword_text(all_keywords()[j])),
                forall|n: Seq<char>| start.contains(n) ==> interner@.contains(n),
                start.len() <= interner@.len(),
                forall|k: int| 0 <= k < start.len() ==> #[trigger] interner@[k] == start[k],
                (forall|j: int| 0 <= j < all_keywords().len() ==> #[trigger] start.contains(keyword_text(all_keywords()[j])))
                    ==> interner@ == start,
            decreases 35 - i,
        {
            let ghost before = interner@;
            let id = interner.intern_str(kws[i].name());
            proof {
                if !before.contains(keyword_text(all_keywords()[i as int])) {
                    assert(interner@ == before.push(keyword_text(all_keywords()[i as int])));
                }
                if forall|j: int| 0 <= j < all_keywords().len() ==> #[trigger] start.contains(keyword_text(all_keywords()[j])) {
                    assert(start.contains(keyword_text(all_keywords()[i as int])));
                }
            }
            assert(interner@[id.0 as int] == keyword_text(all_keywords()[i as int]));
            assert(interner@.contains(keyword_text(all_keywords()[i as int])));
            assert forall|n: Seq<char>| before.contains(n) implies interner@.contains(n) by {
                let k = choose|k: int| 0 <= k < before.len() && before[k] == n;
                assert(interner@[k] == n);
            }
            assert forall|j: int| 0 <= j < i + 1 implies #[trigger] interner@.contains(keyword_text(all_keywords()[j])) by {
                if j < i {
                    assert(before.contains(keyword_text(all_keywords()[j])));
                }
            }
            i = i + 1;
        }
    }
}

/// Get the keyword a string represents, if possible
pub fn lookup_keyword(s: &[char]) -> (r: Option<Keyword>)
    ensures
        r matches Some(k) ==> keyword_text(k) == s@,
        r is None ==> forall|k: Keyword| keyword_text(k) != s@,
{
    if chars_eq_str(s, "rules") {
        return Some(Keyword::Rules);
    }
    if chars_eq_str(s, "if") {
        return Some(Keyword::If);
    }
    if chars_eq_str(s, "add") {
        return Some(Keyword::Add);
    }
    if chars_eq_str(s, "sub") {
        return Some(Keyword::Sub);
    }
    if chars_eq_str(s, "mul") {
        return Some(Keyword::Mul);
    }
    if chars_eq_str(s, "div") {
        return Some(Keyword::Div);
    }
    if chars_eq_str(s, "mod") {
        return Some(Keyword::Mod);
    }
    if chars_eq_str(s, "pow") {
        return Some(Keyword::Pow);
    }
    if chars_eq_str(s, "shl") {
        return Some(Keyword::Shl);
    }
    if chars_eq_str(s, "shr") {
        return Some(Keyword::Shr);
    }
    if chars_eq_str(s, "and") {
        return Some(Keyword::And);
    }
    if chars_eq_str(s, "or") {
        return Some(Keyword::Or);
    }
    if chars_eq_str(s, "xor") {
        return Some(Keyword::Xor);
    }
    if chars_eq_str(s, "neg") {
        return Some(Keyword::Neg);
    }
    if chars_eq_str(s, "not") {
        return Some(Keyword::Not);
    }
    if chars_eq_str(s, "cmp") {
        return Some(Keyword::Cmp);
    }
    if chars_eq_str(s, "lt") {
        return Some(Keyword::Lt);
    }
    if chars_eq_str(s, "le") {
        return Some(Keyword::Le);
    }
    if chars_eq_str(s, "eq") {
        return Some(Keyword::Eq);
    }
    if chars_eq_str(s, "ne") {
        return Some(Keyword::Ne);
    }
    if chars_eq_str(s, "ge") {
        return Some(Keyword::Ge);
    }
    if chars_eq_str(s, "gt") {
        return Some(Keyword::Gt);
    }
    if chars_eq_str(s, "alloca") {
        return Some(Keyword::Alloca);
    }
    if chars_eq_str(s, "load") {
        return Some(Keyword::Load);
    }
    if chars_eq_str(s, "store") {
        return Some(Keyword::Store);
    }
    if chars_eq_str(s, "call") {
        return Some(Keyword::Call);
    }
    if chars_eq_str(s, "ret") {
        return Some(Keyword::Ret);
    }
    if chars_eq_str(s, "br") {
        return Some(Keyword::Br);
    }
    if chars_eq_str(s, "jmp") {
        return Some(Keyword::Jmp);
    }
    if chars_eq_str(s, "byte") {
        return Some(Keyword::Byte);
    }
    if chars_eq_str(s, "word") {
        return Some(Keyword::Word);
    }
    if chars_eq_str(s, "dword") {
        return Some(Keyword::DWord);
    }
    if chars_eq_str(s, "qword") {
        return Some(Keyword::QWord);
    }
    if chars_eq_str(s, "ptr") {
        return Some(Keyword::Ptr);
    }
    if chars_eq_str(s, "void") {
        return Some(Keyword::Void);
    }
    assert forall|k: Keyword| keyword_text(k) != s@ by {
        match k {
            Keyword::Rules => {},
            Keyword::If => {},
            Keyword::Add => {},
            Keyword::Sub => {},
            Keyword::Mul => {},
            Keyword::Div => {},
            Keyword::Mod => {},
            Keyword::Pow => {},
            Keyword::Shl => {},
            Keyword::Shr => {},
            Keyword::And => {},
            Keyword::Or => {},
            Keyword::Xor => {},
            Keyword::Neg => {},
            Keyword::Not => {},
            Keyword::Cmp => {},
            Keyword::Lt => {},
            Keyword::Le => {},
            Keyword::Eq => {},
            Keyword::Ne => {},
            Keyword::Ge => {},
            Keyword::Gt => {},
            Keyword::Alloca => {},
            Keyword::Load => {},
            Keyword::Store => {},
            Keyword::Call => {},
            Keyword::Ret => {},
            Keyword::Br => {},
            Keyword::Jmp => {},
            Keyword::Byte => {},
            Keyword::Word => {},
            Keyword::DWord => {},
            Keyword::QWord => {},
            Keyword::Ptr => {},
            Keyword::Void => {},
        }
    }
    None
}

/// The text of a token as shown in messages
pub open spec fn token_display(t: Token, names: Seq<Seq<char>>) -> Seq<char> {
    match t {
        Token::Bang => "!"@,
        Token::Dollar => "$"@,
        Token::Percent => "%"@,
        Token::At => "@"@,
        Token::Zero => "0"@,
        Token::Equal => "="@,
        Token::Plus => "+"@,
        Token::Minus => "-"@,
        Token::Asterisk => "*"@,
        Token::Dot => "."@,
        Token::DoubleDot => ".."@,
        Token::LParen => "("@,
        Token::RParen => ")"@,
        Token::LBracket => "["@,
        Token::RBracket => "]"@,
        Token::LBrace => "{"@,
        Token::RBrace => "}"@,
        Token::Comma => ","@,
        Token::Semicolon => ";"@,
        Token::Arrow => "->"@,
        Token::FatArrow => "=>"@,
        Token::Keyword(kw) => keyword_text(kw),
        Token::Ident(id) => ident_text(id, names),
        Token::Literal(id) => ident_text(id, names),
        Token::EOF => "EOF"@,
    }
}

/// Append the text of a token (as shown in messages)
pub fn push_token(s: &mut String, t: &Token, interner: &Interner)
    ensures
        final(s)@ == old(s)@ + token_display(*t, interner@),
{
    match *t {
        Token::Bang => push_str(s, "!"),
        Token::Dollar => push_str(s, "$"),
        Token::Percent => push_str(s, "%"),
        Token::At => push_str(s, "@"),
        Token::Zero => push_str(s, "0"),
        Token::Equal => push_str(s, "="),
        Token::Plus => push_str(s, "+"),
        Token::Minus => push_str(s, "-"),
        Token::Asterisk => push_str(s, "*"),
        Token::Dot => push_str(s, "."),
        Token::DoubleDot => push_str(s, ".."),
        Token::LParen => push_str(s, "("),
        Token::RParen => push_str(s, ")"),
        Token::LBracket => push_str(s, "["),
        Token::RBracket => push_str(s, "]"),
        Token::LBrace => push_str(s, "{"),
        Token::RBrace => push_str(s, "}"),
        Token::Comma => push_str(s, ","),
        Token::Semicolon => push_str(s, ";"),
        Token::Arrow => push_str(s, "->"),
        Token::FatArrow => push_str(s, "=>"),
        Token::Keyword(kw) => push_str(s, kw.name()),
        Token::Ident(id) | Token::Literal(id) => push_ident(s, id, interner),
        Token::EOF => push_str(s, "EOF"),
    }
}

} // verus!
