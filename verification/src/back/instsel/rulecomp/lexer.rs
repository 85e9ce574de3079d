//! The lexer of instruction selection rules: split the source into tokens
//!
//! The character cursor (positions, line bookkeeping, the session) is the one
//! of the source language's lexer; only the tokens differ.

use vstd::prelude::*;
use crate::back::instsel::rulecomp::tokens::{Keyword, Token, keyword_text, lookup_keyword};
use crate::driver::codemap::{BytePos, Loc, resolve_spec};
use crate::driver::interner::Ident;
use crate::driver::session::{Diagnostic, Session, interner_extends};
use crate::front::ast::Spanned;
use crate::front::lexer::{
    CharClass, Lexer as Cursor, is_ident_char, lemma_newline_at, line_start_at, lemma_skippable_extend, skip_end, skippable, starts_skip,
};
use crate::util::chars::{
    char_is_alphabetic, char_is_numeric, char_is_whitespace, is_alphabetic, is_numeric,
    is_whitespace, len_utf8, utf8_len, utf8_total,
};
use crate::util::text::{push_char, push_str};

verus! {

/// The text of a punctuation token
pub open spec fn punct_text(t: Token) -> Option<Seq<char>> {
    match t {
        Token::Bang => Some(seq!['!']),
        Token::Dollar => Some(seq!['$']),
        Token::Percent => Some(seq!['%']),
        Token::Zero => Some(seq!['0']),
        Token::Equal => Some(seq!['=']),
        Token::FatArrow => Some(seq!['=', '>']),
        Token::Plus => Some(seq!['+']),
        Token::Minus => Some(seq!['-']),
        Token::Arrow => Some(seq!['-', '>']),
        Token::Asterisk => Some(seq!['*']),
        Token::Dot => Some(seq!['.']),
        Token::DoubleDot => Some(seq!['.', '.']),
        Token::LParen => Some(seq!['(']),
        Token::RParen => Some(seq![')']),
        Token::LBracket => Some(seq!['[']),
        Token::RBracket => Some(seq![']']),
        Token::LBrace => Some(seq!['{']),
        Token::RBrace => Some(seq!['}']),
        Token::Comma => Some(seq![',']),
        Token::Semicolon => Some(seq![';']),
        _ => None,
    }
}

/// Whether `text` is the source text of token `t` (names are looked up in the
/// interner `names`)
pub open spec fn token_text(t: Token, text: Seq<char>, names: Seq<Seq<char>>) -> bool {
    match t {
        Token::Ident(id) => {
            &&& id.0 < names.len()
            &&& names[id.0 as int] == text
            &&& text.len() > 0
            &&& is_alphabetic(text[0])
            &&& forall|i: int| 0 <= i < text.len() ==> is_ident_char(#[trigger] text[i])
            &&& forall|k: Keyword| keyword_text(k) != text
        },
        Token::Keyword(k) => {
            &&& text == keyword_text(k)
            &&& is_alphabetic(text[0])
            &&& forall|i: int| 0 <= i < text.len() ==> is_ident_char(#[trigger] text[i])
        },
        Token::Literal(id) => {
            &&& id.0 < names.len()
            &&& names[id.0 as int] == text
            &&& text.len() > 0
            &&& is_numeric(text[0])
            &&& !is_alphabetic(text[0])
            &&& text[0] != '0'
            &&& forall|i: int| 0 <= i < text.len() ==> is_ident_char(#[trigger] text[i])
        },
        Token::At | Token::EOF => false,
        _ => punct_text(t) == Some(text),
    }
}

/// Whether a token followed by `c` would have been read as a longer token
/// (the lexer reads the longest token it can)
pub open spec fn extends_token(t: Token, c: char) -> bool {
    match t {
        Token::Ident(_) | Token::Keyword(_) | Token::Literal(_) => is_ident_char(c),
        Token::Equal | Token::Minus => c == '>',
        Token::Dot => c == '.',
        _ => false,
    }
}

/// Where a code snippet that starts at index `s` ends: the index of the first
/// `}` at or after `s`, or the end of the source
pub open spec fn snippet_end(chars: Seq<char>, s: int, k: int) -> bool {
    &&& s <= k <= chars.len()
    &&& forall|i: int| s <= i < k ==> #[trigger] chars[i] != '}'
    &&& (k < chars.len() ==> chars[k] == '}')
}

/// The token `t` is read from the characters `m..c`: `EOF` after whitespace
/// and comments up to the end, any other token after whitespace and comments
/// and as long as it can be
pub open spec fn token_read(s: Seq<char>, names: Seq<Seq<char>>, m: int, t: Token, c: int) -> bool {
    if t == Token::EOF {
        c == s.len() && skippable(s, m, c)
    } else {
        exists|b: int| m <= b < c <= s.len() && skippable(s, m, b)
            && token_text(t, #[trigger] s.subrange(b, c), names)
            && (c == s.len() || !extends_token(t, s[c]))
    }
}

/// A character that is a punctuation token of its own, or starts one
pub open spec fn punct_char(c: char) -> bool {
    ||| c == '!' || c == '$' || c == '%' || c == '0' || c == '='
    ||| c == '+' || c == '-' || c == '*' || c == '.' || c == '(' || c == ')' || c == '['
    ||| c == ']' || c == '{' || c == '}' || c == ',' || c == ';'
}

/// The character at `i` starts a token of its own (not whitespace or a
/// comment)
pub open spec fn starts_real_token(s: Seq<char>, i: int) -> bool {
    punct_char(s[i]) || (s[i] != '/' && (is_alphabetic(s[i]) || is_numeric(s[i])))
}

/// The character at `i` can start a token, whitespace or a comment
pub open spec fn starts_token(s: Seq<char>, i: int) -> bool {
    if s[i] == '/' {
        i + 1 < s.len() && s[i + 1] == '/'
    } else {
        punct_char(s[i]) || is_alphabetic(s[i]) || is_numeric(s[i]) || is_whitespace(s[i])
    }
}

/// The lexer skips the text at `i`: a comment, or whitespace that starts
/// no token
pub open spec fn skips_at(s: Seq<char>, i: int) -> bool {
    ||| s[i] == '/' && i + 1 < s.len() && s[i + 1] == '/'
    ||| s[i] != '/' && is_whitespace(s[i]) && !starts_real_token(s, i)
}

/// The next token can be read from `i`: skipping whitespace and comments
/// leads to the end of the text or to a character that starts a token
pub open spec fn lexes_next(s: Seq<char>, i: int) -> bool
    decreases s.len() - i,
{
    if i < 0 || i >= s.len() {
        true
    } else if !starts_token(s, i) {
        false
    } else if skips_at(s, i) {
        if i < skip_end(s, i) <= s.len() { lexes_next(s, skip_end(s, i)) } else { false }
    } else {
        true
    }
}

/// The line starts recorded while skipping whitespace and comments from `i`
pub open spec fn skipped_line_starts(s: Seq<char>, offsets: Seq<u32>, i: int) -> Seq<u32>
    decreases s.len() - i,
{
    if 0 <= i < s.len() && skips_at(s, i) && i < skip_end(s, i) <= s.len() {
        line_start_at(s, offsets, i) + skipped_line_starts(s, offsets, skip_end(s, i))
    } else {
        Seq::empty()
    }
}

/// A code snippet ends at one place only
pub proof fn lemma_snippet_end_unique(s: Seq<char>, p: int, k1: int, k2: int)
    requires
        snippet_end(s, p, k1),
        snippet_end(s, p, k2),
    ensures
        k1 == k2,
{
    if k1 < k2 {
        assert(s[k1] == '}');
    } else if k2 < k1 {
        assert(s[k2] == '}');
    }
}

/// Reading goes on at `q`: at `p`, or, where `gap` is set, after the code
/// snippet that starts at `p` and its `}`
pub open spec fn resumes(s: Seq<char>, p: int, gap: bool, q: int) -> bool {
    if gap {
        exists|k: int| #[trigger] snippet_end(s, p, k) && q == (if k < s.len() { k + 1 } else { k })
    } else {
        q == p
    }
}

/// The tokens `toks` are read one after the other from the characters
/// `a..c`, a code snippet being skipped before each token whose flag in
/// `gaps` is set
pub open spec fn reads(s: Seq<char>, names: Seq<Seq<char>>, a: int, toks: Seq<Token>, gaps: Seq<bool>, c: int) -> bool
    decreases toks.len(),
{
    if toks.len() == 0 {
        a == c && gaps.len() == 0
    } else {
        gaps.len() == toks.len() && exists|m: int, q: int| m <= q
            && reads(s, names, a, toks.drop_last(), gaps.drop_last(), m)
            && #[trigger] resumes(s, m, gaps.last(), q) && #[trigger] token_read(s, names, q, toks.last(), c)
    }
}

/// Reading tokens stays so as more names are interned
pub proof fn lemma_reads_extend(s: Seq<char>, n1: Seq<Seq<char>>, n2: Seq<Seq<char>>, a: int, toks: Seq<Token>,
    gaps: Seq<bool>, c: int)
    requires
        reads(s, n1, a, toks, gaps, c),
        interner_extends(n1, n2),
    ensures
        reads(s, n2, a, toks, gaps, c),
    decreases toks.len(),
{
    if toks.len() > 0 {
        let (m, q) = choose|m: int, q: int| m <= q
            && reads(s, n1, a, toks.drop_last(), gaps.drop_last(), m)
            && #[trigger] resumes(s, m, gaps.last(), q) && #[trigger] token_read(s, n1, q, toks.last(), c);
        lemma_reads_extend(s, n1, n2, a, toks.drop_last(), gaps.drop_last(), m);
        if toks.last() != Token::EOF {
            let b = choose|b: int| q <= b < c <= s.len() && skippable(s, q, b)
                && token_text(toks.last(), #[trigger] s.subrange(b, c), n1)
                && (c == s.len() || !extends_token(toks.last(), s[c]));
            assert(token_text(toks.last(), s.subrange(b, c), n2));
        }
        assert(token_read(s, n2, q, toks.last(), c));
    }
}

pub struct Lexer {
    /// The character cursor over the source
    pub cursor: Cursor,
}

impl Lexer {
    pub open spec fn chars(&self) -> Seq<char> {
        self.cursor.chars()
    }

    pub open spec fn index(&self) -> int {
        self.cursor.index()
    }

    /// The names known to the interner
    pub open spec fn names(&self) -> Seq<Seq<char>> {
        self.cursor.session.interner@
    }

    pub open spec fn wf(&self) -> bool {
        self.cursor.wf()
    }

    /// Whether token `t` was read from the characters `s..e`
    pub open spec fn token_at(&self, t: Spanned<Token>, s: int, e: int) -> bool {
        &&& 0 <= s < e <= self.chars().len()
        &&& t.span.pos == self.cursor.byte_offsets()[s]
        &&& t.span.len == self.cursor.byte_offsets()[e] - self.cursor.byte_offsets()[s]
        &&& token_text(t.value, self.chars().subrange(s, e), self.names())
    }

    /// The part of the lexer that reading tokens leaves alone or only extends
    pub open spec fn follows(&self, old: &Lexer) -> bool {
        &&& self.wf()
        &&& self.chars() == old.chars()
        &&& self.cursor.byte_offsets() == old.cursor.byte_offsets()
        &&& old.index() <= self.index()
        &&& interner_extends(old.names(), self.names())
    }

    // --- Lexer: The public API ------------------------------------------------

    /// Create a new lexer for a source text, working with a session whose
    /// codemap is fresh
    pub fn new(source: &str, file: &str, session: Session) -> (r: Lexer)
        requires
            utf8_total(source@) < u32::MAX,
            source@.len() > 0 ==> source@[0] != '\n',
            session.wf(),
            session.codemap@ == seq![0u32],
        ensures
            r.wf(),
            r.chars() == source@,
            r.index() == 0,
            r.cursor.session == session,
    {
        Lexer { cursor: Cursor::with_session(source, file, session) }
    }

    /// Get the next token (`EOF` once the source is exhausted)
    pub fn next_token(&mut self) -> (r: Result<Spanned<Token>, Diagnostic>)
        requires
            old(self).wf(),
        ensures
            final(self).follows(old(self)),
            r matches Ok(t) ==> t.value == Token::EOF ==> final(self).index() == final(self).chars().len(),
            r matches Ok(t) ==> t.value == Token::EOF ==> t.span.len == 0,
            r matches Ok(t) ==> t.value == Token::EOF ==> skippable(old(self).chars(), old(self).index(), final(self).index()),
            r matches Ok(t) ==> t.value != Token::EOF ==> exists|s: int| old(self).index() <= s < final(self).index()
                && skippable(old(self).chars(), old(self).index(), s)
                && #[trigger] final(self).token_at(t, s, final(self).index()),
            r matches Ok(t) ==> t.value != Token::EOF ==> final(self).index() == final(self).chars().len()
                || !extends_token(t.value, final(self).chars()[final(self).index()]),
            r is Ok <==> lexes_next(old(self).chars(), old(self).index()),
            r is Ok ==> final(self).cursor.session.codemap@ == old(self).cursor.session.codemap@
                + skipped_line_starts(old(self).chars(), old(self).cursor.byte_offsets(), old(self).index()),
    {
        let ghost a = old(self).index();
        let ghost chars = old(self).chars();
        while !self.cursor.is_eof()
            invariant
                self.follows(old(self)),
                chars == old(self).chars(),
                a == old(self).index(),
                skippable(old(self).chars(), old(self).index(), self.index()),
                lexes_next(chars, a) == lexes_next(chars, self.index()),
                old(self).cursor.session.codemap@ + skipped_line_starts(chars, old(self).cursor.byte_offsets(), a)
                    == self.cursor.session.codemap@ + skipped_line_starts(chars, old(self).cursor.byte_offsets(), self.index()),
            decreases self.chars().len() - self.index(),
        {
            // Read the next token as long as the lexer requests us to do so
            let ghost before = self.index();
            let next = self.read_token();
            proof {
                assert(0 <= before < chars.len());
                if next is Ok {
                    assert(starts_token(chars, before));
                    if next matches Ok(Some(_)) {
                        assert(!skips_at(chars, before));
                        assert(lexes_next(chars, before));
                        assert(skipped_line_starts(chars, old(self).cursor.byte_offsets(), before) =~= Seq::<u32>::empty());
                    } else {
                        let off = old(self).cursor.byte_offsets();
                        assert(self.cursor.session.codemap@ + skipped_line_starts(chars, off, self.index())
                            =~= old(self).cursor.session.codemap@ + skipped_line_starts(chars, off, a));
                    }
                } else {
                    assert(!lexes_next(chars, before));
                }
            }
            if let Some(token) = next? {
                return Ok(token);
            }
            proof {
                lemma_skippable_extend(self.chars(), old(self).index(), before);
            }
        }
        let p = self.cursor.offsets[self.cursor.idx];
        Ok(Spanned::new(Token::EOF, p, p))
    }

    /// Get the current source position we're at
    pub fn get_source(&self) -> (r: Loc)
        requires
            self.wf(),
        ensures
            r == resolve_spec(self.cursor.session.codemap@, self.cursor.byte_pos()),
    {
        self.cursor.get_source()
    }

    /// Read a piece of Rust code up to the next `}`, which is consumed too.
    /// The character the lexer is at and the one before the end are left
    /// out: the snippet follows a `{` and a blank, and ends before `}`. A
    /// snippet with nothing between these two is an error, as is one whose
    /// left-out characters take more than one byte.
    pub fn tokenize_snippet(&mut self) -> (r: Result<Ident, Diagnostic>)
        requires
            old(self).wf(),
        ensures
            final(self).follows(old(self)),
            final(self).cursor.session.codemap == old(self).cursor.session.codemap,
            exists|k: int| snippet_end(old(self).chars(), old(self).index(), k)
                && final(self).index() == (if k < old(self).chars().len() { k + 1 } else { k }),
            r is Ok <==> old(self).index() + 2 <= final(self).index()
                && utf8_len(old(self).chars()[old(self).index()]) == 1
                && utf8_len(old(self).chars()[final(self).index() - 1]) == 1,
            r matches Ok(id) ==> id.0 < final(self).names().len()
                && final(self).names()[id.0 as int] == old(self).chars().subrange(old(self).index() + 1, final(self).index() - 1),
    {
        let start = self.cursor.idx;
        let mut i = start;
        while i < self.cursor.source.len() && self.cursor.source[i] != '}'
            invariant
                self.wf(),
                start == old(self).index(),
                *self == *old(self),
                start <= i <= self.chars().len(),
                forall|j: int| start <= j < i ==> #[trigger] self.chars()[j] != '}',
            decreases self.chars().len() - i,
        {
            i = i + 1;
        }
        let ghost k = i as int;
        // Move to the closing brace, then past it
        while self.cursor.idx < i
            invariant
                self.wf(),
                self.chars() == old(self).chars(),
                self.cursor.byte_offsets() == old(self).cursor.byte_offsets(),
                self.cursor.session == old(self).cursor.session,
                start <= self.index() <= i <= self.chars().len(),
            decreases i - self.index(),
        {
            self.cursor.bump();
        }
        if self.cursor.idx < self.cursor.source.len() {
            self.cursor.bump();
        }
        let end = self.cursor.idx;
        assert(snippet_end(old(self).chars(), start as int, k));
        assert(end == (if k < old(self).chars().len() { k + 1 } else { k }));
        if end - start < 2 || len_utf8(self.cursor.source[start]) != 1 || len_utf8(self.cursor.source[end - 1]) != 1 {
            let mut msg = String::new();
            push_str(&mut msg, "invalid code snippet");
            return Err(self.cursor.fatal(msg));
        }
        let mut code: Vec<char> = Vec::new();
        let mut j = start + 1;
        while j < end - 1
            invariant
                self.wf(),
                start + 1 <= j <= end - 1,
                end <= self.chars().len(),
                code@ == self.chars().subrange(start + 1, j as int),
            decreases end - 1 - j,
        {
            code.push(self.cursor.source[j]);
            j = j + 1;
        }
        let ghost before = self.names();
        let id = self.cursor.session.interner.intern(code.as_slice());
        proof {
            assert forall|x: int| 0 <= x < before.len() implies #[trigger] self.names()[x] == before[x] by {
                if !before.contains(code@) {
                    assert(self.names() == before.push(code@));
                }
            }
        }
        Ok(id)
    }

    // --- Lexer: Tokenizers ----------------------------------------------------

    /// Tokenize an identifier or a keyword
    fn tokenize_ident(&mut self) -> (r: Token)
        requires
            old(self).wf(),
            old(self).index() < old(self).chars().len(),
            is_alphabetic(old(self).chars()[old(self).index()]),
        ensures
            final(self).follows(old(self)),
            final(self).cursor.session.codemap == old(self).cursor.session.codemap,
            old(self).index() < final(self).index(),
            r is Ident || r is Keyword,
            final(self).index() < final(self).chars().len() ==> !is_ident_char(final(self).chars()[final(self).index()]),
            token_text(r, final(self).chars().subrange(old(self).index(), final(self).index()), final(self).names()),
    {
        let ident = self.cursor.collect(CharClass::IdentChar);
        proof {
            assert(ident@[0] == old(self).chars()[old(self).index()]);
        }
        // Check whether it's a keyword or an identifier
        match lookup_keyword(ident.as_slice()) {
            Some(kw) => Token::Keyword(kw),
            None => {
                let ghost before = self.names();
                let id = self.cursor.session.interner.intern(ident.as_slice());
                proof {
                    assert forall|i: int| 0 <= i < before.len() implies #[trigger] self.names()[i] == before[i] by {
                        if !before.contains(ident@) {
                            assert(self.names() == before.push(ident@));
                        }
                    }
                }
                Token::Ident(id)
            },
        }
    }

    /// Tokenize a literal
    fn tokenize_literal(&mut self) -> (r: Token)
        requires
            old(self).wf(),
            old(self).index() < old(self).chars().len(),
            is_numeric(old(self).chars()[old(self).index()]),
            !is_alphabetic(old(self).chars()[old(self).index()]),
            old(self).chars()[old(self).index()] != '0',
        ensures
            final(self).follows(old(self)),
            final(self).cursor.session.codemap == old(self).cursor.session.codemap,
            old(self).index() < final(self).index(),
            r is Literal,
            final(self).index() < final(self).chars().len() ==> !is_ident_char(final(self).chars()[final(self).index()]),
            token_text(r, final(self).chars().subrange(old(self).index(), final(self).index()), final(self).names()),
    {
        let literal = self.cursor.collect(CharClass::IdentChar);
        proof {
            assert(literal@[0] == old(self).chars()[old(self).index()]);
        }
        let ghost before = self.names();
        let id = self.cursor.session.interner.intern(literal.as_slice());
        proof {
            assert forall|i: int| 0 <= i < before.len() implies #[trigger] self.names()[i] == before[i] by {
                if !before.contains(literal@) {
                    assert(self.names() == before.push(literal@));
                }
            }
        }
        Token::Literal(id)
    }

    /// Consume a one-character token
    fn emit(&mut self, tok: Token) -> (r: Token)
        requires
            old(self).wf(),
            old(self).index() < old(self).chars().len(),
            punct_text(tok) == Some(seq![old(self).chars()[old(self).index()]]),
        ensures
            final(self).follows(old(self)),
            final(self).cursor.session == old(self).cursor.session,
            final(self).index() == old(self).index() + 1,
            r == tok,
            token_text(r, final(self).chars().subrange(old(self).index(), final(self).index()), final(self).names()),
    {
        self.cursor.bump();
        assert(self.chars().subrange(old(self).index(), self.index()) =~= seq![old(self).chars()[old(self).index()]]);
        tok
    }

    /// Consume a token that is one character long, or two if the second one is `next`
    fn emit_either(&mut self, next: char, long: Token, short: Token) -> (r: Token)
        requires
            old(self).wf(),
            old(self).index() < old(self).chars().len(),
            punct_text(short) == Some(seq![old(self).chars()[old(self).index()]]),
            punct_text(long) == Some(seq![old(self).chars()[old(self).index()], next]),
        ensures
            final(self).follows(old(self)),
            final(self).cursor.session == old(self).cursor.session,
            old(self).index() < final(self).index(),
            r == long || r == short,
            r == short && long != short ==> final(self).index() == final(self).chars().len()
                || final(self).chars()[final(self).index()] != next,
            token_text(r, final(self).chars().subrange(old(self).index(), final(self).index()), final(self).names()),
    {
        let ghost start = self.index();
        self.cursor.bump();
        if self.cursor.curr() == Some(next) {
            self.cursor.bump();
            assert(self.chars().subrange(start, self.index()) =~= seq![self.chars()[start], next]);
            long
        } else {
            assert(self.chars().subrange(start, self.index()) =~= seq![self.chars()[start]]);
            short
        }
    }

    /// An error about an unexpected character
    fn unexpected(&self, c: char) -> (r: Diagnostic)
        requires
            self.wf(),
        ensures
            r.pos == Some(self.cursor.byte_pos()),
    {
        let mut msg = String::new();
        push_str(&mut msg, "unexpected character: `");
        push_char(&mut msg, c);
        push_char(&mut msg, '`');
        self.cursor.fatal(msg)
    }

    /// Read the next token and return it
    ///
    /// If `None` is returned, the current text (whitespace or a comment) is
    /// to be ignored and the lexer requests the reader to read the next
    /// token instead.
    fn read_token(&mut self) -> (r: Result<Option<Spanned<Token>>, Diagnostic>)
        requires
            old(self).wf(),
            old(self).index() < old(self).chars().len(),
        ensures
            final(self).follows(old(self)),
            r is Ok ==> old(self).index() < final(self).index(),
            r matches Ok(Some(t)) ==> final(self).token_at(t, old(self).index(), final(self).index()),
            r matches Ok(Some(t)) ==> t.value != Token::EOF,
            r matches Ok(Some(t)) ==> final(self).index() == final(self).chars().len()
                || !extends_token(t.value, final(self).chars()[final(self).index()]),
            r matches Ok(None) ==> starts_skip(old(self).chars(), old(self).index())
                && final(self).index() == skip_end(old(self).chars(), old(self).index()),
            r matches Ok(Some(t)) ==> !skips_at(old(self).chars(), old(self).index()),
            r matches Ok(None) ==> skips_at(old(self).chars(), old(self).index()),
            r is Ok <==> starts_token(old(self).chars(), old(self).index()),
            r matches Ok(Some(_)) ==> final(self).cursor.session.codemap == old(self).cursor.session.codemap,
            r matches Ok(None) ==> final(self).cursor.session.codemap@ == old(self).cursor.session.codemap@
                + line_start_at(old(self).chars(), old(self).cursor.byte_offsets(), old(self).index()),
    {
        let c = self.cursor.source[self.cursor.idx];
        let lo = self.cursor.offsets[self.cursor.idx];
        let ghost start = self.index();

        let token: Token = if c == '!' {
            self.emit(Token::Bang)
        } else if c == '$' {
            self.emit(Token::Dollar)
        } else if c == '%' {
            self.emit(Token::Percent)
        } else if c == '0' {
            self.emit(Token::Zero)
        } else if c == '=' {
            self.emit_either('>', Token::FatArrow, Token::Equal)
        } else if c == '+' {
            self.emit(Token::Plus)
        } else if c == '-' {
            self.emit_either('>', Token::Arrow, Token::Minus)
        } else if c == '*' {
            self.emit(Token::Asterisk)
        } else if c == '.' {
            self.emit_either('.', Token::DoubleDot, Token::Dot)
        } else if c == '(' {
            self.emit(Token::LParen)
        } else if c == ')' {
            self.emit(Token::RParen)
        } else if c == '[' {
            self.emit(Token::LBracket)
        } else if c == ']' {
            self.emit(Token::RBracket)
        } else if c == '{' {
            self.emit(Token::LBrace)
        } else if c == '}' {
            self.emit(Token::RBrace)
        } else if c == ',' {
            self.emit(Token::Comma)
        } else if c == ';' {
            self.emit(Token::Semicolon)
        } else if c == '/' {
            self.cursor.bump();
            if self.cursor.curr() == Some('/') {
                self.cursor.bump();
                self.cursor.skip_comment();
                proof {
                    lemma_newline_at(self.chars(), start + 2, self.index());
                }
                return Ok(None);
            }
            return Err(self.unexpected(c));
        } else if char_is_alphabetic(c) {
            self.tokenize_ident()
        } else if char_is_numeric(c) {
            self.tokenize_literal()
        } else if char_is_whitespace(c) {
            // Skip whitespaces of any type
            if c == '\n' {
                proof {
                    self.cursor.lemma_offsets_mono(0, self.index());
                }
                self.cursor.session.codemap.new_line(BytePos(lo));
            }
            self.cursor.bump();
            return Ok(None);
        } else {
            return Err(self.unexpected(c));
        };

        proof {
            self.cursor.lemma_offsets_mono(start, self.index());
        }
        let hi = self.cursor.offsets[self.cursor.idx];
        Ok(Some(Spanned::new(token, lo, hi)))
    }
}

} // verus!
