//! The lexer: split the source into a stream of tokens

use vstd::prelude::*;
use crate::driver::codemap::{BytePos, Loc, line_of, resolve_spec};
use crate::driver::interner::Ident;
use crate::driver::session::{Diagnostic, Session, interner_extends};
use crate::front::ast::{BinOp, Spanned, UnOp};
use crate::front::tokens::{Keyword, Token, keyword_name, lookup_keyword};
use crate::util::chars::{
    char_escape_default, char_is_alphabetic, char_is_numeric, char_is_whitespace, digits_value,
    escape_default, is_alphabetic, is_numeric, is_whitespace, len_utf8, parse_u32, parses_as_u32,
    utf8_len, utf8_total,
};
use crate::util::text::{copy_chars, push_char, push_chars, push_str, str_chars};

verus! {

/// The text of an operator or punctuation token
pub open spec fn punct_text(t: Token) -> Option<Seq<char>> {
    match t {
        Token::BinOp(BinOp::Add) => Some(seq!['+']),
        Token::BinOp(BinOp::Sub) => Some(seq!['-']),
        Token::RArrow => Some(seq!['-', '>']),
        Token::BinOp(BinOp::Mul) => Some(seq!['*']),
        Token::BinOp(BinOp::Pow) => Some(seq!['*', '*']),
        Token::BinOp(BinOp::Div) => Some(seq!['/']),
        Token::BinOp(BinOp::Mod) => Some(seq!['%']),
        Token::BinOp(BinOp::BitAnd) => Some(seq!['&']),
        Token::BinOp(BinOp::And) => Some(seq!['&', '&']),
        Token::BinOp(BinOp::BitOr) => Some(seq!['|']),
        Token::BinOp(BinOp::Or) => Some(seq!['|', '|']),
        Token::BinOp(BinOp::BitXor) => Some(seq!['^']),
        Token::BinOp(BinOp::Lt) => Some(seq!['<']),
        Token::BinOp(BinOp::Shl) => Some(seq!['<', '<']),
        Token::BinOp(BinOp::Le) => Some(seq!['<', '=']),
        Token::BinOp(BinOp::Gt) => Some(seq!['>']),
        Token::BinOp(BinOp::Shr) => Some(seq!['>', '>']),
        Token::BinOp(BinOp::Ge) => Some(seq!['>', '=']),
        Token::Eq => Some(seq!['=']),
        Token::BinOp(BinOp::EqEq) => Some(seq!['=', '=']),
        Token::UnOp(UnOp::Not) => Some(seq!['!']),
        Token::BinOp(BinOp::Ne) => Some(seq!['!', '=']),
        Token::LParen => Some(seq!['(']),
        Token::RParen => Some(seq![')']),
        Token::LBrace => Some(seq!['{']),
        Token::RBrace => Some(seq!['}']),
        Token::Comma => Some(seq![',']),
        Token::Colon => Some(seq![':']),
        Token::Semicolon => Some(seq![';']),
        _ => None,
    }
}

/// Whether a character may continue an identifier
pub open spec fn is_ident_char(c: char) -> bool {
    is_alphabetic(c) || is_numeric(c) || c == '_'
}

/// Whether `text` is the source text of token `t` (identifiers are looked up
/// in the interner `names`)
pub open spec fn token_text(t: Token, text: Seq<char>, names: Seq<Seq<char>>) -> bool {
    match t {
        Token::Ident(id) => {
            &&& id.0 < names.len()
            &&& names[id.0 as int] == text
            &&& text.len() > 0
            &&& is_alphabetic(text[0])
            &&& forall|i: int| 0 <= i < text.len() ==> is_ident_char(#[trigger] text[i])
            &&& forall|k: Keyword| keyword_name(k) != text
        },
        Token::Keyword(k) => {
            &&& text == keyword_name(k)
            &&& is_alphabetic(text[0])
            &&& forall|i: int| 0 <= i < text.len() ==> is_ident_char(#[trigger] text[i])
        },
        Token::Int(n) => {
            &&& parses_as_u32(text)
            &&& n == digits_value(text)
            &&& forall|i: int| 0 <= i < text.len() ==> is_numeric(#[trigger] text[i])
        },
        Token::Char(c) => {
            ||| (text == seq!['\'', c, '\''] && c != '\\')
            ||| (c == '\n' && text == seq!['\'', '\\', 'n', '\''])
            ||| (c == '\'' && text == seq!['\'', '\\', '\'', '\''])
        },
        Token::EOF => false,
        _ => punct_text(t) == Some(text),
    }
}

/// Whether a token followed by `c` would have been read as a longer token
/// (the lexer reads the longest token it can)
pub open spec fn extends_token(t: Token, c: char) -> bool {
    match t {
        Token::Ident(_) | Token::Keyword(_) => is_ident_char(c),
        Token::Int(_) => is_numeric(c),
        Token::BinOp(BinOp::Sub) => c == '>',
        Token::BinOp(BinOp::Mul) => c == '*',
        Token::BinOp(BinOp::Div) => c == '/',
        Token::BinOp(BinOp::BitAnd) => c == '&',
        Token::BinOp(BinOp::BitOr) => c == '|',
        Token::BinOp(BinOp::Lt) => c == '<' || c == '=',
        Token::BinOp(BinOp::Gt) => c == '>' || c == '=',
        Token::Eq => c == '=',
        Token::UnOp(UnOp::Not) => c == '=',
        _ => false,
    }
}

/// The first line break at or after `k` (the end if there is none)
pub open spec fn newline_from(s: Seq<char>, k: int) -> int
    decreases s.len() - k,
{
    if k >= s.len() {
        s.len() as int
    } else if s[k] == '\n' {
        k
    } else {
        newline_from(s, k + 1)
    }
}

/// A character that starts an operator or punctuation token
pub open spec fn operator_char(c: char) -> bool {
    ||| c == '+' || c == '-' || c == '*' || c == '/' || c == '%' || c == '&' || c == '|'
    ||| c == '^' || c == '<' || c == '>' || c == '=' || c == '!' || c == '(' || c == ')'
    ||| c == '{' || c == '}' || c == ',' || c == ':' || c == ';'
}

/// A character literal can be read at `i` (where a `'` stands): a
/// character, or one of the escapes `\n` and `\'`, then the closing `'`
pub open spec fn char_literal_at(s: Seq<char>, i: int) -> bool {
    &&& i + 1 < s.len()
    &&& if s[i + 1] == '\\' {
        &&& i + 3 < s.len()
        &&& (s[i + 2] == 'n' || s[i + 2] == '\'')
        &&& s[i + 3] == '\''
    } else {
        i + 2 < s.len() && s[i + 2] == '\''
    }
}

/// The digits from `i` to `e` are a whole run of digits
pub open spec fn digit_run(s: Seq<char>, i: int, e: int) -> bool {
    &&& 0 <= i < e <= s.len()
    &&& forall|k: int| i <= k < e ==> is_numeric(#[trigger] s[k])
    &&& (e < s.len() ==> !is_numeric(s[e]))
}

/// The run of digits at `i` is a number that fits in 32 bits
pub open spec fn int_literal_at(s: Seq<char>, i: int) -> bool {
    forall|e: int| #[trigger] digit_run(s, i, e) ==> parses_as_u32(s.subrange(i, e))
}

/// What starts at `i` can be read: a token, whitespace or a comment
pub open spec fn reads_at(s: Seq<char>, i: int) -> bool {
    let c = s[i];
    if operator_char(c) {
        true
    } else if c == '\'' {
        char_literal_at(s, i)
    } else if is_alphabetic(c) {
        true
    } else if is_numeric(c) {
        int_literal_at(s, i)
    } else {
        is_whitespace(c)
    }
}

/// The lexer skips what starts at `i`: a comment, or whitespace that
/// starts no token
pub open spec fn skips_at(s: Seq<char>, i: int) -> bool {
    let c = s[i];
    ||| c == '/' && i + 1 < s.len() && s[i + 1] == '/'
    ||| !operator_char(c) && c != '\'' && !is_alphabetic(c) && !is_numeric(c) && is_whitespace(c)
}

/// The next token can be read from `i`: skipping whitespace and comments
/// leads to the end of the text or to a token that can be read
pub open spec fn lexes_next(s: Seq<char>, i: int) -> bool
    decreases s.len() - i,
{
    if i < 0 || i >= s.len() {
        true
    } else if !reads_at(s, i) {
        false
    } else if skips_at(s, i) {
        if i < skip_end(s, i) <= s.len() { lexes_next(s, skip_end(s, i)) } else { false }
    } else {
        true
    }
}

/// An operator of two characters starts at `i`
pub open spec fn two_char_operator(s: Seq<char>, i: int) -> bool {
    let c = s[i];
    &&& i + 1 < s.len()
    &&& ({
        let n = s[i + 1];
        ||| c == '-' && n == '>'
        ||| c == '*' && n == '*'
        ||| c == '&' && n == '&'
        ||| c == '|' && n == '|'
        ||| c == '<' && (n == '<' || n == '=')
        ||| c == '>' && (n == '>' || n == '=')
        ||| c == '=' && n == '='
        ||| c == '!' && n == '='
    })
}

/// The token that starts at `i` (not whitespace or a comment) ends at `e`:
/// operators take one or two characters, character literals three or four,
/// identifiers and numbers as many as they can
pub open spec fn token_ends(s: Seq<char>, i: int, e: int) -> bool {
    let c = s[i];
    if operator_char(c) {
        e == if two_char_operator(s, i) { i + 2 } else { i + 1 }
    } else if c == '\'' {
        e == if s[i + 1] == '\\' { i + 4 } else { i + 3 }
    } else if is_alphabetic(c) {
        &&& i < e <= s.len()
        &&& forall|k: int| i <= k < e ==> is_ident_char(#[trigger] s[k])
        &&& (e < s.len() ==> !is_ident_char(s[e]))
    } else {
        digit_run(s, i, e)
    }
}

/// Where the token that starts at `i` ends
pub open spec fn token_end(s: Seq<char>, i: int) -> int {
    choose|e: int| token_ends(s, i, e)
}

/// A token ends at one place only
pub proof fn lemma_token_ends_unique(s: Seq<char>, i: int, e1: int, e2: int)
    requires
        token_ends(s, i, e1),
        token_ends(s, i, e2),
    ensures
        e1 == e2,
{
    if e1 < e2 {
        assert(!is_ident_char(s[e1]) || !is_numeric(s[e1]));
    } else if e2 < e1 {
        assert(!is_ident_char(s[e2]) || !is_numeric(s[e2]));
    }
}

/// Where the next token starts: after the whitespace and comments at `i`
pub open spec fn next_start(s: Seq<char>, i: int) -> int
    decreases s.len() - i,
{
    if i < 0 || i >= s.len() {
        i
    } else if skips_at(s, i) && i < skip_end(s, i) <= s.len() {
        next_start(s, skip_end(s, i))
    } else {
        i
    }
}

/// Skipping never moves backwards
pub proof fn lemma_next_start_ge(s: Seq<char>, i: int)
    ensures
        i <= next_start(s, i),
    decreases s.len() - i,
{
    if 0 <= i < s.len() && skips_at(s, i) && i < skip_end(s, i) <= s.len() {
        lemma_next_start_ge(s, skip_end(s, i));
    }
}

/// The line start that reading the whitespace character at `i` records:
/// the offset of a newline, nothing for other whitespace and comments
pub open spec fn line_start_at(s: Seq<char>, offsets: Seq<u32>, i: int) -> Seq<u32> {
    if s[i] == '\n' { seq![offsets[i]] } else { Seq::empty() }
}

/// The line starts recorded while skipping whitespace and comments from `i`
pub open spec fn skipped_line_starts(s: Seq<char>, offsets: Seq<u32>, i: int) -> Seq<u32>
    decreases s.len() - i,
{
    if 0 <= i < s.len() && skips_at(s, i) && i < skip_end(s, i) <= s.len() {
        line_start_at(s, offsets, i) + skipped_line_starts(s, offsets, skip_end(s, i))
    } else {
        Seq::empty()
    }
}

/// The line starts recorded while reading all tokens from `i` on
pub open spec fn line_starts_from(s: Seq<char>, offsets: Seq<u32>, i: int) -> Seq<u32>
    decreases s.len() - i,
{
    if 0 <= next_start(s, i) < s.len() && next_start(s, i) < token_end(s, next_start(s, i)) <= s.len()
        && i < token_end(s, next_start(s, i)) {
        skipped_line_starts(s, offsets, i) + line_starts_from(s, offsets, token_end(s, next_start(s, i)))
    } else {
        skipped_line_starts(s, offsets, i)
    }
}

/// All tokens from `i` on can be read: one token after the other up to the
/// end of the text
pub open spec fn lexes_all(s: Seq<char>, i: int) -> bool
    decreases s.len() - i,
{
    if !lexes_next(s, i) {
        false
    } else if next_start(s, i) < 0 || next_start(s, i) >= s.len() {
        true
    } else if next_start(s, i) < token_end(s, next_start(s, i)) <= s.len() && i < token_end(s, next_start(s, i)) {
        lexes_all(s, token_end(s, next_start(s, i)))
    } else {
        false
    }
}

/// Whether what starts at `a` is skipped: a whitespace character, or a
/// comment from `//` to the end of its line
pub open spec fn starts_skip(s: Seq<char>, a: int) -> bool {
    0 <= a < s.len() && (is_whitespace(s[a]) || (s[a] == '/' && a + 1 < s.len() && s[a + 1] == '/'))
}

/// Where the skipped text that starts at `a` ends
pub open spec fn skip_end(s: Seq<char>, a: int) -> int {
    if s[a] == '/' && a + 1 < s.len() && s[a + 1] == '/' { newline_from(s, a + 2) } else { a + 1 }
}

/// Whether the characters `a..b` are whitespace and comments
pub open spec fn skippable(s: Seq<char>, a: int, b: int) -> bool
    decreases b - a,
{
    if a == b {
        true
    } else if a < b && starts_skip(s, a) && a < skip_end(s, a) <= b {
        skippable(s, skip_end(s, a), b)
    } else {
        false
    }
}

/// The token `t` is read from the characters `m..c`: after whitespace and
/// comments, and as long as it can be
pub open spec fn token_after(s: Seq<char>, names: Seq<Seq<char>>, m: int, t: Token, c: int) -> bool {
    exists|b: int| m <= b < c <= s.len() && skippable(s, m, b)
        && token_text(t, #[trigger] s.subrange(b, c), names)
        && (c == s.len() || !extends_token(t, s[c]))
}

/// The span of a token covers the characters `s..e`, which read as the token
pub open spec fn spans_text(t: Spanned<Token>, s: int, e: int, chars: Seq<char>, offsets: Seq<u32>, names: Seq<Seq<char>>) -> bool {
    &&& 0 <= s < e <= chars.len()
    &&& t.span.pos == offsets[s]
    &&& t.span.len == offsets[e] - offsets[s]
    &&& token_text(t.value, chars.subrange(s, e), names)
}

/// The span of a token covers characters that read as the token
pub open spec fn spanned_text(t: Spanned<Token>, chars: Seq<char>, offsets: Seq<u32>, names: Seq<Seq<char>>) -> bool {
    exists|s: int, e: int| #[trigger] spans_text(t, s, e, chars, offsets, names)
}

/// The tokens `toks` (none of them `EOF`) are read from the characters
/// `a..c`, one after the other
pub open spec fn lexes_upto(s: Seq<char>, names: Seq<Seq<char>>, a: int, toks: Seq<Token>, c: int) -> bool
    decreases toks.len(),
{
    if toks.len() == 0 {
        a == c
    } else {
        exists|m: int| a <= m <= c && lexes_upto(s, names, a, toks.drop_last(), m)
            && #[trigger] token_after(s, names, m, toks.last(), c)
    }
}

/// The tokens `toks` are read from the characters from `a` on: tokens as
/// long as they can be, each after whitespace and comments, and `EOF` at the
/// end
pub open spec fn lexes(s: Seq<char>, names: Seq<Seq<char>>, a: int, toks: Seq<Token>) -> bool {
    &&& toks.len() >= 1
    &&& toks.last() == Token::EOF
    &&& forall|i: int| 0 <= i < toks.len() - 1 ==> #[trigger] toks[i] != Token::EOF
    &&& exists|c: int| #[trigger] lexes_upto(s, names, a, toks.drop_last(), c) && skippable(s, c, s.len() as int)
}

/// Reading tokens stays so as more names are interned
pub proof fn lemma_lexes_upto_extend(s: Seq<char>, n1: Seq<Seq<char>>, n2: Seq<Seq<char>>, a: int, toks: Seq<Token>, c: int)
    requires
        lexes_upto(s, n1, a, toks, c),
        interner_extends(n1, n2),
    ensures
        lexes_upto(s, n2, a, toks, c),
    decreases toks.len(),
{
    if toks.len() > 0 {
        let m = choose|m: int| a <= m <= c && lexes_upto(s, n1, a, toks.drop_last(), m)
            && #[trigger] token_after(s, n1, m, toks.last(), c);
        lemma_lexes_upto_extend(s, n1, n2, a, toks.drop_last(), m);
        let b = choose|b: int| m <= b < c <= s.len() && skippable(s, m, b)
            && token_text(toks.last(), #[trigger] s.subrange(b, c), n1)
            && (c == s.len() || !extends_token(toks.last(), s[c]));
        assert(token_text(toks.last(), s.subrange(b, c), n2));
        assert(token_after(s, n2, m, toks.last(), c));
    }
}

/// A comment's end is not before its text
pub proof fn lemma_newline_from(s: Seq<char>, k: int)
    requires
        0 <= k <= s.len(),
    ensures
        k <= newline_from(s, k) <= s.len(),
        newline_from(s, k) < s.len() ==> s[newline_from(s, k)] == '\n',
        forall|j: int| k <= j < newline_from(s, k) ==> s[j] != '\n',
    decreases s.len() - k,
{
    if k < s.len() && s[k] != '\n' {
        lemma_newline_from(s, k + 1);
    }
}

/// Where eating all characters but line breaks stops
pub proof fn lemma_newline_at(s: Seq<char>, k: int, e: int)
    requires
        0 <= k <= e <= s.len(),
        forall|j: int| k <= j < e ==> #[trigger] s[j] != '\n',
        e < s.len() ==> s[e] == '\n',
    ensures
        newline_from(s, k) == e,
    decreases e - k,
{
    if k < e {
        lemma_newline_at(s, k + 1, e);
    }
}

/// Skipped text followed by one more skipped piece is skipped text
pub proof fn lemma_skippable_extend(s: Seq<char>, a: int, b: int)
    requires
        a <= b,
        skippable(s, a, b),
        starts_skip(s, b),
        b < skip_end(s, b),
    ensures
        skippable(s, a, skip_end(s, b)),
    decreases b - a,
{
    if a < b {
        lemma_skippable_extend(s, skip_end(s, a), b);
    } else {
        assert(skippable(s, skip_end(s, b), skip_end(s, b)));
    }
}

/// The byte offsets of the characters of `s` (one more entry than `s`
/// has characters: the last one is the total length)
pub open spec fn offsets_of(s: Seq<char>, offsets: Seq<u32>) -> bool {
    &&& offsets.len() == s.len() + 1
    &&& offsets[0] == 0
    &&& forall|i: int| 0 <= i < s.len() ==> #[trigger] offsets[i + 1] == offsets[i] + utf8_len(s[i])
}

/// The kinds of characters `collect`/`eat_all` consume
#[derive(Clone, Copy, Debug, PartialEq, Eq, Structural)]
pub enum CharClass {
    /// Letters, digits and `_`
    IdentChar,
    /// Numeric characters
    Numeric,
    /// Anything but a newline
    NotNewline,
}

pub open spec fn in_class(c: char, class: CharClass) -> bool {
    match class {
        CharClass::IdentChar => is_ident_char(c),
        CharClass::Numeric => is_numeric(c),
        CharClass::NotNewline => c != '\n',
    }
}

pub struct Lexer {
    /// The source characters
    pub source: Vec<char>,
    /// The byte offset of each character, and the total length
    pub offsets: Vec<u32>,
    /// The name of the file being lexed
    pub file: Vec<char>,
    /// The index of the current character
    pub idx: usize,
    pub session: Session,
}

impl Lexer {
    // --- Lexer: The specification view ----------------------------------------

    /// The characters of the source
    pub open spec fn chars(&self) -> Seq<char> {
        self.source@
    }

    /// The byte offset of each character
    pub open spec fn byte_offsets(&self) -> Seq<u32> {
        self.offsets@
    }

    /// The index of the current character
    pub open spec fn index(&self) -> int {
        self.idx as int
    }

    /// The byte offset of the current character
    pub open spec fn byte_pos(&self) -> u32 {
        self.byte_offsets()[self.index()]
    }

    pub open spec fn wf(&self) -> bool {
        &&& self.wf_base()
        &&& (self.session.codemap@.last() < self.offsets@[self.idx as int]
            || (self.idx == 0 && self.session.codemap@ == seq![0u32]))
    }

    /// The invariant, except for the relation between the codemap and the
    /// current position
    pub open spec fn wf_base(&self) -> bool {
        &&& offsets_of(self.source@, self.offsets@)
        &&& utf8_total(self.source@) < u32::MAX
        &&& self.source@.len() < usize::MAX
        &&& self.offsets@[self.source@.len() as int] == utf8_total(self.source@)
        &&& self.idx <= self.source@.len()
        &&& self.session.wf()
        &&& (self.source@.len() > 0 ==> self.source@[0] != '\n')
    }

    /// Offsets grow with the index
    pub(crate) proof fn lemma_offsets_mono(&self, i: int, j: int)
        requires
            offsets_of(self.source@, self.offsets@),
            0 <= i <= j <= self.source@.len(),
        ensures
            self.offsets@[i] <= self.offsets@[j],
            i < j ==> self.offsets@[i] < self.offsets@[j],
        decreases j - i,
    {
        if i < j {
            self.lemma_offsets_mono(i, j - 1);
            let k = j - 1;
            assert(self.offsets@[k + 1] == self.offsets@[k] + utf8_len(self.source@[k]));
        }
    }

    // --- Lexer: The public API ------------------------------------------------

    /// Create a new lexer from a given string and file name, with a fresh session
    pub fn new(source: &str, file: &str) -> (r: Lexer)
        requires
            utf8_total(source@) < u32::MAX,
            source@.len() > 0,
            source@[0] != '\n',
        ensures
            r.wf(),
            r.chars() == source@,
            r.index() == 0,
            r.session.errors@.len() == 0,
    {
        Lexer::with_session(source, file, Session::new())
    }

    /// Create a new lexer working with an existing session whose codemap is fresh
    pub fn with_session(source: &str, file: &str, session: Session) -> (r: Lexer)
        requires
            utf8_total(source@) < u32::MAX,
            source@.len() > 0 ==> source@[0] != '\n',
            session.wf(),
            session.codemap@ == seq![0u32],
        ensures
            r.wf(),
            r.chars() == source@,
            r.index() == 0,
            r.session == session,
    {
        let chars = str_chars(source);
        let mut offsets: Vec<u32> = Vec::new();
        offsets.push(0);
        let mut total: u32 = 0;
        let mut i: usize = 0;
        while i < chars.len()
            invariant
                i <= chars@.len(),
                chars@ == source@,
                utf8_total(source@) < u32::MAX,
                offsets@.len() == i + 1,
                offsets@[0] == 0,
                forall|j: int| 0 <= j < i ==> #[trigger] offsets@[j + 1] == offsets@[j] + utf8_len(chars@[j]),
                total == offsets@[i as int],
                total == utf8_total(chars@.subrange(0, i as int)),
            decreases chars@.len() - i,
        {
            proof {
                assert(chars@.subrange(0, i + 1).drop_last() =~= chars@.subrange(0, i as int));
                lemma_utf8_total_prefix(chars@, i + 1);
            }
            total = total + len_utf8(chars[i]);
            offsets.push(total);
            i = i + 1;
        }
        assert(chars@.subrange(0, chars@.len() as int) =~= chars@);
        proof {
            lemma_utf8_total_ge_len(chars@);
        }
        let file_chars = str_chars(file);
        Lexer { source: chars, offsets, file: file_chars, idx: 0, session }
    }

    /// Get the next token (`EOF` once the source is exhausted)
    pub fn next_token(&mut self) -> (r: Result<Spanned<Token>, Diagnostic>)
        requires
            old(self).wf(),
        ensures
            final(self).wf(),
            final(self).chars() == old(self).chars(),
            final(self).byte_offsets() == old(self).byte_offsets(),
            old(self).index() <= final(self).index(),
            interner_extends(old(self).session.interner@, final(self).session.interner@),
            r matches Ok(t) ==> t.value == Token::EOF ==> final(self).index() == final(self).chars().len(),
            r matches Ok(t) ==> t.value == Token::EOF ==> skippable(old(self).chars(), old(self).index(), final(self).index()),
            r matches Ok(t) ==> t.value != Token::EOF ==> old(self).index() < final(self).index(),
            r matches Ok(t) ==> t.value != Token::EOF ==> exists|s: int| old(self).index() <= s < final(self).index()
                && skippable(old(self).chars(), old(self).index(), s)
                && #[trigger] final(self).token_at(t, s, final(self).index(), final(self)),
            r matches Ok(t) ==> t.value != Token::EOF ==> final(self).index() == final(self).chars().len()
                || !extends_token(t.value, final(self).chars()[final(self).index()]),
            r matches Ok(t) ==> t.value == Token::EOF ==> t.span.pos == final(self).byte_pos() && t.span.len == 0,
            r is Ok <==> lexes_next(old(self).chars(), old(self).index()),
            r matches Ok(t) ==> (t.value == Token::EOF <==> next_start(old(self).chars(), old(self).index()) >= old(self).chars().len()),
            r matches Ok(t) ==> t.value != Token::EOF ==> token_ends(old(self).chars(),
                next_start(old(self).chars(), old(self).index()), final(self).index()),
            r is Ok ==> final(self).session.codemap@ == old(self).session.codemap@
                + skipped_line_starts(old(self).chars(), old(self).byte_offsets(), old(self).index()),
    {
        let ghost a = old(self).index();
        let ghost chars = old(self).chars();
        while !self.is_eof()
            invariant
                self.wf(),
                self.chars() == old(self).chars(),
                self.byte_offsets() == old(self).byte_offsets(),
                old(self).index() <= self.index(),
                interner_extends(old(self).session.interner@, self.session.interner@),
                skippable(old(self).chars(), old(self).index(), self.index()),
                chars == old(self).chars(),
                a == old(self).index(),
                lexes_next(chars, a) == lexes_next(chars, self.index()),
                next_start(chars, a) == next_start(chars, self.index()),
                old(self).session.codemap@ + skipped_line_starts(chars, old(self).byte_offsets(), a)
                    == self.session.codemap@ + skipped_line_starts(chars, old(self).byte_offsets(), self.index()),
            decreases self.chars().len() - self.index(),
        {
            // Read the next token as long as the lexer requests us to do so
            let ghost before = self.index();
            let next = self.read_token();
            proof {
                assert(0 <= before < chars.len());
                if next is Ok {
                    assert(reads_at(chars, before));
                    if next matches Ok(Some(_)) {
                        assert(!skips_at(chars, before));
                        assert(lexes_next(chars, before));
                        assert(next_start(chars, before) == before);
                        assert(skipped_line_starts(chars, old(self).byte_offsets(), before) =~= Seq::<u32>::empty());
                    } else {
                        let off = old(self).byte_offsets();
                        assert(self.session.codemap@ + skipped_line_starts(chars, off, self.index())
                            =~= old(self).session.codemap@ + skipped_line_starts(chars, off, a));
                    }
                } else {
                    assert(!lexes_next(chars, before));
                }
            }
            if let Some(token) = next? {
                return Ok(token);
            }
            proof {
                lemma_skippable_extend(self.chars(), old(self).index(), before);
            }
        }
        let p = self.offsets[self.idx];
        Ok(Spanned::new(Token::EOF, p, p))
    }

    /// Whether token `t` was read from the characters `s..e` of the lexer `l`
    pub open spec fn token_at(&self, t: Spanned<Token>, s: int, e: int, l: &Lexer) -> bool {
        &&& 0 <= s < e <= l.chars().len()
        &&& t.span.pos == l.byte_offsets()[s]
        &&& t.span.len == l.byte_offsets()[e] - l.byte_offsets()[s]
        &&& token_text(t.value, l.chars().subrange(s, e), l.session.interner@)
    }

    /// Tokenize the whole source into a vector (the last token is `EOF`)
    pub fn tokenize(&mut self) -> (r: Result<Vec<Spanned<Token>>, Diagnostic>)
        requires
            old(self).wf(),
        ensures
            final(self).wf(),
            final(self).chars() == old(self).chars(),
            final(self).byte_offsets() == old(self).byte_offsets(),
            interner_extends(old(self).session.interner@, final(self).session.interner@),
            r matches Ok(v) ==> v@.len() > 0 && v@.last().value == Token::EOF,
            r matches Ok(v) ==> forall|i: int| 0 <= i < v@.len() - 1 ==> #[trigger] v@[i].value != Token::EOF,
            r matches Ok(v) ==> final(self).index() == final(self).chars().len(),
            r matches Ok(v) ==> lexes(old(self).chars(), final(self).session.interner@, old(self).index(),
                v@.map_values(|t: Spanned<Token>| t.value)),
            r is Ok <==> lexes_all(old(self).chars(), old(self).index()),
            r is Ok ==> final(self).session.codemap@ == old(self).session.codemap@
                + line_starts_from(old(self).chars(), old(self).byte_offsets(), old(self).index()),
            r matches Ok(v) ==> forall|i: int| 0 <= i < v@.len() - 1
                ==> spanned_text(#[trigger] v@[i], old(self).chars(), old(self).byte_offsets(), final(self).session.interner@),
            r matches Ok(v) ==> v@.last().span.pos == old(self).byte_offsets()[old(self).chars().len() as int]
                && v@.last().span.len == 0,
    {
        let mut tokens: Vec<Spanned<Token>> = Vec::new();
        let ghost a0 = self.index();
        assert(tokens@.map_values(|t: Spanned<Token>| t.value) =~= Seq::<Token>::empty());
        loop
            invariant
                self.wf(),
                self.chars() == old(self).chars(),
                self.byte_offsets() == old(self).byte_offsets(),
                interner_extends(old(self).session.interner@, self.session.interner@),
                forall|i: int| 0 <= i < tokens@.len() ==> #[trigger] tokens@[i].value != Token::EOF,
                a0 == old(self).index(),
                lexes_upto(self.chars(), self.session.interner@, a0, tokens@.map_values(|t: Spanned<Token>| t.value),
                    self.index()),
                lexes_all(old(self).chars(), a0) == lexes_all(old(self).chars(), self.index()),
                forall|i: int| 0 <= i < tokens@.len()
                    ==> spanned_text(#[trigger] tokens@[i], self.chars(), self.byte_offsets(), self.session.interner@),
                old(self).session.codemap@ + line_starts_from(old(self).chars(), old(self).byte_offsets(), a0)
                    == self.session.codemap@ + line_starts_from(old(self).chars(), old(self).byte_offsets(), self.index()),
            decreases self.chars().len() - self.index(),
        {
            let ghost start = self.index();
            let ghost names_before = self.session.interner@;
            let ghost before = tokens@.map_values(|t: Spanned<Token>| t.value);
            let next = self.next_token();
            proof {
                let sc = self.chars();
                let off = old(self).byte_offsets();
                if next is Ok && next->Ok_0.value != Token::EOF {
                    let p = next_start(sc, start);
                    lemma_next_start_ge(sc, start);
                    lemma_token_ends_unique(sc, p, token_end(sc, p), self.index());
                    assert(lexes_all(sc, start) == lexes_all(sc, self.index()));
                    assert(line_starts_from(sc, off, start)
                        == skipped_line_starts(sc, off, start) + line_starts_from(sc, off, self.index()));
                } else if next is Ok {
                    assert(line_starts_from(sc, off, start) == skipped_line_starts(sc, off, start));
                }
            }
            let ghost toks_before = tokens@;
            let t = next?;
            proof {
                lemma_lexes_upto_extend(self.chars(), names_before, self.session.interner@, a0, before, start);
                assert forall|i: int| 0 <= i < tokens@.len() implies
                    spanned_text(#[trigger] tokens@[i], self.chars(), self.byte_offsets(), self.session.interner@) by {
                    let (s, e) = choose|s: int, e: int|
                        #[trigger] spans_text(tokens@[i], s, e, self.chars(), self.byte_offsets(), names_before);
                    assert(spans_text(tokens@[i], s, e, self.chars(), self.byte_offsets(), self.session.interner@));
                }
            }
            if t.value == Token::EOF {
                assert(self.index() == self.chars().len());
                tokens.push(t);
                proof {
                    let now = tokens@.map_values(|t: Spanned<Token>| t.value);
                    assert(now.drop_last() =~= before);
                    assert(now.last() == Token::EOF);
                    assert forall|i: int| 0 <= i < now.len() - 1 implies #[trigger] now[i] != Token::EOF by {
                        assert(now[i] == tokens@[i].value);
                    }
                    assert(lexes_upto(self.chars(), self.session.interner@, a0, now.drop_last(), start));
                    assert forall|i: int| 0 <= i < tokens@.len() - 1 implies
                        spanned_text(#[trigger] tokens@[i], old(self).chars(), old(self).byte_offsets(), self.session.interner@) by {
                        assert(tokens@[i] == toks_before[i]);
                        let (s, e) = choose|s: int, e: int|
                            #[trigger] spans_text(toks_before[i], s, e, self.chars(), self.byte_offsets(), self.session.interner@);
                        assert(spans_text(tokens@[i], s, e, old(self).chars(), old(self).byte_offsets(), self.session.interner@));
                    }
                }
                return Ok(tokens);
            }
            proof {
                let s = choose|s: int| start <= s < self.index() && skippable(self.chars(), start, s)
                    && #[trigger] self.token_at(t, s, self.index(), self);
                assert(token_text(t.value, self.chars().subrange(s, self.index()), self.session.interner@));
                assert(token_after(self.chars(), self.session.interner@, start, t.value, self.index()));
                assert(spans_text(t, s, self.index(), self.chars(), self.byte_offsets(), self.session.interner@));
            }
            tokens.push(t);
            proof {
                let now = tokens@.map_values(|t: Spanned<Token>| t.value);
                assert(now.drop_last() =~= before);
                assert(now.last() == t.value);
                assert forall|i: int| 0 <= i < tokens@.len() implies
                    spanned_text(#[trigger] tokens@[i], self.chars(), self.byte_offsets(), self.session.interner@) by {
                    if i < tokens@.len() - 1 {
                        assert(tokens@[i] == toks_before[i]);
                    } else {
                        assert(tokens@[i] == t);
                        let s = choose|s: int| start <= s < self.index() && skippable(self.chars(), start, s)
                            && #[trigger] self.token_at(t, s, self.index(), self);
                        assert(spans_text(tokens@[i], s, self.index() as int, self.chars(), self.byte_offsets(), self.session.interner@));
                    }
                }
            }
        }
    }

    // --- Lexer: Helpers -------------------------------------------------------

    /// An error at the current source position
    pub(crate) fn fatal(&self, msg: String) -> (r: Diagnostic)
        requires
            self.wf(),
        ensures
            r.msg@ == msg@,
            r.pos == Some(self.byte_pos()),
    {
        Diagnostic::at(msg, self.offsets[self.idx])
    }

    /// Are we done yet?
    pub(crate) fn is_eof(&self) -> (r: bool)
        requires
            self.wf(),
        ensures
            r == (self.index() == self.chars().len()),
    {
        self.idx >= self.source.len()
    }

    /// The current character, if any
    pub(crate) fn curr(&self) -> (r: Option<char>)
        requires
            self.wf(),
        ensures
            self.index() < self.chars().len() ==> r == Some(self.chars()[self.index()]),
            self.index() == self.chars().len() ==> r is None,
    {
        if self.idx < self.source.len() { Some(self.source[self.idx]) } else { None }
    }

    /// Get the current source position we're at
    pub fn get_source(&self) -> (r: Loc)
        requires
            self.wf(),
        ensures
            r == resolve_spec(self.session.codemap@, self.byte_pos()),
    {
        proof {
            self.lemma_offsets_mono(self.index(), self.chars().len() as int);
            self.session.codemap.lemma_resolvable(self.byte_pos());
        }
        self.session.codemap.resolve(BytePos(self.offsets[self.idx]))
    }

    /// The name of the file being lexed
    pub fn file_name(&self) -> (r: &[char])
        ensures
            r@ == self.file@,
    {
        self.file.as_slice()
    }

    // --- Lexer: Character processing ------------------------------------------

    /// Move along to the next character
    pub(crate) fn bump(&mut self)
        requires
            old(self).wf_base(),
            old(self).session.codemap@.last() <= old(self).byte_pos(),
            old(self).index() < old(self).chars().len(),
        ensures
            final(self).wf(),
            final(self).index() == old(self).index() + 1,
            final(self).chars() == old(self).chars(),
            final(self).byte_offsets() == old(self).byte_offsets(),
            final(self).session == old(self).session,
    {
        proof {
            self.lemma_offsets_mono(self.index(), self.index() + 1);
        }
        self.idx = self.idx + 1;
    }

    /// An escaped representation of the current character
    fn curr_escaped(&self) -> (r: String)
        requires
            self.wf(),
        ensures
            self.index() < self.chars().len() ==> r@ == escape_default(self.chars()[self.index()]),
            self.index() == self.chars().len() ==> r@ == "EOF"@,
    {
        match self.curr() {
            Some(c) => char_escape_default(c),
            None => String::from_str("EOF"),
        }
    }

    /// Consume an expected character or report an error
    fn expect(&mut self, expect: char) -> (r: Result<(), Diagnostic>)
        requires
            old(self).wf(),
            expect != '\n',
        ensures
            final(self).wf(),
            final(self).chars() == old(self).chars(),
            final(self).byte_offsets() == old(self).byte_offsets(),
            final(self).session == old(self).session,
            r is Ok <==> old(self).index() < old(self).chars().len() && old(self).chars()[old(self).index()] == expect,
            r is Ok ==> final(self).index() == old(self).index() + 1,
            r is Err ==> final(self).index() == old(self).index(),
    {
        if self.curr() != Some(expect) {
            // Build error message
            let mut msg = String::new();
            push_str(&mut msg, "Expected ``");
            push_char(&mut msg, expect);
            push_str(&mut msg, "`, found `");
            match self.curr() {
                Some(_) => {
                    push_char(&mut msg, '\'');
                    let e = self.curr_escaped();
                    push_str(&mut msg, e.as_str());
                    push_char(&mut msg, '\'');
                },
                None => push_str(&mut msg, "EOF"),
            }
            push_char(&mut msg, '`');
            return Err(self.fatal(msg));
        }
        self.bump();
        Ok(())
    }

    /// Collect & consume all consecutive characters of a class
    pub(crate) fn collect(&mut self, class: CharClass) -> (r: Vec<char>)
        requires
            old(self).wf(),
        ensures
            final(self).wf(),
            final(self).chars() == old(self).chars(),
            final(self).byte_offsets() == old(self).byte_offsets(),
            final(self).session == old(self).session,
            old(self).index() <= final(self).index(),
            r@ == old(self).chars().subrange(old(self).index(), final(self).index()),
            forall|i: int| 0 <= i < r@.len() ==> in_class(#[trigger] r@[i], class),
            final(self).index() < final(self).chars().len() ==> !in_class(final(self).chars()[final(self).index()], class),
    {
        let start = self.idx;
        let mut r: Vec<char> = Vec::new();
        while self.idx < self.source.len() && self.class_of_curr(class)
            invariant
                self.wf(),
                self.chars() == old(self).chars(),
                self.byte_offsets() == old(self).byte_offsets(),
                self.session == old(self).session,
                start == old(self).index(),
                start <= self.index(),
                r@ == self.chars().subrange(start as int, self.index()),
                forall|i: int| 0 <= i < r@.len() ==> in_class(#[trigger] r@[i], class),
            decreases self.chars().len() - self.index(),
        {
            let c = self.source[self.idx];
            self.bump();
            r.push(c);
            assert(r@ =~= self.chars().subrange(start as int, self.index()));
        }
        r
    }

    /// Whether the current character is of a class
    pub(crate) fn class_of_curr(&self, class: CharClass) -> (r: bool)
        requires
            self.wf(),
            self.index() < self.chars().len(),
        ensures
            r == in_class(self.chars()[self.index()], class),
    {
        let c = self.source[self.idx];
        match class {
            CharClass::IdentChar => char_is_alphabetic(c) || char_is_numeric(c) || c == '_',
            CharClass::Numeric => char_is_numeric(c),
            CharClass::NotNewline => c != '\n',
        }
    }

    /// Consume all consecutive characters of a class
    pub(crate) fn eat_all(&mut self, class: CharClass)
        requires
            old(self).wf(),
        ensures
            final(self).wf(),
            final(self).chars() == old(self).chars(),
            final(self).byte_offsets() == old(self).byte_offsets(),
            final(self).session == old(self).session,
            old(self).index() <= final(self).index(),
            forall|i: int| old(self).index() <= i < final(self).index() ==> in_class(#[trigger] final(self).chars()[i], class),
            final(self).index() < final(self).chars().len() ==> !in_class(final(self).chars()[final(self).index()], class),
    {
        while self.idx < self.source.len() && self.class_of_curr(class)
            invariant
                self.wf(),
                self.chars() == old(self).chars(),
                self.byte_offsets() == old(self).byte_offsets(),
                self.session == old(self).session,
                old(self).index() <= self.index(),
                forall|i: int| old(self).index() <= i < self.index() ==> in_class(#[trigger] self.chars()[i], class),
            decreases self.chars().len() - self.index(),
        {
            self.bump();
        }
    }

    // --- Lexer: Tokenizers ----------------------------------------------------

    /// Skip over a comment string
    pub(crate) fn skip_comment(&mut self)
        requires
            old(self).wf(),
        ensures
            final(self).wf(),
            final(self).chars() == old(self).chars(),
            final(self).byte_offsets() == old(self).byte_offsets(),
            final(self).session == old(self).session,
            old(self).index() <= final(self).index(),
            forall|i: int| old(self).index() <= i < final(self).index() ==> #[trigger] final(self).chars()[i] != '\n',
            final(self).index() < final(self).chars().len() ==> final(self).chars()[final(self).index()] == '\n',
    {
        self.eat_all(CharClass::NotNewline);
    }
}


impl Lexer {
    /// Tokenize an identifier or a keyword
    fn tokenize_ident(&mut self) -> (r: Token)
        requires
            old(self).wf(),
            old(self).index() < old(self).chars().len(),
            is_alphabetic(old(self).chars()[old(self).index()]),
        ensures
            final(self).wf(),
            final(self).chars() == old(self).chars(),
            final(self).byte_offsets() == old(self).byte_offsets(),
            final(self).session.codemap == old(self).session.codemap,
            interner_extends(old(self).session.interner@, final(self).session.interner@),
            old(self).index() < final(self).index(),
            final(self).index() < final(self).chars().len() ==> !is_ident_char(final(self).chars()[final(self).index()]),
            r is Ident || r is Keyword,
            token_text(r, final(self).chars().subrange(old(self).index(), final(self).index()), final(self).session.interner@),
    {
        let ident = self.collect(CharClass::IdentChar);
        proof {
            assert(ident@[0] == old(self).chars()[old(self).index()]);
        }
        // Check whether it's a keyword or an identifier
        match lookup_keyword(ident.as_slice()) {
            Some(kw) => Token::Keyword(kw),
            None => {
                let ghost before = self.session.interner@;
                let id = self.session.interner.intern(ident.as_slice());
                proof {
                    assert forall|i: int| 0 <= i < before.len() implies #[trigger] self.session.interner@[i] == before[i] by {
                        if !before.contains(ident@) {
                            assert(self.session.interner@ == before.push(ident@));
                        }
                    }
                }
                Token::Ident(id)
            },
        }
    }

    /// Tokenize an integer
    fn tokenize_integer(&mut self) -> (r: Result<Token, Diagnostic>)
        requires
            old(self).wf(),
            old(self).index() < old(self).chars().len(),
            is_numeric(old(self).chars()[old(self).index()]),
            old(self).chars()[old(self).index()] != '+',
        ensures
            final(self).wf(),
            final(self).chars() == old(self).chars(),
            final(self).byte_offsets() == old(self).byte_offsets(),
            final(self).session == old(self).session,
            old(self).index() < final(self).index(),
            final(self).index() < final(self).chars().len() ==> !is_numeric(final(self).chars()[final(self).index()]),
            r matches Ok(t) ==> t is Int,
            r matches Ok(t) ==> token_text(t, final(self).chars().subrange(old(self).index(), final(self).index()), final(self).session.interner@),
            r is Err <==> !parses_as_u32(final(self).chars().subrange(old(self).index(), final(self).index())),
            r is Ok <==> int_literal_at(old(self).chars(), old(self).index()),
    {
        let integer_str = self.collect(CharClass::Numeric);
        proof {
            assert(integer_str@[0] == old(self).chars()[old(self).index()]);
            let sc = old(self).chars();
            let (i, e) = (old(self).index(), self.index());
            assert forall|k: int| i <= k < e implies is_numeric(#[trigger] sc[k]) by {
                assert(in_class(integer_str@[k - i], CharClass::Numeric));
            }
            assert(digit_run(sc, i, e));
            assert forall|e2: int| #[trigger] digit_run(sc, i, e2) implies e2 == e by {
                if e2 < e {
                    assert(is_numeric(sc[e2]));
                } else if e < e2 {
                    assert(is_numeric(sc[e]));
                }
            }
        }
        match parse_u32(integer_str.as_slice()) {
            Some(i) => Ok(Token::Int(i)),
            None => {
                let mut msg = String::new();
                push_str(&mut msg, "invalid integer: ");
                push_chars(&mut msg, integer_str.as_slice());
                Err(self.fatal(msg))
            },
        }
    }

    /// Tokenize a character literal. Handles the escapes `\n` and `\'`
    fn tokenize_char(&mut self) -> (r: Result<Token, Diagnostic>)
        requires
            old(self).wf(),
            old(self).index() < old(self).chars().len(),
            old(self).chars()[old(self).index()] == '\'',
        ensures
            final(self).wf(),
            final(self).chars() == old(self).chars(),
            final(self).byte_offsets() == old(self).byte_offsets(),
            final(self).session == old(self).session,
            old(self).index() < final(self).index(),
            r matches Ok(t) ==> t is Char,
            r matches Ok(t) ==> token_text(t, final(self).chars().subrange(old(self).index(), final(self).index()), final(self).session.interner@),
            r is Ok <==> char_literal_at(old(self).chars(), old(self).index()),
    {
        let ghost start = self.index();
        self.bump(); // '\'' matched, move on
        let c = match self.curr() {
            Some(c) => c,
            None => {
                let mut msg = String::new();
                push_str(&mut msg, "expected a char, found EOF");
                return Err(self.fatal(msg));
            },
        };
        let tok = if c == '\\' {
            // Escaped char, let's take a look on one more char
            self.bump();
            match self.curr() {
                Some('n') => Token::Char('\n'),
                Some('\'') => Token::Char('\''),
                Some(c) => {
                    let mut msg = String::new();
                    push_str(&mut msg, "unsupported or invalid escape sequence: \\");
                    push_char(&mut msg, c);
                    return Err(self.fatal(msg));
                },
                None => {
                    let mut msg = String::new();
                    push_str(&mut msg, "expected escaped char, found EOF");
                    return Err(self.fatal(msg));
                },
            }
        } else {
            Token::Char(c)
        };
        self.bump(); // Matched a (possibly escaped) character, move along
        // Match closing quote
        self.expect('\'')?;
        proof {
            let text = self.chars().subrange(start, self.index());
            if c == '\\' {
                assert(text =~= seq!['\'', '\\', self.chars()[start + 2], '\'']);
            } else {
                assert(text =~= seq!['\'', c, '\'']);
            }
        }
        Ok(tok)
    }
}

impl Lexer {
    /// Consume a one-character token
    fn emit(&mut self, tok: Token) -> (r: Token)
        requires
            old(self).wf(),
            old(self).index() < old(self).chars().len(),
            punct_text(tok) == Some(seq![old(self).chars()[old(self).index()]]),
        ensures
            final(self).wf(),
            final(self).chars() == old(self).chars(),
            final(self).byte_offsets() == old(self).byte_offsets(),
            final(self).session == old(self).session,
            final(self).index() == old(self).index() + 1,
            r == tok,
            token_text(r, final(self).chars().subrange(old(self).index(), final(self).index()), final(self).session.interner@),
    {
        self.bump();
        assert(self.chars().subrange(old(self).index(), self.index()) =~= seq![old(self).chars()[old(self).index()]]);
        tok
    }

    /// Consume a token that is one character long, or two if the second one is `next`
    fn emit_either(&mut self, next: char, long: Token, short: Token) -> (r: Token)
        requires
            old(self).wf(),
            old(self).index() < old(self).chars().len(),
            punct_text(short) == Some(seq![old(self).chars()[old(self).index()]]),
            punct_text(long) == Some(seq![old(self).chars()[old(self).index()], next]),
        ensures
            final(self).wf(),
            final(self).chars() == old(self).chars(),
            final(self).byte_offsets() == old(self).byte_offsets(),
            final(self).session == old(self).session,
            old(self).index() < final(self).index(),
            r == long || r == short,
            r == short && long != short ==> final(self).index() == final(self).chars().len()
                || final(self).chars()[final(self).index()] != next,
            token_text(r, final(self).chars().subrange(old(self).index(), final(self).index()), final(self).session.interner@),
    {
        let ghost start = self.index();
        self.bump();
        if self.curr() == Some(next) {
            self.bump();
            assert(self.chars().subrange(start, self.index()) =~= seq![self.chars()[start], next]);
            long
        } else {
            assert(self.chars().subrange(start, self.index()) =~= seq![self.chars()[start]]);
            short
        }
    }

    /// Read the next token and return it
    ///
    /// If `None` is returned, the current text (whitespace or a comment) is
    /// to be ignored and the lexer requests the reader to read the next
    /// token instead.
    fn read_token(&mut self) -> (r: Result<Option<Spanned<Token>>, Diagnostic>)
        requires
            old(self).wf(),
            old(self).index() < old(self).chars().len(),
        ensures
            final(self).wf(),
            final(self).chars() == old(self).chars(),
            final(self).byte_offsets() == old(self).byte_offsets(),
            interner_extends(old(self).session.interner@, final(self).session.interner@),
            r is Ok ==> old(self).index() < final(self).index(),
            old(self).index() <= final(self).index(),
            r matches Ok(Some(t)) ==> final(self).token_at(t, old(self).index(), final(self).index(), final(self)),
            r matches Ok(Some(t)) ==> t.value != Token::EOF,
            r matches Ok(Some(t)) ==> final(self).index() == final(self).chars().len()
                || !extends_token(t.value, final(self).chars()[final(self).index()]),
            r matches Ok(None) ==> starts_skip(old(self).chars(), old(self).index())
                && final(self).index() == skip_end(old(self).chars(), old(self).index()),
            r matches Ok(None) ==> skips_at(old(self).chars(), old(self).index()),
            r matches Ok(Some(_)) ==> !skips_at(old(self).chars(), old(self).index()),
            r matches Ok(Some(_)) ==> token_ends(old(self).chars(), old(self).index(), final(self).index()),
            r is Ok <==> reads_at(old(self).chars(), old(self).index()),
            r matches Ok(Some(_)) ==> final(self).session.codemap == old(self).session.codemap,
            r matches Ok(None) ==> final(self).session.codemap@ == old(self).session.codemap@
                + line_start_at(old(self).chars(), old(self).byte_offsets(), old(self).index()),
    {
        let c = self.source[self.idx];
        let lo = self.offsets[self.idx];
        let ghost start = self.index();

        let token: Token = if c == '+' {
            self.emit(Token::BinOp(BinOp::Add))
        } else if c == '-' {
            self.emit_either('>', Token::RArrow, Token::BinOp(BinOp::Sub))
        } else if c == '*' {
            self.emit_either('*', Token::BinOp(BinOp::Pow), Token::BinOp(BinOp::Mul))
        } else if c == '/' {
            self.bump();
            if self.curr() == Some('/') {
                self.skip_comment();
                proof {
                    lemma_newline_at(self.chars(), start + 1, self.index());
                }
                return Ok(None);
            }
            assert(self.chars().subrange(start, self.index()) =~= seq![c]);
            Token::BinOp(BinOp::Div)
        } else if c == '%' {
            self.emit(Token::BinOp(BinOp::Mod))
        } else if c == '&' {
            self.emit_either('&', Token::BinOp(BinOp::And), Token::BinOp(BinOp::BitAnd))
        } else if c == '|' {
            self.emit_either('|', Token::BinOp(BinOp::Or), Token::BinOp(BinOp::BitOr))
        } else if c == '^' {
            self.emit(Token::BinOp(BinOp::BitXor))
        } else if c == '<' {
            self.bump();
            if self.curr() == Some('<') {
                self.bump();
                assert(self.chars().subrange(start, self.index()) =~= seq!['<', '<']);
                Token::BinOp(BinOp::Shl)
            } else if self.curr() == Some('=') {
                self.bump();
                assert(self.chars().subrange(start, self.index()) =~= seq!['<', '=']);
                Token::BinOp(BinOp::Le)
            } else {
                assert(self.chars().subrange(start, self.index()) =~= seq!['<']);
                Token::BinOp(BinOp::Lt)
            }
        } else if c == '>' {
            self.bump();
            if self.curr() == Some('>') {
                self.bump();
                assert(self.chars().subrange(start, self.index()) =~= seq!['>', '>']);
                Token::BinOp(BinOp::Shr)
            } else if self.curr() == Some('=') {
                self.bump();
                assert(self.chars().subrange(start, self.index()) =~= seq!['>', '=']);
                Token::BinOp(BinOp::Ge)
            } else {
                assert(self.chars().subrange(start, self.index()) =~= seq!['>']);
                Token::BinOp(BinOp::Gt)
            }
        } else if c == '=' {
            self.emit_either('=', Token::BinOp(BinOp::EqEq), Token::Eq)
        } else if c == '!' {
            self.emit_either('=', Token::BinOp(BinOp::Ne), Token::UnOp(UnOp::Not))
        } else if c == '(' {
            self.emit(Token::LParen)
        } else if c == ')' {
            self.emit(Token::RParen)
        } else if c == '{' {
            self.emit(Token::LBrace)
        } else if c == '}' {
            self.emit(Token::RBrace)
        } else if c == ',' {
            self.emit(Token::Comma)
        } else if c == ':' {
            self.emit(Token::Colon)
        } else if c == ';' {
            self.emit(Token::Semicolon)
        } else if c == '\'' {
            self.tokenize_char()?
        } else if char_is_alphabetic(c) {
            self.tokenize_ident()
        } else if char_is_numeric(c) {
            self.tokenize_integer()?
        } else if char_is_whitespace(c) {
            // Skip whitespaces of any type
            if c == '\n' {
                proof {
                    self.lemma_offsets_mono(0, self.index());
                }
                self.session.codemap.new_line(BytePos(lo));
            }
            self.bump();
            return Ok(None);
        } else {
            let mut msg = String::new();
            push_str(&mut msg, "unknown token: ");
            push_char(&mut msg, c);
            return Err(self.fatal(msg));
        };

        proof {
            self.lemma_offsets_mono(start, self.index());
            let sc = self.chars();
            let e = self.index();
            let text = sc.subrange(start, e);
            assert(token_text(token, text, self.session.interner@));
            assert(text.len() == e - start);
            if operator_char(c) {
                assert(punct_text(token) == Some(text));
                if e == start + 2 {
                    assert(text[1] == sc[start + 1]);
                }
                assert(token_ends(sc, start, e));
            } else if c == '\'' {
                assert(token_ends(sc, start, e));
            } else if is_alphabetic(c) {
                assert forall|k: int| start <= k < e implies is_ident_char(#[trigger] sc[k]) by {
                    assert(is_ident_char(text[k - start]));
                }
                assert(token_ends(sc, start, e));
            } else {
                assert forall|k: int| start <= k < e implies is_numeric(#[trigger] sc[k]) by {
                    assert(is_numeric(text[k - start]));
                }
                assert(token_ends(sc, start, e));
            }
        }
        let hi = self.offsets[self.idx];
        Ok(Some(Spanned::new(token, lo, hi)))
    }
}

/// A character takes at least one byte
proof fn lemma_utf8_total_ge_len(s: Seq<char>)
    ensures
        utf8_total(s) >= s.len(),
    decreases s.len(),
{
    if s.len() > 0 {
        lemma_utf8_total_ge_len(s.drop_last());
    }
}

/// The UTF-8 length of a prefix never exceeds that of the whole sequence
pub(crate) proof fn lemma_utf8_total_prefix(s: Seq<char>, k: int)
    requires
        0 <= k <= s.len(),
    ensures
        utf8_total(s.subrange(0, k)) <= utf8_total(s),
    decreases s.len() - k,
{
    if k < s.len() {
        lemma_utf8_total_prefix(s, k + 1);
        assert(s.subrange(0, k + 1).drop_last() =~= s.subrange(0, k));
    } else {
        assert(s.subrange(0, k) =~= s);
    }
}

} // verus!
