//! The parser of instruction selection rules
//!
//! Grammar:
//!
//! ```text
//! rules    := 'rules' '!' '{' (rule (',' rule)*)? '}'
//! rule     := pattern ('->' '{' <Rust code> '}' | '=>' '{' (asm ';')* '}')
//! pattern  := '[' (ir ';')* ('..' | ir_last) ']' ('if' '{' <Rust code> '}')?
//! ```

use vstd::prelude::*;
use crate::back::instsel::rulecomp::ast::{
    AsmArg, AsmInstr, Impl, IrArg, IrLabel, IrPattern, IrPatternLast, IrRegister, IrRegisterKind,
    Pattern, Rule,
};
use crate::back::instsel::rulecomp::lexer::{
    Lexer, lemma_reads_extend, lemma_snippet_end_unique, lexes_next, reads, resumes, snippet_end, token_read, token_text,
};
use crate::util::chars::utf8_len;
use crate::front::lexer::skippable;
use crate::back::instsel::rulecomp::tokens::{Keyword, Token, keyword_text, push_token, token_display};
use crate::back::machine::MachineRegister;
use crate::back::machine::assembly::OperandSize;
use crate::driver::interner::Ident;
use crate::driver::session::Diagnostic;
use crate::front::ast::{Span, Spanned};
use crate::util::chars::{digits_value, parse_u32, parses_as_u32};
use crate::util::pretty::push_ident;
use crate::util::text::push_str;

verus! {

/// Whether character `a` is `b`, or its ASCII upper case form
pub open spec fn char_lower_eq(a: char, b: char) -> bool {
    a == b || ('A' <= a <= 'Z' && a as u32 + 32 == b as u32)
}

/// Whether `name` spells register `reg`, in any ASCII case
pub open spec fn names_register(name: Seq<char>, reg: MachineRegister) -> bool {
    let text = crate::back::machine::machine_register_text(reg);
    &&& name.len() == text.len()
    &&& forall|i: int| 0 <= i < name.len() ==> char_lower_eq(#[trigger] name[i], text[i])
}

/// The operand size a keyword names
pub open spec fn size_keyword(t: Token) -> Option<OperandSize> {
    match t {
        Token::Keyword(Keyword::Byte) => Some(OperandSize::Byte),
        Token::Keyword(Keyword::Word) => Some(OperandSize::Word),
        Token::Keyword(Keyword::DWord) => Some(OperandSize::DWord),
        Token::Keyword(Keyword::QWord) => Some(OperandSize::QWord),
        _ => None,
    }
}

/// The tokens a register-like argument of a memory operand starts with
pub open spec fn starts_register_arg(t: Token) -> bool {
    t == Token::Dollar || t == Token::Percent || t is Ident
}

/// Compare a name with a lower-case register name, ignoring ASCII case
fn eq_ignore_case(name: &[char], target: &str) -> (r: bool)
    ensures
        r == (name@.len() == target@.len()
            && forall|i: int| 0 <= i < name@.len() ==> char_lower_eq(#[trigger] name@[i], target@[i])),
{
    let t = crate::util::text::str_chars(target);
    if name.len() != t.len() {
        return false;
    }
    let mut i: usize = 0;
    while i < name.len()
        invariant
            t@ == target@,
            name@.len() == t@.len(),
            i <= name@.len(),
            forall|j: int| 0 <= j < i ==> char_lower_eq(#[trigger] name@[j], target@[j]),
        decreases name@.len() - i,
    {
        let a = name[i];
        let b = t[i];
        if !(a == b || ('A' <= a && a <= 'Z' && a as u32 + 32 == b as u32)) {
            return false;
        }
        i = i + 1;
    }
    true
}

// --- The tokens a parsed item was read from -----------------------------------

/// The tokens of a register: `%(name)` or `{name}`
pub open spec fn register_tokens(r: IrRegister) -> Seq<Token> {
    match r.1 {
        IrRegisterKind::Local => seq![Token::Percent, Token::LParen, Token::Ident(r.0), Token::RParen],
        IrRegisterKind::Stack => seq![Token::LBrace, Token::Ident(r.0), Token::RBrace],
    }
}

/// The tokens of an argument of an IR instruction
pub open spec fn arg_tokens(a: IrArg) -> Seq<Token> {
    match a {
        IrArg::Register(r) => register_tokens(r),
        IrArg::Literal(id) => seq![Token::Zero, Token::LParen, Token::Ident(id), Token::RParen],
        IrArg::Static(id) => seq![Token::At, Token::LParen, Token::Ident(id), Token::RParen],
    }
}

/// The tokens of two arguments, separated by a comma
pub open spec fn two_args_tokens(a: IrArg, b: IrArg) -> Seq<Token> {
    arg_tokens(a) + seq![Token::Comma] + arg_tokens(b)
}

/// The tokens of `dst = op a, b`, where `op` is a sequence of keywords
pub open spec fn assign_tokens(dst: IrRegister, op: Seq<Token>, rest: Seq<Token>) -> Seq<Token> {
    register_tokens(dst) + seq![Token::Equal] + op + rest
}

/// The tokens of an IR instruction of a pattern
pub open spec fn ir_pattern_tokens(p: IrPattern) -> Seq<Token> {
    let kw = |k: Keyword| seq![Token::Keyword(k)];
    let cmp = |k: Keyword| seq![Token::Keyword(Keyword::Cmp), Token::Keyword(k)];
    match p {
        IrPattern::Add(d, a, b) => assign_tokens(d.value, kw(Keyword::Add), two_args_tokens(a.value, b.value)),
        IrPattern::Sub(d, a, b) => assign_tokens(d.value, kw(Keyword::Sub), two_args_tokens(a.value, b.value)),
        IrPattern::Mul(d, a, b) => assign_tokens(d.value, kw(Keyword::Mul), two_args_tokens(a.value, b.value)),
        IrPattern::Div(d, a, b) => assign_tokens(d.value, kw(Keyword::Div), two_args_tokens(a.value, b.value)),
        IrPattern::Pow(d, a, b) => assign_tokens(d.value, kw(Keyword::Pow), two_args_tokens(a.value, b.value)),
        IrPattern::Mod(d, a, b) => assign_tokens(d.value, kw(Keyword::Mod), two_args_tokens(a.value, b.value)),
        IrPattern::Shl(d, a, b) => assign_tokens(d.value, kw(Keyword::Shl), two_args_tokens(a.value, b.value)),
        IrPattern::Shr(d, a, b) => assign_tokens(d.value, kw(Keyword::Shr), two_args_tokens(a.value, b.value)),
        IrPattern::And(d, a, b) => assign_tokens(d.value, kw(Keyword::And), two_args_tokens(a.value, b.value)),
        IrPattern::Or(d, a, b) => assign_tokens(d.value, kw(Keyword::Or), two_args_tokens(a.value, b.value)),
        IrPattern::Xor(d, a, b) => assign_tokens(d.value, kw(Keyword::Xor), two_args_tokens(a.value, b.value)),
        IrPattern::Neg(d, a) => assign_tokens(d.value, kw(Keyword::Neg), arg_tokens(a.value)),
        IrPattern::Not(d, a) => assign_tokens(d.value, kw(Keyword::Not), arg_tokens(a.value)),
        IrPattern::CmpLt(d, a, b) => assign_tokens(d.value, cmp(Keyword::Lt), two_args_tokens(a.value, b.value)),
        IrPattern::CmpLe(d, a, b) => assign_tokens(d.value, cmp(Keyword::Le), two_args_tokens(a.value, b.value)),
        IrPattern::CmpEq(d, a, b) => assign_tokens(d.value, cmp(Keyword::Eq), two_args_tokens(a.value, b.value)),
        IrPattern::CmpNe(d, a, b) => assign_tokens(d.value, cmp(Keyword::Ne), two_args_tokens(a.value, b.value)),
        IrPattern::CmpGe(d, a, b) => assign_tokens(d.value, cmp(Keyword::Ge), two_args_tokens(a.value, b.value)),
        IrPattern::CmpGt(d, a, b) => assign_tokens(d.value, cmp(Keyword::Gt), two_args_tokens(a.value, b.value)),
        IrPattern::Alloca(d) => assign_tokens(d.value, kw(Keyword::Alloca), Seq::empty()),
        IrPattern::Load(d, a) => assign_tokens(d.value, kw(Keyword::Load), arg_tokens(a.value)),
        IrPattern::Store(a, b) => kw(Keyword::Store) + two_args_tokens(a.value, b.value),
        IrPattern::Call(d, f, args) => assign_tokens(d.value, kw(Keyword::Call), seq![
            Token::Ident(f.value), Token::LBracket, Token::Ident(args.value), Token::DoubleDot, Token::RBracket,
        ]),
    }
}

/// The tokens of the control flow instruction a pattern ends with
pub open spec fn ir_pattern_last_tokens(l: IrPatternLast) -> Seq<Token> {
    match l {
        IrPatternLast::Ret(None) => seq![Token::Keyword(Keyword::Ret), Token::Keyword(Keyword::Void)],
        IrPatternLast::Ret(Some(a)) => seq![Token::Keyword(Keyword::Ret)] + arg_tokens(a.value),
        IrPatternLast::Br(c, t, f) => seq![Token::Keyword(Keyword::Br)] + arg_tokens(c.value)
            + seq![Token::Comma, Token::Ident(t.value.0), Token::Comma, Token::Ident(f.value.0)],
        IrPatternLast::Jmp(l) => seq![Token::Keyword(Keyword::Jmp), Token::Ident(l.value.0)],
    }
}

/// The tokens of the IR instructions of a pattern, each followed by `;`
pub open spec fn ir_list_tokens(ps: Seq<Spanned<IrPattern>>) -> Seq<Token>
    decreases ps.len(),
{
    if ps.len() == 0 {
        Seq::empty()
    } else {
        ir_list_tokens(ps.drop_last()) + ir_pattern_tokens(ps.last().value) + seq![Token::Semicolon]
    }
}

/// The tokens of a pattern from its `[` to its `]`
pub open spec fn pattern_body_tokens(p: Pattern) -> Seq<Token> {
    seq![Token::LBracket] + ir_list_tokens(p.ir_patterns@) + match p.last {
        None => seq![Token::DoubleDot],
        Some(l) => ir_pattern_last_tokens(l.value),
    } + seq![Token::RBracket]
}

/// The keyword of an operand size
pub open spec fn size_token(s: OperandSize) -> Token {
    match s {
        OperandSize::Byte => Token::Keyword(Keyword::Byte),
        OperandSize::Word => Token::Keyword(Keyword::Word),
        OperandSize::DWord => Token::Keyword(Keyword::DWord),
        OperandSize::QWord => Token::Keyword(Keyword::QWord),
    }
}

/// A numeric literal token whose text is the number `v`
pub open spec fn number_token(t: Token, v: u32, names: Seq<Seq<char>>) -> bool {
    t matches Token::Literal(x) && x.0 < names.len() && parses_as_u32(names[x.0 as int])
        && v == digits_value(names[x.0 as int])
}

/// The tokens of an argument of a memory operand that names a register:
/// `$name`, `%(name)` or a machine register's name
pub open spec fn register_arg_tokens(t: Seq<Token>, a: AsmArg, names: Seq<Seq<char>>) -> bool {
    match a {
        AsmArg::IrArg(id) => t == seq![Token::Dollar, Token::Ident(id.value)],
        AsmArg::NewRegister(id) => t == seq![Token::Percent, Token::LParen, Token::Ident(id.value), Token::RParen],
        AsmArg::Register(reg) => t.len() == 1 && (t[0] matches Token::Ident(x) && x.0 < names.len()
            && names_register(names[x.0 as int], reg)),
        _ => false,
    }
}

/// The number of tokens of an argument of a memory operand
pub open spec fn register_arg_len(a: AsmArg) -> int {
    match a {
        AsmArg::IrArg(_) => 2,
        AsmArg::NewRegister(_) => 4,
        _ => 1,
    }
}

/// The tokens of an argument of a memory operand, where a machine register
/// is named by the token `first`
pub open spec fn register_arg_seq(a: AsmArg, first: Token) -> Seq<Token> {
    match a {
        AsmArg::IrArg(id) => seq![Token::Dollar, Token::Ident(id.value)],
        AsmArg::NewRegister(id) => seq![Token::Percent, Token::LParen, Token::Ident(id.value), Token::RParen],
        _ => seq![first],
    }
}

/// The tokens of a displacement: none, or `- number`
pub open spec fn disp_tokens(t: Seq<Token>, disp: Option<i32>, names: Seq<Seq<char>>) -> bool {
    match disp {
        None => t.len() == 0,
        Some(d) => t.len() == 2 && t[0] == Token::Minus
            && exists|v: u32| #[trigger] number_token(t[1], v, names) && v <= 0x7fff_ffff && d == -v,
    }
}

/// The tokens of the registers of a memory operand, up to its displacement:
/// `base`, `index * scale` or `base + index * scale`, where the first two may
/// be followed by a `+`
pub open spec fn parts_tokens(t: Seq<Token>, base: Option<Box<AsmArg>>, index: Option<(Box<AsmArg>, u32)>,
    names: Seq<Seq<char>>) -> bool {
    match (base, index) {
        (Some(b), None) => {
            let k = register_arg_len(*b);
            k <= t.len() && register_arg_tokens(t.subrange(0, k), *b, names)
                && (t.len() == k || (t.len() == k + 1 && t[k] == Token::Plus))
        },
        (None, Some((i, sc))) => {
            let k = register_arg_len(*i);
            k + 2 <= t.len() && register_arg_tokens(t.subrange(0, k), *i, names)
                && t[k] == Token::Asterisk && number_token(t[k + 1], sc, names)
                && (t.len() == k + 2 || (t.len() == k + 3 && t[k + 2] == Token::Plus))
        },
        (Some(b), Some((i, sc))) => {
            let k = register_arg_len(*b);
            let j = k + 1 + register_arg_len(*i);
            t.len() == j + 2 && register_arg_tokens(t.subrange(0, k), *b, names)
                && t[k] == Token::Plus && register_arg_tokens(t.subrange(k + 1, j), *i, names)
                && t[j] == Token::Asterisk && number_token(t[j + 1], sc, names)
        },
        (None, None) => false,
    }
}

/// The tokens of a memory operand: `[base + index * scale - disp]`, where
/// one of base and index stands, and a positive displacement is refused
pub open spec fn memory_tokens(t: Seq<Token>, base: Option<Box<AsmArg>>, index: Option<(Box<AsmArg>, u32)>,
    disp: Option<i32>, names: Seq<Seq<char>>) -> bool {
    t.len() >= 2 && t[0] == Token::LBracket && t.last() == Token::RBracket
        && exists|k: int| 1 <= k <= t.len() - 1 && parts_tokens(#[trigger] t.subrange(1, k), base, index, names)
            && disp_tokens(t.subrange(k, t.len() - 1), disp, names)
}

/// The tokens of an argument of an assembly instruction
pub open spec fn asm_arg_tokens(t: Seq<Token>, a: AsmArg, names: Seq<Seq<char>>) -> bool {
    match a {
        AsmArg::StackSlot(id) => t == seq![Token::LBrace, Token::Ident(id.value), Token::RBrace],
        AsmArg::Label(id) => t == seq![Token::Dot, Token::Ident(id.value)],
        AsmArg::Literal(l) => t == seq![Token::Literal(l.value)],
        AsmArg::Indirect { size, base, index, disp } => match size {
            None => memory_tokens(t, base, index, disp, names),
            Some(s) => t.len() >= 2 && t[0] == size_token(s) && t[1] == Token::Keyword(Keyword::Ptr)
                && memory_tokens(t.subrange(2, t.len() as int), base, index, disp, names),
        },
        _ => register_arg_tokens(t, a, names),
    }
}

/// The token a mnemonic is read from: an identifier, or a keyword whose
/// text names it
pub open spec fn mnemonic_token(t: Token, m: Ident, names: Seq<Seq<char>>) -> bool {
    t == Token::Ident(m) || (t matches Token::Keyword(kw) && m.0 < names.len() && names[m.0 as int] == keyword_text(kw))
}

/// Arguments of an assembly instruction, each followed by a comma
pub open spec fn asm_args_with_commas(t: Seq<Token>, args: Seq<Spanned<AsmArg>>, names: Seq<Seq<char>>) -> bool
    decreases args.len(),
{
    if args.len() == 0 {
        t.len() == 0
    } else {
        t.len() >= 1 && t.last() == Token::Comma && exists|k: int| 0 <= k < t.len()
            && asm_args_with_commas(#[trigger] t.subrange(0, k), args.drop_last(), names)
            && asm_arg_tokens(t.subrange(k, t.len() - 1), args.last().value, names)
    }
}

/// Arguments of an assembly instruction: separated by commas, with an
/// optional comma after the last one
pub open spec fn asm_args_tokens(t: Seq<Token>, args: Seq<Spanned<AsmArg>>, names: Seq<Seq<char>>) -> bool {
    ||| asm_args_with_commas(t, args, names)
    ||| (args.len() > 0 && exists|k: int| 0 <= k <= t.len()
            && asm_args_with_commas(#[trigger] t.subrange(0, k), args.drop_last(), names)
            && asm_arg_tokens(t.subrange(k, t.len() as int), args.last().value, names))
}

/// An assembly instruction: its mnemonic, then its arguments
pub open spec fn asm_instr_tokens(t: Seq<Token>, i: AsmInstr, names: Seq<Seq<char>>) -> bool {
    t.len() >= 1 && mnemonic_token(t[0], i.mnemonic.value, names)
        && asm_args_tokens(t.subrange(1, t.len() as int), i.args@, names)
}

/// Assembly instructions, each followed by `;`
pub open spec fn asm_instrs_tokens(t: Seq<Token>, is: Seq<Spanned<AsmInstr>>, names: Seq<Seq<char>>) -> bool
    decreases is.len(),
{
    if is.len() == 0 {
        t.len() == 0
    } else {
        t.len() >= 1 && t.last() == Token::Semicolon && exists|k: int| 0 <= k < t.len()
            && asm_instrs_tokens(#[trigger] t.subrange(0, k), is.drop_last(), names)
            && asm_instr_tokens(t.subrange(k, t.len() - 1), is.last().value, names)
    }
}

/// The tokens of a rule's implementation after its arrow: assembly
/// instructions in braces, or the single token that Rust code follows (the
/// code itself is read as text, up to `}`)
pub open spec fn impl_tokens(t: Seq<Token>, i: Impl, names: Seq<Seq<char>>) -> bool {
    match i {
        Impl::Rust(_) => t.len() == 1,
        Impl::Asm(instrs) => t.len() >= 2 && t[0] == Token::LBrace && t.last() == Token::RBrace
            && asm_instrs_tokens(t.subrange(1, t.len() - 1), instrs.value@, names),
    }
}

/// The tokens of a pattern: its body, then `if` and the token that a Rust
/// condition follows
pub open spec fn pattern_tokens(t: Seq<Token>, p: Pattern) -> bool {
    let body = pattern_body_tokens(p);
    &&& t.len() >= body.len()
    &&& t.subrange(0, body.len() as int) == body
    &&& p.cond is None ==> t.len() == body.len()
    &&& p.cond is Some ==> t.len() == body.len() + 2 && t[body.len() as int] == Token::Keyword(Keyword::If)
}

/// A rule: its pattern, `->` or `=>`, and its implementation
#[verifier::opaque]
pub open spec fn rule_tokens(t: Seq<Token>, r: Rule, names: Seq<Seq<char>>) -> bool {
    exists|k: int| 0 <= k < t.len() && pattern_tokens(#[trigger] t.subrange(0, k), r.pattern.value)
        && t[k] == (if r.implementation is Rust { Token::Arrow } else { Token::FatArrow })
        && impl_tokens(t.subrange(k + 1, t.len() as int), r.implementation, names)
}

/// Rules, each followed by a comma
pub open spec fn rules_with_commas(t: Seq<Token>, rules: Seq<Spanned<Rule>>, names: Seq<Seq<char>>) -> bool
    decreases rules.len(),
{
    if rules.len() == 0 {
        t.len() == 0
    } else {
        t.len() >= 1 && t.last() == Token::Comma && exists|k: int| 0 <= k < t.len()
            && rules_with_commas(#[trigger] t.subrange(0, k), rules.drop_last(), names)
            && rule_tokens(t.subrange(k, t.len() - 1), rules.last().value, names)
    }
}

/// A rules file: `rules! {`, the rules separated by commas (with an
/// optional comma after the last one), and `}`
pub open spec fn rules_tokens(t: Seq<Token>, rules: Seq<Spanned<Rule>>, names: Seq<Seq<char>>) -> bool {
    t.len() >= 4 && t[0] == Token::Keyword(Keyword::Rules) && t[1] == Token::Bang && t[2] == Token::LBrace
        && t.last() == Token::RBrace && rules_list_tokens(t.subrange(3, t.len() - 1), rules, names)
}

/// Rules separated by commas, with an optional comma after the last one
pub open spec fn rules_list_tokens(t: Seq<Token>, rules: Seq<Spanned<Rule>>, names: Seq<Seq<char>>) -> bool {
    ||| rules_with_commas(t, rules, names)
    ||| (rules.len() > 0 && exists|k: int| 0 <= k <= t.len()
            && rules_with_commas(#[trigger] t.subrange(0, k), rules.drop_last(), names)
            && rule_tokens(t.subrange(k, t.len() as int), rules.last().value, names))
}

/// A code snippet can be skipped from `i` and a token read after it: the
/// snippet has a character between its first one and its `}`, both of
/// these take one byte, and the next token can be read after the `}`
pub open spec fn snippet_reads(s: Seq<char>, i: int) -> bool {
    exists|k: int| #[trigger] snippet_end(s, i, k) && ({
        let q = if k < s.len() { k + 1 } else { k };
        &&& i + 2 <= q
        &&& utf8_len(s[i]) == 1
        &&& utf8_len(s[q - 1]) == 1
        &&& lexes_next(s, q)
    })
}

pub struct Parser {
    /// The current token
    pub token: Token,
    /// Where the current token stands
    pub span: Span,
    pub lexer: Lexer,
    /// The tokens consumed so far, in order
    pub consumed: Ghost<Seq<Token>>,
    /// For each token read (those consumed, then the current one), whether a
    /// code snippet was skipped before it
    pub gaps: Ghost<Seq<bool>>,
    /// Where the parser started to read
    pub origin: Ghost<int>,
}

impl Parser {
    pub open spec fn wf(&self) -> bool {
        &&& self.lexer.wf()
        &&& (self.token == Token::EOF ==> self.lexer.index() == self.lexer.chars().len())
        &&& (self.token matches Token::Ident(id) ==> id.0 < self.names().len())
        &&& (self.token matches Token::Literal(id) ==> id.0 < self.names().len())
    }

    /// A measure that every consumed token decreases
    pub open spec fn progress(&self) -> nat {
        (2 * (self.lexer.chars().len() - self.lexer.index()) + if self.token == Token::EOF { 0int } else { 1int }) as nat
    }

    /// The parser went on from `old`, reading the same source
    pub open spec fn advances(&self, old: &Parser) -> bool {
        &&& self.wf()
        &&& self.lexer.follows(&old.lexer)
        &&& self.progress() <= old.progress()
        &&& self.origin@ == old.origin@
    }

    /// The names the interner knows
    pub open spec fn names(&self) -> Seq<Seq<char>> {
        self.lexer.names()
    }

    /// The tokens read so far (those consumed, then the current one) are read
    /// from the source, from where the parser started up to where the lexer is
    pub open spec fn reads_source(&self) -> bool {
        reads(self.lexer.chars(), self.names(), self.origin@, self.consumed@.push(self.token), self.gaps@,
            self.lexer.index())
    }

    // --- The public API -------------------------------------------------------

    /// Create a new parser instance, reading the first token
    pub fn new(lx: Lexer) -> (r: Result<Parser, Diagnostic>)
        requires
            lx.wf(),
        ensures
            r matches Ok(p) ==> p.wf() && p.lexer.follows(&lx) && p.consumed@ == Seq::<Token>::empty(),
            r matches Ok(p) ==> p.origin@ == lx.index() && p.reads_source(),
            r is Ok <==> lexes_next(lx.chars(), lx.index()),
    {
        let mut lx = lx;
        let ghost start = lx.index();
        let first_token = lx.next_token()?;
        let p = Parser {
            token: first_token.value,
            span: first_token.span,
            lexer: lx,
            consumed: Ghost(Seq::empty()),
            gaps: Ghost(Seq::<bool>::empty().push(false)),
            origin: Ghost(start),
        };
        proof {
            let toks = p.consumed@.push(p.token);
            assert(toks.drop_last() =~= Seq::<Token>::empty());
            assert(p.gaps@.drop_last() =~= Seq::<bool>::empty());
            assert(resumes(p.lexer.chars(), start, false, start));
            if p.token != Token::EOF {
                let b = choose|b: int| start <= b < p.lexer.index() && skippable(p.lexer.chars(), start, b)
                    && #[trigger] p.lexer.token_at(first_token, b, p.lexer.index());
                assert(token_text(p.token, p.lexer.chars().subrange(b, p.lexer.index()), p.names()));
            }
            assert(token_read(p.lexer.chars(), p.names(), start, p.token, p.lexer.index()));
            assert(p.gaps@.last() == false);
            assert(reads(p.lexer.chars(), p.names(), start, toks.drop_last(), p.gaps@.drop_last(), start));
            assert(resumes(p.lexer.chars(), start, p.gaps@.last(), start));
            assert(p.gaps@.len() == toks.len());
            assert(toks.last() == p.token);
        }
        Ok(p)
    }

    /// Process all tokens and create the rules
    pub fn parse(&mut self) -> (r: Result<Vec<Spanned<Rule>>, Diagnostic>)
        requires
            old(self).wf(),
        ensures
            final(self).advances(old(self)),
            old(self).reads_source() && r is Ok ==> final(self).reads_source(),
            old(self).token != Token::Keyword(Keyword::Rules) ==> r is Err,
            r matches Ok(rules) ==> exists|t: Seq<Token>| final(self).consumed@ == #[trigger] (old(self).consumed@ + t)
                && rules_tokens(t, rules@, final(self).names()),
    {
        // Grammar: kw_rules BANG LBRACE rule+ RBRACE
        let mut rules: Vec<Spanned<Rule>> = Vec::new();

        self.expect(Token::Keyword(Keyword::Rules))?;
        self.expect(Token::Bang)?;
        self.expect(Token::LBrace)?;
        let ghost start = self.consumed@;
        let ghost mut tr: Seq<Token> = Seq::empty();
        assert(start =~= start + tr);

        while self.token != Token::RBrace
            invariant_except_break
                rules_with_commas(tr, rules@, self.names()),
            invariant
                self.advances(old(self)),
                old(self).reads_source() ==> self.reads_source(),
                self.consumed@ == start + tr,
            ensures
                rules_list_tokens(tr, rules@, self.names()),
            decreases self.progress(),
        {
            let ghost before = self.consumed@;
            let ghost names_before = self.names();
            let ghost old_rules = rules@;
            let rule = self.parse_rule()?;
            let ghost trule = choose|t: Seq<Token>| self.consumed@ == before + t && rule_tokens(t, rule.value, self.names());
            let ghost names_rule = self.names();
            rules.push(rule);
            proof {
                lemma_rules_with_commas_extend(tr, old_rules, names_before, names_rule);
                assert(rules@.drop_last() == old_rules);
            }

            if !self.eat(Token::Comma)? {
                proof {
                    let t = tr + trule;
                    assert(t.subrange(0, tr.len() as int) =~= tr);
                    assert(t.subrange(tr.len() as int, t.len() as int) =~= trule);
                    assert(self.consumed@ =~= start + t);
                    tr = t;
                }
                break;
            }
            proof {
                lemma_rules_with_commas_extend(tr, old_rules, names_rule, self.names());
                lemma_rule_tokens_extend(trule, rules@.last().value, names_rule, self.names());
                let t = tr + trule + seq![Token::Comma];
                assert(t.subrange(0, tr.len() as int) =~= tr);
                assert(t.subrange(tr.len() as int, t.len() - 1) =~= trule);
                assert(self.consumed@ =~= start + t);
                tr = t;
            }
        }

        let ghost names_close = self.names();
        self.expect(Token::RBrace)?;
        proof {
            lemma_rules_list_tokens_extend(tr, rules@, names_close, self.names());
            let t = seq![Token::Keyword(Keyword::Rules), Token::Bang, Token::LBrace] + tr + seq![Token::RBrace];
            assert(self.consumed@ =~= old(self).consumed@ + t);
            assert(t.subrange(3, t.len() - 1) =~= tr);
            assert(rules_tokens(t, rules@, self.names()));
        }

        Ok(rules)
    }

    // --- Error handling -------------------------------------------------------

    /// An error at the current token
    fn fatal(&self, msg: String) -> (r: Diagnostic)
        ensures
            r.msg@ == msg@,
            r.pos == Some(self.span.pos),
    {
        Diagnostic::at(msg, self.span.pos)
    }

    /// An error about an unexpected token
    fn unexpected_token(&self, expected: Option<&str>) -> (r: Diagnostic)
        ensures
            r.pos == Some(self.span.pos),
            r.msg@ == "unexpected token: `"@ + token_display(self.token, self.names()) + (match expected {
                Some(ex) => "`, expected "@ + ex@,
                None => "`"@,
            }),
    {
        let mut msg = String::new();
        push_str(&mut msg, "unexpected token: `");
        push_token(&mut msg, &self.token, &self.lexer.cursor.session.interner);
        match expected {
            Some(ex) => {
                push_str(&mut msg, "`, expected ");
                push_str(&mut msg, ex);
            },
            None => push_str(&mut msg, "`"),
        }
        self.fatal(msg)
    }

    // --- Token processing -----------------------------------------------------

    /// Move along to the next token
    fn bump(&mut self) -> (r: Result<(), Diagnostic>)
        requires
            old(self).wf(),
        ensures
            final(self).advances(old(self)),
            old(self).reads_source() && r is Ok ==> final(self).reads_source(),
            r is Ok && old(self).token != Token::EOF ==> final(self).progress() < old(self).progress(),
            r is Ok ==> final(self).consumed@ == old(self).consumed@.push(old(self).token),
            r is Ok <==> lexes_next(old(self).lexer.chars(), old(self).lexer.index()),
    {
        let ghost before = *self;
        let next_token = self.lexer.next_token()?;
        proof {
            self.consumed@ = self.consumed@.push(self.token);
            self.gaps@ = self.gaps@.push(false);
        }
        self.token = next_token.value;
        self.span = next_token.span;
        proof {
            if before.reads_source() {
                let q = before.lexer.index();
                if self.token != Token::EOF {
                    let b = choose|b: int| q <= b < self.lexer.index() && skippable(self.lexer.chars(), q, b)
                        && #[trigger] self.lexer.token_at(next_token, b, self.lexer.index());
                    assert(token_text(self.token, self.lexer.chars().subrange(b, self.lexer.index()), self.names()));
                }
                assert(token_read(self.lexer.chars(), self.names(), q, self.token, self.lexer.index()));
                assert(self.gaps@.drop_last() =~= before.gaps@);
                lemma_read_next(before, *self, q);
            }
        }
        Ok(())
    }

    /// Skip the code snippet after the current token (up to and including
    /// the next `}`), then move along to the token after it
    fn read_snippet(&mut self) -> (r: Result<Ident, Diagnostic>)
        requires
            old(self).wf(),
        ensures
            final(self).advances(old(self)),
            old(self).reads_source() && r is Ok ==> final(self).reads_source(),
            r is Ok ==> final(self).consumed@ == old(self).consumed@.push(old(self).token),
            r is Ok <==> snippet_reads(old(self).lexer.chars(), old(self).lexer.index()),
    {
        let ghost before = *self;
        let ghost chars = self.lexer.chars();
        let ghost i = self.lexer.index();
        let snippet = self.lexer.tokenize_snippet();
        let ghost q = self.lexer.index();
        proof {
            let k = choose|k: int| snippet_end(chars, i, k) && q == (if k < chars.len() { k + 1 } else { k });
            assert forall|k2: int| #[trigger] snippet_end(chars, i, k2) implies k2 == k by {
                lemma_snippet_end_unique(chars, i, k, k2);
            }
        }
        let snippet = snippet?;
        let ghost names_mid = self.names();
        let next_token = self.lexer.next_token();
        proof {
            let k = choose|k: int| snippet_end(chars, i, k) && q == (if k < chars.len() { k + 1 } else { k });
            if next_token is Ok {
                assert(snippet_reads(chars, i));
            }
        }
        let next_token = next_token?;
        proof {
            self.consumed@ = self.consumed@.push(self.token);
            self.gaps@ = self.gaps@.push(true);
        }
        self.token = next_token.value;
        self.span = next_token.span;
        proof {
            if before.reads_source() {
                if self.token != Token::EOF {
                    let b = choose|b: int| q <= b < self.lexer.index() && skippable(self.lexer.chars(), q, b)
                        && #[trigger] self.lexer.token_at(next_token, b, self.lexer.index());
                    assert(token_text(self.token, self.lexer.chars().subrange(b, self.lexer.index()), self.names()));
                }
                assert(token_read(self.lexer.chars(), self.names(), q, self.token, self.lexer.index()));
                assert(self.gaps@.drop_last() =~= before.gaps@);
                assert(resumes(self.lexer.chars(), before.lexer.index(), self.gaps@.last(), q));
                assert(crate::driver::session::interner_extends(before.names(), self.names()));
                lemma_read_next(before, *self, q);
            }
        }
        Ok(snippet)
    }

    /// Try consuming a token, return `true` on success
    fn eat(&mut self, tok: Token) -> (r: Result<bool, Diagnostic>)
        requires
            old(self).wf(),
        ensures
            final(self).advances(old(self)),
            old(self).reads_source() && r is Ok ==> final(self).reads_source(),
            old(self).token != tok ==> (r matches Ok(b) && !b),
            old(self).token != tok ==> *final(self) == *old(self),
            r matches Ok(b) ==> (b <==> old(self).token == tok),
            (r matches Ok(b) && b) && tok != Token::EOF ==> final(self).progress() < old(self).progress(),
            (r matches Ok(b) && b) ==> final(self).consumed@ == old(self).consumed@.push(tok),
            r is Ok <==> (old(self).token != tok || lexes_next(old(self).lexer.chars(), old(self).lexer.index())),
    {
        if self.token == tok {
            self.bump()?;
            Ok(true)
        } else {
            Ok(false)
        }
    }

    /// Consume a token, or fail
    fn expect(&mut self, tok: Token) -> (r: Result<(), Diagnostic>)
        requires
            old(self).wf(),
        ensures
            final(self).advances(old(self)),
            old(self).reads_source() && r is Ok ==> final(self).reads_source(),
            r is Ok ==> old(self).token == tok,
            r is Ok && tok != Token::EOF ==> final(self).progress() < old(self).progress(),
            r is Ok ==> final(self).consumed@ == old(self).consumed@.push(tok),
            old(self).token != tok ==> (r matches Err(e) && e.pos == Some(old(self).span.pos)
                && e.msg@ == "expected `"@ + token_display(tok, old(self).names()) + "`, found `"@
                    + token_display(old(self).token, old(self).names()) + "`"@),
            r is Ok <==> (old(self).token == tok && lexes_next(old(self).lexer.chars(), old(self).lexer.index())),
    {
        if !self.eat(tok)? {
            let mut msg = String::new();
            push_str(&mut msg, "expected `");
            push_token(&mut msg, &tok, &self.lexer.cursor.session.interner);
            push_str(&mut msg, "`, found `");
            push_token(&mut msg, &self.token, &self.lexer.cursor.session.interner);
            push_str(&mut msg, "`");
            return Err(self.fatal(msg));
        }
        Ok(())
    }

    // --- Parse tokens ---------------------------------------------------------

    /// Parse an identifier
    fn parse_ident(&mut self) -> (r: Result<Spanned<Ident>, Diagnostic>)
        requires
            old(self).wf(),
        ensures
            final(self).advances(old(self)),
            old(self).reads_source() && r is Ok ==> final(self).reads_source(),
            !(old(self).token is Ident) ==> r is Err,
            r matches Ok(id) ==> old(self).token == Token::Ident(id.value) && id.span == old(self).span,
            r matches Ok(id) ==> final(self).consumed@ == old(self).consumed@.push(Token::Ident(id.value)),
            r is Ok ==> final(self).progress() < old(self).progress(),
            r is Ok <==> (old(self).token is Ident && lexes_next(old(self).lexer.chars(), old(self).lexer.index())),
    {
        let span = self.span;
        let ident = match self.token {
            Token::Ident(id) => id,
            _ => return Err(self.unexpected_token(Some("an identifier"))),
        };
        self.bump()?;

        Ok(Spanned { value: ident, span })
    }

    // --- Parse ir patterns ----------------------------------------------------

    /// Whether the current token starts the control flow instruction of a pattern
    fn on_last_pattern(&self) -> (r: bool)
        ensures
            r == (self.token == Token::Keyword(Keyword::Ret) || self.token == Token::Keyword(Keyword::Br)
                || self.token == Token::Keyword(Keyword::Jmp)),
    {
        match self.token {
            Token::Keyword(Keyword::Ret) | Token::Keyword(Keyword::Br) | Token::Keyword(Keyword::Jmp) => true,
            _ => false,
        }
    }

    /// Parse the two arguments of a binary operation
    fn parse_two_args(&mut self) -> (r: Result<(Spanned<IrArg>, Spanned<IrArg>), Diagnostic>)
        requires
            old(self).wf(),
        ensures
            final(self).advances(old(self)),
            old(self).reads_source() && r is Ok ==> final(self).reads_source(),
            r is Ok ==> final(self).progress() < old(self).progress(),
            r matches Ok((a, b)) ==> final(self).consumed@ == old(self).consumed@.push(old(self).token)
                + two_args_tokens(a.value, b.value),
    {
        self.bump()?;
        let arg1 = self.parse_ir_arg()?;
        self.expect(Token::Comma)?;
        let arg2 = self.parse_ir_arg()?;
        assert(self.consumed@ =~= old(self).consumed@.push(old(self).token) + two_args_tokens(arg1.value, arg2.value));
        Ok((arg1, arg2))
    }

    /// Parse an IR instruction of a pattern
    pub fn parse_ir_pattern(&mut self) -> (r: Result<Spanned<IrPattern>, Diagnostic>)
        requires
            old(self).wf(),
        ensures
            final(self).advances(old(self)),
            old(self).reads_source() && r is Ok ==> final(self).reads_source(),
            old(self).token != Token::Keyword(Keyword::Store) && old(self).token != Token::Percent
                && old(self).token != Token::LBrace ==> r is Err,
            r matches Ok(p) ==> (p.value is Store <==> old(self).token == Token::Keyword(Keyword::Store)),
            r matches Ok(p) ==> final(self).consumed@ == old(self).consumed@ + ir_pattern_tokens(p.value),
            r is Ok ==> final(self).progress() < old(self).progress(),
    {
        let lo = self.span;

        let pattern = if self.eat(Token::Keyword(Keyword::Store))? {
            // store ..., %(...)
            let src = self.parse_ir_arg()?;
            self.expect(Token::Comma)?;
            let dst = self.parse_ir_arg()?;
            let p = IrPattern::Store(src, dst);
            assert(self.consumed@ =~= old(self).consumed@ + ir_pattern_tokens(p));
            p
        } else {
            // %(`dest`) = ...
            let dst = self.parse_ir_register()?;
            self.expect(Token::Equal)?;
            assert(self.consumed@ =~= old(self).consumed@ + register_tokens(dst.value) + seq![Token::Equal]);
            self.parse_ir_operation(dst, Ghost(old(self).consumed@))?
        };

        Ok(Spanned { value: pattern, span: lo.join(self.span) })
    }

    /// Parse what follows `dst =` in an IR instruction of a pattern
    #[verifier::rlimit(60)]
    fn parse_ir_operation(&mut self, dst: Spanned<IrRegister>, Ghost(start): Ghost<Seq<Token>>)
        -> (r: Result<IrPattern, Diagnostic>)
        requires
            old(self).wf(),
            old(self).consumed@ == start + register_tokens(dst.value) + seq![Token::Equal],
        ensures
            final(self).advances(old(self)),
            old(self).reads_source() && r is Ok ==> final(self).reads_source(),
            r matches Ok(p) ==> !(p is Store) && final(self).consumed@ == start + ir_pattern_tokens(p),
            r is Ok ==> final(self).progress() < old(self).progress(),
    {
        let pattern = match self.token {
            Token::Keyword(Keyword::Add) => {
                let (a, b) = self.parse_two_args()?;
                let p = IrPattern::Add(dst, a, b);
                assert(self.consumed@ =~= start + ir_pattern_tokens(p));
                p
            },
            Token::Keyword(Keyword::Sub) => {
                let (a, b) = self.parse_two_args()?;
                let p = IrPattern::Sub(dst, a, b);
                assert(self.consumed@ =~= start + ir_pattern_tokens(p));
                p
            },
            Token::Keyword(Keyword::Mul) => {
                let (a, b) = self.parse_two_args()?;
                let p = IrPattern::Mul(dst, a, b);
                assert(self.consumed@ =~= start + ir_pattern_tokens(p));
                p
            },
            Token::Keyword(Keyword::Div) => {
                let (a, b) = self.parse_two_args()?;
                let p = IrPattern::Div(dst, a, b);
                assert(self.consumed@ =~= start + ir_pattern_tokens(p));
                p
            },
            Token::Keyword(Keyword::Pow) => {
                let (a, b) = self.parse_two_args()?;
                let p = IrPattern::Pow(dst, a, b);
                assert(self.consumed@ =~= start + ir_pattern_tokens(p));
                p
            },
            Token::Keyword(Keyword::Mod) => {
                let (a, b) = self.parse_two_args()?;
                let p = IrPattern::Mod(dst, a, b);
                assert(self.consumed@ =~= start + ir_pattern_tokens(p));
                p
            },
            Token::Keyword(Keyword::Shl) => {
                let (a, b) = self.parse_two_args()?;
                let p = IrPattern::Shl(dst, a, b);
                assert(self.consumed@ =~= start + ir_pattern_tokens(p));
                p
            },
            Token::Keyword(Keyword::Shr) => {
                let (a, b) = self.parse_two_args()?;
                let p = IrPattern::Shr(dst, a, b);
                assert(self.consumed@ =~= start + ir_pattern_tokens(p));
                p
            },
            Token::Keyword(Keyword::And) => {
                let (a, b) = self.parse_two_args()?;
                let p = IrPattern::And(dst, a, b);
                assert(self.consumed@ =~= start + ir_pattern_tokens(p));
                p
            },
            Token::Keyword(Keyword::Or) => {
                let (a, b) = self.parse_two_args()?;
                let p = IrPattern::Or(dst, a, b);
                assert(self.consumed@ =~= start + ir_pattern_tokens(p));
                p
            },
            Token::Keyword(Keyword::Xor) => {
                let (a, b) = self.parse_two_args()?;
                let p = IrPattern::Xor(dst, a, b);
                assert(self.consumed@ =~= start + ir_pattern_tokens(p));
                p
            },
            Token::Keyword(Keyword::Neg) => {
                self.bump()?;
                let p = IrPattern::Neg(dst, self.parse_ir_arg()?);
                assert(self.consumed@ =~= start + ir_pattern_tokens(p));
                p
            },
            Token::Keyword(Keyword::Not) => {
                self.bump()?;
                let p = IrPattern::Not(dst, self.parse_ir_arg()?);
                assert(self.consumed@ =~= start + ir_pattern_tokens(p));
                p
            },
            Token::Keyword(Keyword::Cmp) => {
                self.bump()?;

                match self.token {
                    Token::Keyword(Keyword::Lt) => {
                        let (a, b) = self.parse_two_args()?;
                        let p = IrPattern::CmpLt(dst, a, b);
                        assert(self.consumed@ =~= start + ir_pattern_tokens(p));
                        p
                    },
                    Token::Keyword(Keyword::Le) => {
                        let (a, b) = self.parse_two_args()?;
                        let p = IrPattern::CmpLe(dst, a, b);
                        assert(self.consumed@ =~= start + ir_pattern_tokens(p));
                        p
                    },
                    Token::Keyword(Keyword::Eq) => {
                        let (a, b) = self.parse_two_args()?;
                        let p = IrPattern::CmpEq(dst, a, b);
                        assert(self.consumed@ =~= start + ir_pattern_tokens(p));
                        p
                    },
                    Token::Keyword(Keyword::Ne) => {
                        let (a, b) = self.parse_two_args()?;
                        let p = IrPattern::CmpNe(dst, a, b);
                        assert(self.consumed@ =~= start + ir_pattern_tokens(p));
                        p
                    },
                    Token::Keyword(Keyword::Ge) => {
                        let (a, b) = self.parse_two_args()?;
                        let p = IrPattern::CmpGe(dst, a, b);
                        assert(self.consumed@ =~= start + ir_pattern_tokens(p));
                        p
                    },
                    Token::Keyword(Keyword::Gt) => {
                        let (a, b) = self.parse_two_args()?;
                        let p = IrPattern::CmpGt(dst, a, b);
                        assert(self.consumed@ =~= start + ir_pattern_tokens(p));
                        p
                    },
                    _ => {
                        let mut msg = String::new();
                        push_str(&mut msg, "Invalid comparison: ");
                        push_token(&mut msg, &self.token, &self.lexer.cursor.session.interner);
                        return Err(self.fatal(msg));
                    },
                }
            },
            Token::Keyword(Keyword::Alloca) => {
                self.bump()?;
                let p = IrPattern::Alloca(dst);
                assert(self.consumed@ =~= start + ir_pattern_tokens(p));
                p
            },
            Token::Keyword(Keyword::Load) => {
                self.bump()?;
                let val = self.parse_ir_arg()?;
                let p = IrPattern::Load(dst, val);
                assert(self.consumed@ =~= start + ir_pattern_tokens(p));
                p
            },
            Token::Keyword(Keyword::Call) => {
                self.bump()?;

                let func = self.parse_ident()?;

                self.expect(Token::LBracket)?;

                let args = self.parse_ident()?;

                self.expect(Token::DoubleDot)?;
                self.expect(Token::RBracket)?;

                let p = IrPattern::Call(dst, func, args);

                assert(self.consumed@ =~= start + ir_pattern_tokens(p));

                p
            },
            _ => return Err(self.unexpected_token(Some("an ir keyword"))),
        };
        Ok(pattern)
    }

    /// Parse the control flow instruction a pattern ends with
    pub fn parse_ir_pattern_last(&mut self) -> (r: Result<Spanned<IrPatternLast>, Diagnostic>)
        requires
            old(self).wf(),
        ensures
            final(self).advances(old(self)),
            old(self).reads_source() && r is Ok ==> final(self).reads_source(),
            old(self).token != Token::Keyword(Keyword::Ret) && old(self).token != Token::Keyword(Keyword::Br)
                && old(self).token != Token::Keyword(Keyword::Jmp) ==> r is Err,
            r matches Ok(l) ==> (l.value is Ret <==> old(self).token == Token::Keyword(Keyword::Ret)),
            r matches Ok(l) ==> (l.value is Br <==> old(self).token == Token::Keyword(Keyword::Br)),
            r matches Ok(l) ==> (l.value is Jmp <==> old(self).token == Token::Keyword(Keyword::Jmp)),
            r matches Ok(l) ==> final(self).consumed@ == old(self).consumed@ + ir_pattern_last_tokens(l.value),
            r is Ok ==> final(self).progress() < old(self).progress(),
    {
        let lo = self.span;

        let last = match self.token {
            Token::Keyword(Keyword::Ret) => {
                self.bump()?;

                let val = if self.eat(Token::Keyword(Keyword::Void))? {
                    None
                } else {
                    Some(self.parse_ir_arg()?)
                };

                IrPatternLast::Ret(val)
            },
            Token::Keyword(Keyword::Br) => {
                self.bump()?;
                let cond = self.parse_ir_arg()?;
                self.expect(Token::Comma)?;
                let conseq = self.parse_ir_label()?;
                self.expect(Token::Comma)?;
                let altern = self.parse_ir_label()?;

                IrPatternLast::Br(cond, conseq, altern)
            },
            Token::Keyword(Keyword::Jmp) => {
                self.bump()?;
                IrPatternLast::Jmp(self.parse_ir_label()?)
            },
            _ => return Err(self.unexpected_token(None)),
        };
        assert(self.consumed@ =~= old(self).consumed@ + ir_pattern_last_tokens(last));

        Ok(Spanned { value: last, span: lo.join(self.span) })
    }

    /// Parse a register: `%(name)` (a local one) or `{name}` (a stack slot)
    pub fn parse_ir_register(&mut self) -> (r: Result<Spanned<IrRegister>, Diagnostic>)
        requires
            old(self).wf(),
        ensures
            final(self).advances(old(self)),
            old(self).reads_source() && r is Ok ==> final(self).reads_source(),
            old(self).token != Token::Percent && old(self).token != Token::LBrace ==> r is Err,
            r matches Ok(reg) ==> (old(self).token == Token::Percent && reg.value.1 == IrRegisterKind::Local)
                || (old(self).token == Token::LBrace && reg.value.1 == IrRegisterKind::Stack),
            r matches Ok(reg) ==> final(self).consumed@ == old(self).consumed@ + register_tokens(reg.value),
            r is Ok ==> final(self).progress() < old(self).progress(),
    {
        let lo = self.span;

        let (ident, kind) = match self.token {
            Token::Percent => {
                self.bump()?;
                self.expect(Token::LParen)?;
                let ident = self.parse_ident()?;
                self.expect(Token::RParen)?;
                (ident, IrRegisterKind::Local)
            },
            Token::LBrace => {
                self.bump()?;
                let ident = self.parse_ident()?;
                self.expect(Token::RBrace)?;
                (ident, IrRegisterKind::Stack)
            },
            _ => {
                let mut msg = String::new();
                push_str(&mut msg, "Unexpected token: ");
                push_token(&mut msg, &self.token, &self.lexer.cursor.session.interner);
                push_str(&mut msg, ", expected PERCENT or LBrace");
                return Err(self.fatal(msg));
            },
        };

        assert(self.consumed@ =~= old(self).consumed@ + register_tokens(IrRegister(ident.value, kind)));
        Ok(Spanned { value: IrRegister(ident.value, kind), span: lo.join(self.span) })
    }

    /// Parse a label
    pub fn parse_ir_label(&mut self) -> (r: Result<Spanned<IrLabel>, Diagnostic>)
        requires
            old(self).wf(),
        ensures
            final(self).advances(old(self)),
            old(self).reads_source() && r is Ok ==> final(self).reads_source(),
            !(old(self).token is Ident) ==> r is Err,
            r matches Ok(l) ==> old(self).token == Token::Ident(l.value.0),
            r matches Ok(l) ==> final(self).consumed@ == old(self).consumed@.push(Token::Ident(l.value.0)),
            r is Ok ==> final(self).progress() < old(self).progress(),
            r is Ok <==> (old(self).token is Ident && lexes_next(old(self).lexer.chars(), old(self).lexer.index())),
    {
        let lo = self.span;

        let ident = self.parse_ident()?;

        Ok(Spanned { value: IrLabel(ident.value), span: lo.join(self.span) })
    }

    /// Parse an argument: a register, `0(name)` (an immediate value) or
    /// `@(name)` (a static)
    pub fn parse_ir_arg(&mut self) -> (r: Result<Spanned<IrArg>, Diagnostic>)
        requires
            old(self).wf(),
        ensures
            final(self).advances(old(self)),
            old(self).reads_source() && r is Ok ==> final(self).reads_source(),
            old(self).token != Token::Percent && old(self).token != Token::LBrace && old(self).token != Token::Zero
                && old(self).token != Token::At ==> r is Err,
            r matches Ok(a) ==> (match a.value {
                IrArg::Register(reg) => (old(self).token == Token::Percent && reg.1 == IrRegisterKind::Local)
                    || (old(self).token == Token::LBrace && reg.1 == IrRegisterKind::Stack),
                IrArg::Literal(_) => old(self).token == Token::Zero,
                IrArg::Static(_) => old(self).token == Token::At,
            }),
            r matches Ok(a) ==> final(self).consumed@ == old(self).consumed@ + arg_tokens(a.value),
            r is Ok ==> final(self).progress() < old(self).progress(),
    {
        let lo = self.span;

        let arg = match self.token {
            Token::Percent | Token::LBrace => IrArg::Register(self.parse_ir_register()?.value),
            Token::Zero => {
                self.bump()?;
                self.expect(Token::LParen)?;
                let ident = self.parse_ident()?;
                self.expect(Token::RParen)?;

                IrArg::Literal(ident.value)
            },
            Token::At => {
                self.bump()?;
                self.expect(Token::LParen)?;
                let ident = self.parse_ident()?;
                self.expect(Token::RParen)?;

                IrArg::Static(ident.value)
            },
            _ => return Err(self.unexpected_token(Some("one of '%' | '0'"))),
        };
        assert(self.consumed@ =~= old(self).consumed@ + arg_tokens(arg));

        Ok(Spanned { value: arg, span: lo.join(self.span) })
    }
}

impl Parser {
    // --- Parse asm instructions -----------------------------------------------

    /// Parse an assembly instruction: a mnemonic and its arguments
    pub fn parse_asm_instruction(&mut self) -> (r: Result<Spanned<AsmInstr>, Diagnostic>)
        requires
            old(self).wf(),
        ensures
            final(self).advances(old(self)),
            old(self).reads_source() && r is Ok ==> final(self).reads_source(),
            !(old(self).token is Ident) && !(old(self).token is Keyword) ==> r is Err,
            r matches Ok(i) ==> old(self).token is Ident ==> old(self).token == Token::Ident(i.value.mnemonic.value),
            r matches Ok(i) ==> (old(self).token matches Token::Keyword(kw) ==> i.value.mnemonic.value.0 < final(self).names().len()
                && final(self).names()[i.value.mnemonic.value.0 as int] == keyword_text(kw)),
            r matches Ok(i) ==> exists|t: Seq<Token>| final(self).consumed@ == #[trigger] (old(self).consumed@ + t)
                && asm_instr_tokens(t, i.value, final(self).names()),
            r is Ok ==> final(self).progress() < old(self).progress(),
    {
        // Grammar: mnemonic asm_arg (, asm_arg)* SEMICOLON
        let lo = self.span;

        let mut args: Vec<Spanned<AsmArg>> = Vec::new();

        let mnemonic = match self.token {
            Token::Ident(..) => self.parse_ident()?,
            Token::Keyword(kw) => {
                // Some mnemonics have the same name as some IR keywords,
                // thus we need to extract them
                self.bump()?;
                let ghost before = self.names();
                let id = self.lexer.cursor.session.interner.intern_str(kw.name());
                proof {
                    assert forall|i: int| 0 <= i < before.len() implies #[trigger] self.names()[i] == before[i] by {
                        if !before.contains(keyword_text(kw)) {
                            assert(self.names() == before.push(keyword_text(kw)));
                        }
                    }
                }
                proof {
                    if old(self).reads_source() {
                        lemma_reads_extend(self.lexer.chars(), before, self.names(), self.origin@,
                            self.consumed@.push(self.token), self.gaps@, self.lexer.index());
                    }
                }
                Spanned { value: id, span: lo.join(self.span) }
            },
            _ => return Err(self.unexpected_token(Some("a mnemonic"))),
        };
        let ghost after_mnemonic = self.names();
        let ghost mid = self.consumed@;
        let ghost mut targs: Seq<Token> = Seq::empty();
        assert(mid =~= mid + targs);

        while self.token != Token::Semicolon
            invariant_except_break
                asm_args_with_commas(targs, args@, self.names()),
            invariant
                self.advances(old(self)),
                old(self).reads_source() ==> self.reads_source(),
                self.progress() < old(self).progress(),
                crate::driver::session::interner_extends(after_mnemonic, self.names()),
                self.consumed@ == mid + targs,
            ensures
                asm_args_tokens(targs, args@, self.names()),
            decreases self.progress(),
        {
            let ghost before = self.consumed@;
            let ghost names_before = self.names();
            let ghost old_args = args@;
            let a = self.parse_asm_arg()?;
            let ghost ta = choose|t: Seq<Token>| self.consumed@ == before + t && asm_arg_tokens(t, a.value, self.names());
            let ghost names_arg = self.names();
            args.push(a);
            proof {
                lemma_asm_args_with_commas_extend(targs, old_args, names_before, names_arg);
                assert(args@.drop_last() == old_args);
            }

            if !self.eat(Token::Comma)? {
                proof {
                    let t = targs + ta;
                    assert(t.subrange(0, targs.len() as int) =~= targs);
                    assert(t.subrange(targs.len() as int, t.len() as int) =~= ta);
                    assert(self.consumed@ =~= mid + t);
                    targs = t;
                }
                break;
            }
            proof {
                lemma_asm_args_with_commas_extend(targs, old_args, names_arg, self.names());
                lemma_asm_arg_tokens_extend(ta, a.value, names_arg, self.names());
                let t = targs + ta + seq![Token::Comma];
                assert(t.subrange(0, targs.len() as int) =~= targs);
                assert(t.subrange(targs.len() as int, t.len() - 1) =~= ta);
                assert(self.consumed@ =~= mid + t);
                targs = t;
            }
        }

        let instr = AsmInstr { mnemonic, args };
        proof {
            let t = seq![old(self).token] + targs;
            assert(self.consumed@ =~= old(self).consumed@ + t);
            assert(t.subrange(1, t.len() as int) =~= targs);
            assert(asm_instr_tokens(t, instr, self.names()));
        }
        let res = Spanned { value: instr, span: lo.join(self.span) };
        assert(asm_instr_tokens(seq![old(self).token] + targs, res.value, self.names()));
        assert(self.consumed@ == old(self).consumed@ + (seq![old(self).token] + targs));
        Ok(res)
    }

    /// Parse an argument of a memory operand that names a register
    fn parse_asm_register_arg(&mut self) -> (r: Result<AsmArg, Diagnostic>)
        requires
            old(self).wf(),
            starts_register_arg(old(self).token),
        ensures
            final(self).advances(old(self)),
            old(self).reads_source() && r is Ok ==> final(self).reads_source(),
            r matches Ok(a) ==> (match a {
                AsmArg::IrArg(_) => old(self).token == Token::Dollar,
                AsmArg::NewRegister(_) => old(self).token == Token::Percent,
                AsmArg::Register(_) => old(self).token is Ident,
                _ => false,
            }),
            r matches Ok(a) ==> final(self).consumed@ == old(self).consumed@ + register_arg_seq(a, old(self).token)
                && register_arg_tokens(register_arg_seq(a, old(self).token), a, final(self).names()),
            r is Ok ==> final(self).progress() < old(self).progress(),
            old(self).token matches Token::Ident(id) ==> (r is Ok <==>
                ((exists|reg: MachineRegister| names_register(old(self).names()[id.0 as int], reg))
                && lexes_next(old(self).lexer.chars(), old(self).lexer.index()))),
    {
        let a = match self.token {
            Token::Dollar => {
                self.bump()?;
                AsmArg::IrArg(self.parse_ident()?)
            },
            Token::Percent => {
                self.bump()?;
                self.expect(Token::LParen)?;
                let ident = self.parse_ident()?;
                self.expect(Token::RParen)?;

                AsmArg::NewRegister(ident)
            },
            _ => AsmArg::Register(self.parse_asm_register()?),
        };
        assert(self.consumed@ =~= old(self).consumed@ + register_arg_seq(a, old(self).token));
        Ok(a)
    }

    /// Parse an argument of an assembly instruction
    pub fn parse_asm_arg(&mut self) -> (r: Result<Spanned<AsmArg>, Diagnostic>)
        requires
            old(self).wf(),
        ensures
            final(self).advances(old(self)),
            old(self).reads_source() && r is Ok ==> final(self).reads_source(),
            r matches Ok(a) ==> (match a.value {
                AsmArg::IrArg(_) => old(self).token == Token::Dollar,
                AsmArg::StackSlot(_) => old(self).token == Token::LBrace,
                AsmArg::NewRegister(_) => old(self).token == Token::Percent,
                AsmArg::Label(_) => old(self).token == Token::Dot,
                AsmArg::Literal(l) => old(self).token == Token::Literal(l.value),
                AsmArg::Indirect { size, .. } => (old(self).token == Token::LBracket && size is None)
                    || (size_keyword(old(self).token) is Some && size == size_keyword(old(self).token)),
                AsmArg::Register(_) => old(self).token is Ident,
            }),
            r matches Ok(a) ==> exists|t: Seq<Token>| final(self).consumed@ == old(self).consumed@ + t
                && #[trigger] asm_arg_tokens(t, a.value, final(self).names()),
            r is Ok ==> final(self).progress() < old(self).progress(),
            old(self).token is Literal ==> (r is Ok <==> lexes_next(old(self).lexer.chars(), old(self).lexer.index())),
            old(self).token matches Token::Ident(id) ==> (r is Ok <==>
                ((exists|reg: MachineRegister| names_register(old(self).names()[id.0 as int], reg))
                && lexes_next(old(self).lexer.chars(), old(self).lexer.index()))),
    {
        let lo = self.span;

        let arg = match self.token {
            Token::Dollar | Token::Percent => {
                let t0 = self.token;
                let a = self.parse_asm_register_arg()?;
                assert(asm_arg_tokens(register_arg_seq(a, t0), a, self.names()));
                a
            },
            Token::LBrace => {
                self.bump()?;
                let ident = self.parse_ident()?;
                self.expect(Token::RBrace)?;
                let a = AsmArg::StackSlot(ident);
                assert(self.consumed@ =~= old(self).consumed@ + seq![Token::LBrace, Token::Ident(ident.value), Token::RBrace]);
                assert(asm_arg_tokens(seq![Token::LBrace, Token::Ident(ident.value), Token::RBrace], a, self.names()));
                a
            },
            Token::Dot => {
                self.bump()?;
                let ident = self.parse_ident()?;
                let a = AsmArg::Label(ident);
                assert(self.consumed@ =~= old(self).consumed@ + seq![Token::Dot, Token::Ident(ident.value)]);
                assert(asm_arg_tokens(seq![Token::Dot, Token::Ident(ident.value)], a, self.names()));
                a
            },
            Token::Literal(literal) => {
                self.bump()?;
                let a = AsmArg::Literal(Spanned { value: literal, span: lo.join(self.span) });
                assert(self.consumed@ =~= old(self).consumed@ + seq![Token::Literal(literal)]);
                assert(asm_arg_tokens(seq![Token::Literal(literal)], a, self.names()));
                a
            },
            Token::LBracket => {
                let a = self.parse_asm_memory_operand(None)?;
                proof {
                    let t = choose|t: Seq<Token>| self.consumed@ == old(self).consumed@ + t
                        && memory_tokens(t, a->Indirect_base, a->Indirect_index, a->Indirect_disp, self.names());
                    assert(asm_arg_tokens(t, a, self.names()));
                }
                a
            },
            Token::Keyword(Keyword::Byte) => self.parse_sized_memory_operand(OperandSize::Byte)?,
            Token::Keyword(Keyword::Word) => self.parse_sized_memory_operand(OperandSize::Word)?,
            Token::Keyword(Keyword::DWord) => self.parse_sized_memory_operand(OperandSize::DWord)?,
            Token::Keyword(Keyword::QWord) => self.parse_sized_memory_operand(OperandSize::QWord)?,
            _ => {
                let t0 = self.token;
                let a = AsmArg::Register(self.parse_asm_register()?);
                assert(self.consumed@ =~= old(self).consumed@ + seq![t0]);
                assert(asm_arg_tokens(seq![t0], a, self.names()));
                a
            },
        };

        Ok(Spanned { value: arg, span: lo.join(self.span) })
    }

    /// Parse a memory operand after its size: `size ptr [...]`
    fn parse_sized_memory_operand(&mut self, size: OperandSize) -> (r: Result<AsmArg, Diagnostic>)
        requires
            old(self).wf(),
            old(self).token == size_token(size),
        ensures
            final(self).advances(old(self)),
            old(self).reads_source() && r is Ok ==> final(self).reads_source(),
            r matches Ok(a) ==> (a matches AsmArg::Indirect { size: s, .. } && s == Some(size)),
            r matches Ok(a) ==> exists|t: Seq<Token>| final(self).consumed@ == old(self).consumed@ + t
                && #[trigger] asm_arg_tokens(t, a, final(self).names()),
            r is Ok ==> final(self).progress() < old(self).progress(),
    {
        self.bump()?;
        self.expect(Token::Keyword(Keyword::Ptr))?;
        let ghost mid = self.consumed@;
        let a = self.parse_asm_memory_operand(Some(size))?;
        proof {
            let base = a->Indirect_base;
            let index = a->Indirect_index;
            let disp = a->Indirect_disp;
            let m = choose|t: Seq<Token>| self.consumed@ == mid + t && memory_tokens(t, base, index, disp, self.names());
            let t = seq![size_token(size), Token::Keyword(Keyword::Ptr)] + m;
            assert(self.consumed@ =~= old(self).consumed@ + t);
            assert(t.subrange(2, t.len() as int) =~= m);
            assert(asm_arg_tokens(t, a, self.names()));
        }
        Ok(a)
    }

    /// Parse the name of a machine register (in any ASCII case)
    pub fn parse_asm_register(&mut self) -> (r: Result<MachineRegister, Diagnostic>)
        requires
            old(self).wf(),
        ensures
            final(self).advances(old(self)),
            old(self).reads_source() && r is Ok ==> final(self).reads_source(),
            !(old(self).token is Ident) ==> r is Err,
            r matches Ok(reg) ==> (old(self).token matches Token::Ident(id)
                && id.0 < old(self).names().len() && names_register(old(self).names()[id.0 as int], reg)),
            r is Ok ==> final(self).consumed@ == old(self).consumed@.push(old(self).token),
            (old(self).token matches Token::Ident(id) && id.0 < old(self).names().len()
                && (forall|reg: MachineRegister| !names_register(old(self).names()[id.0 as int], reg))) ==> r is Err,
            r is Ok ==> final(self).progress() < old(self).progress(),
            r is Ok <==> (old(self).token matches Token::Ident(id)
                && (exists|reg: MachineRegister| names_register(old(self).names()[id.0 as int], reg))
                && lexes_next(old(self).lexer.chars(), old(self).lexer.index())),
    {
        let ident = self.parse_ident()?;
        if ident.value.0 >= self.lexer.cursor.session.interner.len() {
            let mut msg = String::new();
            push_str(&mut msg, "Invalid register");
            return Err(self.fatal(msg));
        }
        let name = self.lexer.cursor.session.interner.resolve(ident.value);
        let reg = if eq_ignore_case(name, "rax") {
            MachineRegister::RAX
        } else if eq_ignore_case(name, "rbx") {
            MachineRegister::RBX
        } else if eq_ignore_case(name, "rcx") {
            MachineRegister::RCX
        } else if eq_ignore_case(name, "rdx") {
            MachineRegister::RDX
        } else if eq_ignore_case(name, "rsi") {
            MachineRegister::RSI
        } else if eq_ignore_case(name, "rdi") {
            MachineRegister::RDI
        } else if eq_ignore_case(name, "r8") {
            MachineRegister::R8
        } else if eq_ignore_case(name, "r9") {
            MachineRegister::R9
        } else if eq_ignore_case(name, "r10") {
            MachineRegister::R10
        } else if eq_ignore_case(name, "r11") {
            MachineRegister::R11
        } else if eq_ignore_case(name, "r12") {
            MachineRegister::R12
        } else if eq_ignore_case(name, "r13") {
            MachineRegister::R13
        } else if eq_ignore_case(name, "r14") {
            MachineRegister::R14
        } else if eq_ignore_case(name, "r15") {
            MachineRegister::R15
        } else if eq_ignore_case(name, "rsp") {
            MachineRegister::RSP
        } else if eq_ignore_case(name, "rbp") {
            MachineRegister::RBP
        } else if eq_ignore_case(name, "cl") {
            MachineRegister::CL
        } else {
            let mut msg = String::new();
            push_str(&mut msg, "Invalid register: ");
            push_ident(&mut msg, ident.value, &self.lexer.cursor.session.interner);
            return Err(self.fatal(msg));
        };
        assert(names_register(old(self).names()[ident.value.0 as int], reg));
        Ok(reg)
    }

    /// Parse a numeric literal as the scale of an index
    fn parse_scale(&mut self) -> (r: Result<u32, Diagnostic>)
        requires
            old(self).wf(),
        ensures
            final(self).advances(old(self)),
            old(self).reads_source() && r is Ok ==> final(self).reads_source(),
            !(old(self).token is Literal) ==> r is Err,
            r matches Ok(v) ==> (old(self).token matches Token::Literal(id) && id.0 < old(self).names().len()
                && parses_as_u32(old(self).names()[id.0 as int]) && v == digits_value(old(self).names()[id.0 as int])),
            r is Ok ==> final(self).consumed@ == old(self).consumed@.push(old(self).token),
            r is Ok ==> final(self).progress() < old(self).progress(),
            r is Ok <==> (old(self).token matches Token::Literal(id)
                && parses_as_u32(old(self).names()[id.0 as int])
                && (old(self).names()[id.0 as int].len() == 0 || old(self).names()[id.0 as int][0] != '+')
                && lexes_next(old(self).lexer.chars(), old(self).lexer.index())),
    {
        let lit = match self.token {
            Token::Literal(lit) => lit,
            _ => return Err(self.unexpected_token(Some("a numeric literal"))),
        };
        let value = self.parse_number(lit)?;
        self.bump()?;
        Ok(value)
    }

    /// The value of a numeric literal
    fn parse_number(&self, lit: Ident) -> (r: Result<u32, Diagnostic>)
        ensures
            r matches Ok(v) ==> lit.0 < self.names().len() && parses_as_u32(self.names()[lit.0 as int])
                && v == digits_value(self.names()[lit.0 as int]),
            r is Ok <==> (lit.0 < self.names().len() && parses_as_u32(self.names()[lit.0 as int])
                && (self.names()[lit.0 as int].len() == 0 || self.names()[lit.0 as int][0] != '+')),
    {
        if lit.0 >= self.lexer.cursor.session.interner.len() {
            let mut msg = String::new();
            push_str(&mut msg, "invalid number");
            return Err(self.fatal(msg));
        }
        let text = self.lexer.cursor.session.interner.resolve(lit);
        if text.len() > 0 && text[0] == '+' {
            let mut msg = String::new();
            push_str(&mut msg, "invalid number");
            return Err(self.fatal(msg));
        }
        match parse_u32(text) {
            Some(v) => Ok(v),
            None => {
                let mut msg = String::new();
                push_str(&mut msg, "invalid number: ");
                push_ident(&mut msg, lit, &self.lexer.cursor.session.interner);
                Err(self.fatal(msg))
            },
        }
    }

    /// Parse a memory operand `[base + index * scale + disp]` (each part optional
    /// but one of base and index)
    pub fn parse_asm_memory_operand(&mut self, size: Option<OperandSize>) -> (r: Result<AsmArg, Diagnostic>)
        requires
            old(self).wf(),
        ensures
            final(self).advances(old(self)),
            old(self).reads_source() && r is Ok ==> final(self).reads_source(),
            old(self).token != Token::LBracket ==> r is Err,
            r matches Ok(a) ==> (a matches AsmArg::Indirect { size: s, .. } && s == size),
            r matches Ok(a) ==> (a matches AsmArg::Indirect { base, index, disp, .. } && exists|t: Seq<Token>|
                final(self).consumed@ == old(self).consumed@ + t && #[trigger] memory_tokens(t, base, index, disp, final(self).names())),
            r is Ok ==> final(self).progress() < old(self).progress(),
    {
        self.expect(Token::LBracket)?;
        let ghost after_open = self.consumed@;
        let (base, index) = self.parse_memory_parts()?;
        let ghost parts = choose|t: Seq<Token>| self.consumed@ == after_open + t && parts_tokens(t, base, index, self.names());
        let ghost after_parts = self.consumed@;
        let ghost parts_names = self.names();
        let disp = self.parse_displacement()?;
        let ghost disp_seq = choose|t: Seq<Token>| self.consumed@ == after_parts + t && disp_tokens(t, disp, self.names());
        let ghost disp_names = self.names();
        self.expect(Token::RBracket)?;

        proof {
            let t = seq![Token::LBracket] + parts + disp_seq + seq![Token::RBracket];
            assert(self.consumed@ =~= old(self).consumed@ + t);
            assert(t.subrange(1, 1 + parts.len() as int) =~= parts);
            assert(t.subrange(1 + parts.len() as int, t.len() - 1) =~= disp_seq);
            lemma_parts_tokens_extend(parts, base, index, parts_names, self.names());
            lemma_disp_tokens_extend(disp_seq, disp, disp_names, self.names());
            assert(memory_tokens(t, base, index, disp, self.names()));
        }
        Ok(AsmArg::Indirect { size, base, index, disp })
    }

    /// Parse the registers of a memory operand, up to its displacement
    fn parse_memory_parts(&mut self) -> (r: Result<(Option<Box<AsmArg>>, Option<(Box<AsmArg>, u32)>), Diagnostic>)
        requires
            old(self).wf(),
        ensures
            final(self).advances(old(self)),
            old(self).reads_source() && r is Ok ==> final(self).reads_source(),
            r matches Ok((b, i)) ==> exists|t: Seq<Token>| final(self).consumed@ == old(self).consumed@ + t
                && #[trigger] parts_tokens(t, b, i, final(self).names()),
            r is Ok ==> final(self).progress() < old(self).progress(),
    {
        let mut base: Option<Box<AsmArg>> = None;
        let mut index: Option<(Box<AsmArg>, u32)> = None;

        // Parse base or index
        if !starts_register_arg_exec(&self.token) {
            return Err(self.unexpected_token(Some("a register")));
        }
        let t0 = self.token;
        let reg = self.parse_asm_register_arg()?;
        let ghost after_reg = self.consumed@;
        let ghost reg_names = self.names();
        if self.token == Token::Asterisk {
            self.expect(Token::Asterisk)?;
            let t1 = self.token;
            let scale = self.parse_scale()?;
            index = Some((Box::new(reg), scale));
            let ghost after_index = self.consumed@;
            // If the previous part was the base, the index would follow
            let plus = self.eat(Token::Plus)?;
            proof {
                let t = register_arg_seq(reg, t0) + seq![Token::Asterisk, t1]
                    + if plus { seq![Token::Plus] } else { Seq::empty() };
                assert(self.consumed@ =~= old(self).consumed@ + t);
                assert(t.subrange(0, register_arg_len(reg)) =~= register_arg_seq(reg, t0));
                assert(parts_tokens(t, base, index, self.names()));
            }
            return Ok((base, index));
        }
        base = Some(Box::new(reg));
        // The base: now try to parse the index
        if self.eat(Token::Plus)? {
            if starts_register_arg_exec(&self.token) {
                let t2 = self.token;
                let reg2 = self.parse_asm_register_arg()?;
                self.expect(Token::Asterisk)?;
                let t3 = self.token;
                let scale = self.parse_scale()?;
                index = Some((Box::new(reg2), scale));
                proof {
                    let k = register_arg_len(reg);
                    let t = register_arg_seq(reg, t0) + seq![Token::Plus] + register_arg_seq(reg2, t2)
                        + seq![Token::Asterisk, t3];
                    assert(self.consumed@ =~= old(self).consumed@ + t);
                    assert(t.subrange(0, k) =~= register_arg_seq(reg, t0));
                    assert(t.subrange(k + 1, k + 1 + register_arg_len(reg2)) =~= register_arg_seq(reg2, t2));
                    assert(parts_tokens(t, base, index, self.names()));
                }
                return Ok((base, index));
            }
            // Otherwise it's probably the displacement
            proof {
                let t = register_arg_seq(reg, t0) + seq![Token::Plus];
                assert(self.consumed@ =~= old(self).consumed@ + t);
                assert(t.subrange(0, register_arg_len(reg)) =~= register_arg_seq(reg, t0));
                assert(parts_tokens(t, base, index, self.names()));
            }
            return Ok((base, index));
        }
        proof {
            let t = register_arg_seq(reg, t0);
            assert(self.consumed@ =~= old(self).consumed@ + t);
            assert(t.subrange(0, register_arg_len(reg)) =~= t);
            assert(parts_tokens(t, base, index, self.names()));
        }
        Ok((base, index))
    }

    /// Parse the displacement of a memory operand: none, or `- number`. A
    /// positive number is read but not consumed, so the `]` expected after
    /// it is not found.
    fn parse_displacement(&mut self) -> (r: Result<Option<i32>, Diagnostic>)
        requires
            old(self).wf(),
        ensures
            final(self).advances(old(self)),
            old(self).reads_source() && r is Ok ==> final(self).reads_source(),
            r matches Ok(d) ==> final(self).token is Literal || exists|t: Seq<Token>|
                final(self).consumed@ == old(self).consumed@ + t && #[trigger] disp_tokens(t, d, final(self).names()),
            r is Ok ==> final(self).progress() <= old(self).progress(),
            old(self).token matches Token::Literal(id) ==> (r is Ok <==> (parses_as_u32(old(self).names()[id.0 as int])
                && (old(self).names()[id.0 as int].len() == 0 || old(self).names()[id.0 as int][0] != '+')
                && digits_value(old(self).names()[id.0 as int]) <= 0x7fff_ffff)),
            old(self).token matches Token::Literal(id) ==> (r is Ok
                ==> r == Ok::<Option<i32>, Diagnostic>(Some(digits_value(old(self).names()[id.0 as int]) as i32))
                && *final(self) == *old(self)),
            !(old(self).token is Literal || old(self).token is Minus)
                ==> r == Ok::<Option<i32>, Diagnostic>(None) && *final(self) == *old(self),
    {
        match self.token {
            Token::Literal(lit) => {
                let v = self.parse_number(lit)?;
                if v > 0x7fff_ffff {
                    let mut msg = String::new();
                    push_str(&mut msg, "invalid number: ");
                    push_ident(&mut msg, lit, &self.lexer.cursor.session.interner);
                    return Err(self.fatal(msg));
                }
                Ok(Some(v as i32))
            },
            Token::Minus => {
                self.bump()?;

                let lit = match self.token {
                    Token::Literal(lit) => lit,
                    _ => return Err(self.unexpected_token(Some("a numeric literal"))),
                };
                let v = self.parse_number(lit)?;
                if v > 0x7fff_ffff {
                    let mut msg = String::new();
                    push_str(&mut msg, "invalid number: ");
                    push_ident(&mut msg, lit, &self.lexer.cursor.session.interner);
                    return Err(self.fatal(msg));
                }
                let d = Some(-(v as i32));

                self.bump()?;
                proof {
                    let t = seq![Token::Minus, Token::Literal(lit)];
                    assert(number_token(Token::Literal(lit), v, self.names()));
                    assert(self.consumed@ =~= old(self).consumed@ + t);
                    assert(disp_tokens(t, d, self.names()));
                }
                Ok(d)
            },
            _ => {
                assert(self.consumed@ =~= old(self).consumed@ + Seq::<Token>::empty());
                assert(disp_tokens(Seq::<Token>::empty(), None, self.names()));
                Ok(None)
            },
        }
    }
}

/// Reading an argument of an assembly instruction stays so as more names
/// are interned
proof fn lemma_asm_arg_tokens_extend(t: Seq<Token>, a: AsmArg, n1: Seq<Seq<char>>, n2: Seq<Seq<char>>)
    requires
        asm_arg_tokens(t, a, n1),
        crate::driver::session::interner_extends(n1, n2),
    ensures
        asm_arg_tokens(t, a, n2),
{
    if let AsmArg::Indirect { size, base, index, disp } = a {
        let m = if size is None { t } else { t.subrange(2, t.len() as int) };
        let k = choose|k: int| 1 <= k <= m.len() - 1 && parts_tokens(#[trigger] m.subrange(1, k), base, index, n1)
            && disp_tokens(m.subrange(k, m.len() - 1), disp, n1);
        lemma_parts_tokens_extend(m.subrange(1, k), base, index, n1, n2);
        lemma_disp_tokens_extend(m.subrange(k, m.len() - 1), disp, n1, n2);
    }
}

/// Reading comma-terminated arguments stays so as more names are interned
proof fn lemma_asm_args_with_commas_extend(t: Seq<Token>, args: Seq<Spanned<AsmArg>>, n1: Seq<Seq<char>>,
    n2: Seq<Seq<char>>)
    requires
        asm_args_with_commas(t, args, n1),
        crate::driver::session::interner_extends(n1, n2),
    ensures
        asm_args_with_commas(t, args, n2),
    decreases args.len(),
{
    if args.len() > 0 {
        let k = choose|k: int| 0 <= k < t.len() && asm_args_with_commas(#[trigger] t.subrange(0, k), args.drop_last(), n1)
            && asm_arg_tokens(t.subrange(k, t.len() - 1), args.last().value, n1);
        lemma_asm_args_with_commas_extend(t.subrange(0, k), args.drop_last(), n1, n2);
        lemma_asm_arg_tokens_extend(t.subrange(k, t.len() - 1), args.last().value, n1, n2);
    }
}

/// The tokens a pattern was read from, as `parse_pattern` states them
proof fn lemma_pattern_read(c0: Seq<Token>, c: Seq<Token>, p: Pattern)
    requires
        p.cond is None ==> c == c0 + pattern_body_tokens(p),
        p.cond is Some ==> exists|x: Token| c == c0 + pattern_body_tokens(p) + seq![Token::Keyword(Keyword::If), x],
    ensures
        c0.len() <= c.len(),
        c == c0 + c.subrange(c0.len() as int, c.len() as int),
        pattern_tokens(c.subrange(c0.len() as int, c.len() as int), p),
{
    let body = pattern_body_tokens(p);
    let tp = c.subrange(c0.len() as int, c.len() as int);
    if p.cond is None {
        assert(tp =~= body);
        assert(tp.subrange(0, body.len() as int) =~= body);
    } else {
        let x = choose|x: Token| c == c0 + body + seq![Token::Keyword(Keyword::If), x];
        assert(tp =~= body + seq![Token::Keyword(Keyword::If), x]);
        assert(tp.subrange(0, body.len() as int) =~= body);
        assert(tp[body.len() as int] == Token::Keyword(Keyword::If));
    }
    assert(c =~= c0 + tp);
}

/// Reading arguments stays so as more names are interned
proof fn lemma_asm_args_tokens_extend(t: Seq<Token>, args: Seq<Spanned<AsmArg>>, n1: Seq<Seq<char>>, n2: Seq<Seq<char>>)
    requires
        asm_args_tokens(t, args, n1),
        crate::driver::session::interner_extends(n1, n2),
    ensures
        asm_args_tokens(t, args, n2),
{
    if asm_args_with_commas(t, args, n1) {
        lemma_asm_args_with_commas_extend(t, args, n1, n2);
    } else {
        let k = choose|k: int| 0 <= k <= t.len() && asm_args_with_commas(#[trigger] t.subrange(0, k), args.drop_last(), n1)
            && asm_arg_tokens(t.subrange(k, t.len() as int), args.last().value, n1);
        lemma_asm_args_with_commas_extend(t.subrange(0, k), args.drop_last(), n1, n2);
        lemma_asm_arg_tokens_extend(t.subrange(k, t.len() as int), args.last().value, n1, n2);
    }
}

/// Reading instructions stays so as more names are interned
proof fn lemma_asm_instrs_tokens_extend(t: Seq<Token>, is: Seq<Spanned<AsmInstr>>, n1: Seq<Seq<char>>, n2: Seq<Seq<char>>)
    requires
        asm_instrs_tokens(t, is, n1),
        crate::driver::session::interner_extends(n1, n2),
    ensures
        asm_instrs_tokens(t, is, n2),
    decreases is.len(),
{
    if is.len() > 0 {
        let k = choose|k: int| 0 <= k < t.len() && asm_instrs_tokens(#[trigger] t.subrange(0, k), is.drop_last(), n1)
            && asm_instr_tokens(t.subrange(k, t.len() - 1), is.last().value, n1);
        lemma_asm_instrs_tokens_extend(t.subrange(0, k), is.drop_last(), n1, n2);
        let u = t.subrange(k, t.len() - 1);
        lemma_asm_args_tokens_extend(u.subrange(1, u.len() as int), is.last().value.args@, n1, n2);
    }
}

/// Reading a rule stays so as more names are interned
proof fn lemma_rule_tokens_extend(t: Seq<Token>, r: Rule, n1: Seq<Seq<char>>, n2: Seq<Seq<char>>)
    requires
        rule_tokens(t, r, n1),
        crate::driver::session::interner_extends(n1, n2),
    ensures
        rule_tokens(t, r, n2),
{
    reveal(rule_tokens);
    let k = choose|k: int| 0 <= k < t.len() && pattern_tokens(#[trigger] t.subrange(0, k), r.pattern.value)
        && t[k] == (if r.implementation is Rust { Token::Arrow } else { Token::FatArrow })
        && impl_tokens(t.subrange(k + 1, t.len() as int), r.implementation, n1);
    let u = t.subrange(k + 1, t.len() as int);
    if let Impl::Asm(instrs) = r.implementation {
        lemma_asm_instrs_tokens_extend(u.subrange(1, u.len() - 1), instrs.value@, n1, n2);
    }
    assert(pattern_tokens(t.subrange(0, k), r.pattern.value));
}

/// Reading comma-terminated rules stays so as more names are interned
proof fn lemma_rules_with_commas_extend(t: Seq<Token>, rules: Seq<Spanned<Rule>>, n1: Seq<Seq<char>>, n2: Seq<Seq<char>>)
    requires
        rules_with_commas(t, rules, n1),
        crate::driver::session::interner_extends(n1, n2),
    ensures
        rules_with_commas(t, rules, n2),
    decreases rules.len(),
{
    if rules.len() > 0 {
        let k = choose|k: int| 0 <= k < t.len() && rules_with_commas(#[trigger] t.subrange(0, k), rules.drop_last(), n1)
            && rule_tokens(t.subrange(k, t.len() - 1), rules.last().value, n1);
        lemma_rules_with_commas_extend(t.subrange(0, k), rules.drop_last(), n1, n2);
        lemma_rule_tokens_extend(t.subrange(k, t.len() - 1), rules.last().value, n1, n2);
    }
}

/// Reading a list of rules stays so as more names are interned
proof fn lemma_rules_list_tokens_extend(t: Seq<Token>, rules: Seq<Spanned<Rule>>, n1: Seq<Seq<char>>, n2: Seq<Seq<char>>)
    requires
        rules_list_tokens(t, rules, n1),
        crate::driver::session::interner_extends(n1, n2),
    ensures
        rules_list_tokens(t, rules, n2),
{
    if rules_with_commas(t, rules, n1) {
        lemma_rules_with_commas_extend(t, rules, n1, n2);
    } else {
        let k = choose|k: int| 0 <= k <= t.len() && rules_with_commas(#[trigger] t.subrange(0, k), rules.drop_last(), n1)
            && rule_tokens(t.subrange(k, t.len() as int), rules.last().value, n1);
        lemma_rules_with_commas_extend(t.subrange(0, k), rules.drop_last(), n1, n2);
        lemma_rule_tokens_extend(t.subrange(k, t.len() as int), rules.last().value, n1, n2);
    }
}

/// Reading a displacement stays so as more names are interned
proof fn lemma_disp_tokens_extend(t: Seq<Token>, disp: Option<i32>, n1: Seq<Seq<char>>, n2: Seq<Seq<char>>)
    requires
        disp_tokens(t, disp, n1),
        crate::driver::session::interner_extends(n1, n2),
    ensures
        disp_tokens(t, disp, n2),
{
    if let Some(d) = disp {
        let v = choose|v: u32| #[trigger] number_token(t[1], v, n1) && v <= 0x7fff_ffff && d == -v;
        assert(number_token(t[1], v, n2));
    }
}

/// Reading the registers of a memory operand stays so as more names are
/// interned
proof fn lemma_parts_tokens_extend(t: Seq<Token>, base: Option<Box<AsmArg>>, index: Option<(Box<AsmArg>, u32)>,
    n1: Seq<Seq<char>>, n2: Seq<Seq<char>>)
    requires
        parts_tokens(t, base, index, n1),
        crate::driver::session::interner_extends(n1, n2),
    ensures
        parts_tokens(t, base, index, n2),
{
}

/// The parser read one more token, from `q` on (after a code snippet where
/// the token's gap flag is set)
proof fn lemma_read_next(before: Parser, after: Parser, q: int)
    requires
        before.reads_source(),
        after.consumed@ == before.consumed@.push(before.token),
        after.gaps@.drop_last() == before.gaps@,
        after.gaps@.len() == before.gaps@.len() + 1,
        after.origin@ == before.origin@,
        after.lexer.chars() == before.lexer.chars(),
        crate::driver::session::interner_extends(before.names(), after.names()),
        before.lexer.index() <= q,
        resumes(after.lexer.chars(), before.lexer.index(), after.gaps@.last(), q),
        token_read(after.lexer.chars(), after.names(), q, after.token, after.lexer.index()),
    ensures
        after.reads_source(),
{
    let toks = after.consumed@.push(after.token);
    lemma_reads_extend(before.lexer.chars(), before.names(), after.names(), before.origin@,
        before.consumed@.push(before.token), before.gaps@, before.lexer.index());
    assert(toks.drop_last() =~= before.consumed@.push(before.token));
    assert(toks.last() == after.token);
    assert(after.gaps@.len() == toks.len());
    assert(reads(after.lexer.chars(), after.names(), after.origin@, toks.drop_last(), after.gaps@.drop_last(),
        before.lexer.index()));
}

/// Whether a token starts a register argument of a memory operand
fn starts_register_arg_exec(t: &Token) -> (r: bool)
    ensures
        r == starts_register_arg(*t),
{
    match t {
        Token::Dollar | Token::Percent | Token::Ident(_) => true,
        _ => false,
    }
}

impl Parser {
    // --- Parse patterns & impls -----------------------------------------------

    /// Parse a pattern: IR instructions, possibly a control flow instruction,
    /// and possibly a condition
    pub fn parse_pattern(&mut self) -> (r: Result<Spanned<Pattern>, Diagnostic>)
        requires
            old(self).wf(),
        ensures
            final(self).advances(old(self)),
            old(self).reads_source() && r is Ok ==> final(self).reads_source(),
            old(self).token != Token::LBracket ==> r is Err,
            r is Ok ==> final(self).progress() < old(self).progress(),
            r matches Ok(p) ==> (p.value.cond is None ==> final(self).consumed@ == old(self).consumed@
                + pattern_body_tokens(p.value)),
            r matches Ok(p) ==> (p.value.cond is Some ==> exists|t: Token| final(self).consumed@
                == old(self).consumed@ + pattern_body_tokens(p.value) + seq![Token::Keyword(Keyword::If), t]),
    {
        // Grammar: LBRACKET (ir SEMICOLON)* (DOUBLEDOT | ir_last) RBRACKET (IF snippet)?
        let lo = self.span;

        let mut patterns: Vec<Spanned<IrPattern>> = Vec::new();
        let mut last: Option<Spanned<IrPatternLast>> = None;

        self.expect(Token::LBracket)?;
        assert(self.consumed@ =~= old(self).consumed@ + seq![Token::LBracket] + ir_list_tokens(patterns@));

        loop
            invariant_except_break
                last is None,
                self.consumed@ == old(self).consumed@ + seq![Token::LBracket] + ir_list_tokens(patterns@),
            invariant
                self.advances(old(self)),
                old(self).reads_source() ==> self.reads_source(),
                self.progress() < old(self).progress(),
            ensures
                self.advances(old(self)),
                old(self).reads_source() ==> self.reads_source(),
                self.progress() < old(self).progress(),
                self.consumed@ == old(self).consumed@ + seq![Token::LBracket] + ir_list_tokens(patterns@)
                    + match last {
                        None => seq![Token::DoubleDot],
                        Some(l) => ir_pattern_last_tokens(l.value),
                    },
            decreases self.progress(),
        {
            if self.eat(Token::DoubleDot)? {
                assert(self.consumed@ =~= old(self).consumed@ + seq![Token::LBracket] + ir_list_tokens(patterns@)
                    + seq![Token::DoubleDot]);
                break;
            } else if self.on_last_pattern() {
                last = Some(self.parse_ir_pattern_last()?);
                break;
            } else {
                let ghost before = patterns@;
                patterns.push(self.parse_ir_pattern()?);
                self.expect(Token::Semicolon)?;
                assert(patterns@.drop_last() == before);
                assert(self.consumed@ =~= old(self).consumed@ + seq![Token::LBracket] + ir_list_tokens(patterns@));
            }
        }

        self.expect(Token::RBracket)?;
        let ghost body = self.consumed@;

        let cond = if self.eat(Token::Keyword(Keyword::If))? {
            let ghost t = self.token;
            let snippet = self.read_snippet()?;
            assert(self.consumed@ =~= body + seq![Token::Keyword(Keyword::If), t]);

            Some(snippet)
        } else {
            None
        };
        let value = Pattern { ir_patterns: patterns, last, cond };
        assert(body =~= old(self).consumed@ + pattern_body_tokens(value));

        Ok(Spanned { value, span: lo.join(self.span) })
    }

    /// Parse Rust code that implements a rule
    fn parse_rust_impl(&mut self) -> (r: Result<Spanned<Ident>, Diagnostic>)
        requires
            old(self).wf(),
        ensures
            final(self).advances(old(self)),
            old(self).reads_source() && r is Ok ==> final(self).reads_source(),
            r is Ok ==> final(self).consumed@ == old(self).consumed@.push(old(self).token),
            r is Ok <==> snippet_reads(old(self).lexer.chars(), old(self).lexer.index()),
    {
        // Grammar: LBRACE <Rust code> RBRACE
        let lo = self.span;

        let snippet = self.read_snippet()?;

        Ok(Spanned { value: snippet, span: lo.join(self.span) })
    }

    /// Parse the assembly instructions that implement a rule
    fn parse_asm_impl(&mut self) -> (r: Result<Spanned<Vec<Spanned<AsmInstr>>>, Diagnostic>)
        requires
            old(self).wf(),
        ensures
            final(self).advances(old(self)),
            old(self).reads_source() && r is Ok ==> final(self).reads_source(),
            old(self).token != Token::LBrace ==> r is Err,
            r matches Ok(v) ==> exists|t: Seq<Token>| final(self).consumed@ == #[trigger] (old(self).consumed@ + t)
                && impl_tokens(t, Impl::Asm(v), final(self).names()),
    {
        // Grammar: LBRACE (asm SEMICOLON)* RBRACE
        let lo = self.span;

        let mut instructions: Vec<Spanned<AsmInstr>> = Vec::new();

        self.expect(Token::LBrace)?;
        let ghost start = self.consumed@;
        let ghost mut tis: Seq<Token> = Seq::empty();
        assert(start =~= start + tis);

        while self.token != Token::RBrace
            invariant
                self.advances(old(self)),
                old(self).reads_source() ==> self.reads_source(),
                self.consumed@ == start + tis,
                asm_instrs_tokens(tis, instructions@, self.names()),
            decreases self.progress(),
        {
            let ghost before = self.consumed@;
            let ghost names_before = self.names();
            let ghost old_instrs = instructions@;
            let i = self.parse_asm_instruction()?;
            let ghost ti = choose|t: Seq<Token>| self.consumed@ == before + t && asm_instr_tokens(t, i.value, self.names());
            let ghost names_instr = self.names();
            instructions.push(i);
            self.expect(Token::Semicolon)?;
            proof {
                lemma_asm_instrs_tokens_extend(tis, old_instrs, names_before, self.names());
                lemma_asm_args_tokens_extend(ti.subrange(1, ti.len() as int), i.value.args@, names_instr, self.names());
                assert(instructions@.drop_last() == old_instrs);
                let t = tis + ti + seq![Token::Semicolon];
                assert(t.subrange(0, tis.len() as int) =~= tis);
                assert(t.subrange(tis.len() as int, t.len() - 1) =~= ti);
                assert(self.consumed@ =~= start + t);
                tis = t;
            }
        }

        let ghost names_close = self.names();
        self.expect(Token::RBrace)?;

        let v = Spanned { value: instructions, span: lo.join(self.span) };
        proof {
            lemma_asm_instrs_tokens_extend(tis, v.value@, names_close, self.names());
            let t = seq![Token::LBrace] + tis + seq![Token::RBrace];
            assert(self.consumed@ =~= old(self).consumed@ + t);
            assert(t.subrange(1, t.len() - 1) =~= tis);
            assert(impl_tokens(t, Impl::Asm(v), self.names()));
        }
        Ok(v)
    }

    // --- Parse rules ----------------------------------------------------------

    /// Parse a rule: a pattern and its implementation
    pub fn parse_rule(&mut self) -> (r: Result<Spanned<Rule>, Diagnostic>)
        requires
            old(self).wf(),
        ensures
            final(self).advances(old(self)),
            old(self).reads_source() && r is Ok ==> final(self).reads_source(),
            old(self).token != Token::LBracket ==> r is Err,
            r is Ok ==> final(self).progress() < old(self).progress(),
            r matches Ok(rule) ==> exists|t: Seq<Token>| final(self).consumed@ == #[trigger] (old(self).consumed@ + t)
                && rule_tokens(t, rule.value, final(self).names()),
    {
        // Grammar: pattern (ARROW rust_impl | FATARROW asm_impl)
        let lo = self.span;

        let pattern = self.parse_pattern()?;
        let ghost c0 = old(self).consumed@;
        let ghost tp = self.consumed@.subrange(c0.len() as int, self.consumed@.len() as int);
        proof {
            lemma_pattern_read(c0, self.consumed@, pattern.value);
        }
        let ghost after_pattern = self.consumed@;

        let implementation = if self.eat(Token::Arrow)? {
            let ghost t0 = self.token;
            let i = Impl::Rust(self.parse_rust_impl()?);
            proof {
                let t = tp + seq![Token::Arrow] + seq![t0];
                assert(self.consumed@ =~= c0 + t);
                assert(t.subrange(0, tp.len() as int) =~= tp);
                assert(t.subrange(tp.len() as int + 1, t.len() as int) =~= seq![t0]);
                assert(rule_tokens(t, Rule { pattern, implementation: i }, self.names())) by {
                    reveal(rule_tokens);
                }
            }
            i
        } else if self.eat(Token::FatArrow)? {
            let ghost before = self.consumed@;
            let v = self.parse_asm_impl()?;
            let i = Impl::Asm(v);
            proof {
                let ti = choose|t: Seq<Token>| self.consumed@ == before + t && impl_tokens(t, Impl::Asm(v), self.names());
                let t = tp + seq![Token::FatArrow] + ti;
                assert(self.consumed@ =~= c0 + t);
                assert(t.subrange(0, tp.len() as int) =~= tp);
                assert(t.subrange(tp.len() as int + 1, t.len() as int) =~= ti);
                assert(rule_tokens(t, Rule { pattern, implementation: i }, self.names())) by {
                    reveal(rule_tokens);
                }
            }
            i
        } else {
            return Err(self.unexpected_token(None));
        };

        Ok(Spanned { value: Rule { pattern, implementation }, span: lo.join(self.span) })
    }
}

} // verus!
