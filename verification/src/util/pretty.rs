//! A pretty printer
//!
//! Prints a parsed AST in source syntax, so that parsing it again gives the
//! same program. Blocks are indented by four spaces per level.

use vstd::prelude::*;
use crate::driver::interner::{Ident, Interner};
use crate::front::ast::{BinOp, Binding, Block, Expression, Node, Program, Statement, Symbol, Type, UnOp, Value};
use crate::front::lexer::punct_text;
use crate::front::tokens::{Token, binop_str, unop_str};
use crate::util::text::{decimal, push_char, push_chars, push_str, push_u64};

verus! {

// --- The text of the AST ------------------------------------------------------

/// The name of an identifier (empty if the interner does not know it)
pub open spec fn ident_text(id: Ident, names: Seq<Seq<char>>) -> Seq<char> {
    if id.0 < names.len() { names[id.0 as int] } else { Seq::empty() }
}

/// `n` levels of indentation
pub open spec fn indent_text(n: u32) -> Seq<char> {
    Seq::new(4 * n as nat, |i: int| ' ')
}

/// One more level of indentation (the deepest level stays)
pub open spec fn deeper(n: u32) -> u32 {
    if n < u32::MAX { (n + 1) as u32 } else { n }
}

pub open spec fn type_text(t: Type) -> Seq<char> {
    match t {
        Type::Bool => "bool"@,
        Type::Int => "int"@,
        Type::Char => "char"@,
        Type::Unit => "()"@,
        Type::Error => "[type error]"@,
    }
}

/// A literal in source syntax
pub open spec fn value_text(v: Value) -> Seq<char> {
    match v {
        Value::Bool(b) => if b { "true"@ } else { "false"@ },
        Value::Int(i) => decimal(i as nat),
        Value::Char(c) => if c == '\n' {
            seq!['\'', '\\', 'n', '\'']
        } else if c == '\'' {
            seq!['\'', '\\', '\'', '\'']
        } else {
            seq!['\'', c, '\'']
        },
    }
}

pub open spec fn binop_text(op: BinOp) -> Seq<char> {
    match op {
        BinOp::Add => "+"@,
        BinOp::Sub => "-"@,
        BinOp::Mul => "*"@,
        BinOp::Div => "/"@,
        BinOp::Mod => "%"@,
        BinOp::Pow => "**"@,
        BinOp::And => "&&"@,
        BinOp::Or => "||"@,
        BinOp::BitXor => "^"@,
        BinOp::BitAnd => "&"@,
        BinOp::BitOr => "|"@,
        BinOp::Shl => "<<"@,
        BinOp::Shr => ">>"@,
        BinOp::EqEq => "=="@,
        BinOp::Lt => "<"@,
        BinOp::Le => "<="@,
        BinOp::Ne => "!="@,
        BinOp::Ge => ">="@,
        BinOp::Gt => ">"@,
    }
}

pub open spec fn unop_text(op: UnOp) -> Seq<char> {
    match op {
        UnOp::Neg => "-"@,
        UnOp::Not => "!"@,
    }
}

/// `name: type`
pub open spec fn binding_text(b: Binding, names: Seq<Seq<char>>) -> Seq<char> {
    ident_text(b.name.node, names) + ": "@ + type_text(b.ty)
}

/// The number of arguments of a call (0 for other expressions)
pub open spec fn call_arity(e: Expression) -> nat {
    match e {
        Expression::Call { args, .. } => args@.len(),
        _ => 0,
    }
}

/// The text of an expression, its blocks indented `ind` levels
pub open spec fn expr_text(e: Expression, names: Seq<Seq<char>>, ind: u32) -> Seq<char>
    decreases e, call_arity(e) + 1,
{
    match e {
        Expression::Group(inner) => "("@ + expr_text(inner.node, names, ind) + ")"@,
        Expression::Call { func, args } => expr_text(func.node, names, ind) + "("@ + args_text(e, names, ind, args@.len()) + ")"@,
        Expression::Infix { op, lhs, rhs } => expr_text(lhs.node, names, ind) + " "@ + binop_text(op) + " "@
            + expr_text(rhs.node, names, ind),
        Expression::Prefix { op, item } => unop_text(op) + expr_text(item.node, names, ind),
        Expression::Literal { val } => value_text(val),
        Expression::Variable { name } => ident_text(name.node, names),
        Expression::If { cond, conseq, altern } => "if "@ + expr_text(cond.node, names, ind) + " "@
            + block_text(conseq.node, names, ind) + match altern {
                Some(b) => " else "@ + block_text(b.node, names, ind),
                None => Seq::empty(),
            },
        Expression::While { cond, body } => "while "@ + expr_text(cond.node, names, ind) + " "@ + block_text(body.node, names, ind),
        Expression::Assign { lhs, rhs } => expr_text(lhs.node, names, ind) + " = "@ + expr_text(rhs.node, names, ind),
        Expression::AssignOp { op, lhs, rhs } => expr_text(lhs.node, names, ind) + " "@ + binop_text(op) + "= "@
            + expr_text(rhs.node, names, ind),
        Expression::Break => "break"@,
        Expression::Return { val } => "return "@ + expr_text(val.node, names, ind),
        Expression::Unit => "()"@,
    }
}

/// The first `n` arguments of a call, each followed by `, `
pub open spec fn args_text(call: Expression, names: Seq<Seq<char>>, ind: u32, n: nat) -> Seq<char>
    decreases call, n,
{
    if call is Call && 0 < n <= call->Call_args@.len() {
        args_text(call, names, ind, (n - 1) as nat) + expr_text(call->Call_args@[n - 1].node, names, ind) + ", "@
    } else {
        Seq::empty()
    }
}

/// A block: its statements and its value (unless it is `()`), one per line
/// and one level deeper than the closing brace
pub open spec fn block_text(b: Block, names: Seq<Seq<char>>, ind: u32) -> Seq<char>
    decreases b, b.stmts@.len() + 1,
{
    "{\n"@ + stmts_text(b, names, deeper(ind), b.stmts@.len()) + (if b.expr.node is Unit {
        Seq::empty()
    } else {
        indent_text(deeper(ind)) + expr_text(b.expr.node, names, deeper(ind)) + "\n"@
    }) + indent_text(ind) + "}"@
}

/// Printing keeps the `else` of an `if`: the text of an `if` with an `else`
/// block is the text of the same `if` without it, followed by ` else ` and
/// the block's text, so the two never print alike
pub proof fn law_else_is_printed(cond: Box<Node<Expression>>, conseq: Box<Node<Block>>, b: Box<Node<Block>>,
    names: Seq<Seq<char>>, ind: u32)
    ensures
        expr_text(Expression::If { cond, conseq, altern: Some(b) }, names, ind)
            == expr_text(Expression::If { cond, conseq, altern: None }, names, ind) + " else "@ + block_text(b.node, names, ind),
        expr_text(Expression::If { cond, conseq, altern: Some(b) }, names, ind)
            != expr_text(Expression::If { cond, conseq, altern: None }, names, ind),
{
    let with = expr_text(Expression::If { cond, conseq, altern: Some(b) }, names, ind);
    let without = expr_text(Expression::If { cond, conseq, altern: None }, names, ind);
    assert(with =~= without + " else "@ + block_text(b.node, names, ind));
    reveal_strlit(" else ");
    assert(with.len() > without.len());
}

/// Printing keeps the operands in their places: an operation's text starts
/// with its left-hand operand's text and ends with its right-hand operand's,
/// with the operator's text just after the left-hand operand and a space;
/// a prefix operation, a `return` and a loop end with their operand's or
/// body's text; a call starts with its function's text
pub proof fn law_operands_are_printed_in_place(e: Expression, names: Seq<Seq<char>>, ind: u32)
    ensures
        ({
            let t = expr_text(e, names, ind);
            &&& e matches Expression::Infix { op, lhs, rhs } ==> ({
                let lt = expr_text(lhs.node, names, ind);
                &&& lt.is_prefix_of(t)
                &&& expr_text(rhs.node, names, ind).is_suffix_of(t)
                &&& t.subrange(lt.len() + 1int, lt.len() + 1int + binop_text(op).len()) == binop_text(op)
            })
            &&& e matches Expression::AssignOp { op, lhs, rhs } ==> ({
                let lt = expr_text(lhs.node, names, ind);
                &&& lt.is_prefix_of(t)
                &&& expr_text(rhs.node, names, ind).is_suffix_of(t)
                &&& t.subrange(lt.len() + 1int, lt.len() + 1int + binop_text(op).len()) == binop_text(op)
            })
            &&& e matches Expression::Assign { lhs, rhs } ==> expr_text(lhs.node, names, ind).is_prefix_of(t)
                && expr_text(rhs.node, names, ind).is_suffix_of(t)
            &&& e matches Expression::Prefix { op, item } ==> unop_text(op).is_prefix_of(t)
                && expr_text(item.node, names, ind).is_suffix_of(t)
            &&& e matches Expression::Return { val } ==> expr_text(val.node, names, ind).is_suffix_of(t)
            &&& e matches Expression::While { body, .. } ==> block_text(body.node, names, ind).is_suffix_of(t)
            &&& e matches Expression::Call { func, .. } ==> expr_text(func.node, names, ind).is_prefix_of(t)
            &&& e matches Expression::Group(inner) ==> t == "("@ + expr_text(inner.node, names, ind) + ")"@
        }),
{
    let t = expr_text(e, names, ind);
    match e {
        Expression::Infix { op, lhs, rhs } => {
            let lt = expr_text(lhs.node, names, ind);
            let rt = expr_text(rhs.node, names, ind);
            reveal_strlit(" ");
            assert(lt =~= t.subrange(0, lt.len() as int));
            assert(rt =~= t.subrange(t.len() - rt.len(), t.len() as int));
            assert(t.subrange(lt.len() + 1int, lt.len() + 1int + binop_text(op).len()) =~= binop_text(op));
        },
        Expression::AssignOp { op, lhs, rhs } => {
            let lt = expr_text(lhs.node, names, ind);
            let rt = expr_text(rhs.node, names, ind);
            reveal_strlit(" ");
            assert(lt =~= t.subrange(0, lt.len() as int));
            assert(rt =~= t.subrange(t.len() - rt.len(), t.len() as int));
            assert(t.subrange(lt.len() + 1int, lt.len() + 1int + binop_text(op).len()) =~= binop_text(op));
        },
        Expression::Assign { lhs, rhs } => {
            let lt = expr_text(lhs.node, names, ind);
            let rt = expr_text(rhs.node, names, ind);
            assert(lt =~= t.subrange(0, lt.len() as int));
            assert(rt =~= t.subrange(t.len() - rt.len(), t.len() as int));
        },
        Expression::Prefix { op, item } => {
            let it = expr_text(item.node, names, ind);
            assert(unop_text(op) =~= t.subrange(0, unop_text(op).len() as int));
            assert(it =~= t.subrange(t.len() - it.len(), t.len() as int));
        },
        Expression::Return { val } => {
            let vt = expr_text(val.node, names, ind);
            assert(vt =~= t.subrange(t.len() - vt.len(), t.len() as int));
        },
        Expression::While { body, .. } => {
            let bt = block_text(body.node, names, ind);
            assert(bt =~= t.subrange(t.len() - bt.len(), t.len() as int));
        },
        Expression::Call { func, .. } => {
            let ft = expr_text(func.node, names, ind);
            assert(ft =~= t.subrange(0, ft.len() as int));
        },
        _ => {},
    }
}

/// The first `n` statements of a block, each on a line of its own
pub open spec fn stmts_text(b: Block, names: Seq<Seq<char>>, ind: u32, n: nat) -> Seq<char>
    decreases b, n,
{
    if 0 < n <= b.stmts@.len() {
        stmts_text(b, names, ind, (n - 1) as nat) + indent_text(ind) + match b.stmts@[n - 1].node {
            Statement::Declaration { binding, value } => "let "@ + binding_text(binding.node, names) + " = "@
                + expr_text(value.node, names, ind) + ";\n"@,
            Statement::Expression { val } => expr_text(val.node, names, ind) + ";\n"@,
        }
    } else {
        Seq::empty()
    }
}

/// A symbol at the top level
pub open spec fn symbol_text(s: Symbol, names: Seq<Seq<char>>) -> Seq<char> {
    match s {
        Symbol::Static { binding, value } => "static "@ + binding_text(binding.node, names) + " = "@
            + expr_text(value.node, names, 0) + ";\n"@,
        Symbol::Constant { binding, value } => "const "@ + binding_text(binding.node, names) + " = "@
            + expr_text(value.node, names, 0) + ";\n"@,
        Symbol::Function { name, bindings, ret_ty, body } => "\nfn "@ + ident_text(name.node, names) + "("@
            + bindings_text(bindings@, names) + ") -> "@ + type_text(ret_ty) + " "@ + block_text(body.node, names, 0),
    }
}

/// Bindings separated by `, `
pub open spec fn bindings_text(bs: Seq<Node<Binding>>, names: Seq<Seq<char>>) -> Seq<char>
    decreases bs.len(),
{
    if bs.len() == 0 {
        Seq::empty()
    } else if bs.len() == 1 {
        binding_text(bs[0].node, names)
    } else {
        bindings_text(bs.drop_last(), names) + ", "@ + binding_text(bs.last().node, names)
    }
}

/// The whole program
pub open spec fn program_text(p: Seq<Node<Symbol>>, names: Seq<Seq<char>>) -> Seq<char>
    decreases p.len(),
{
    if p.len() == 0 {
        Seq::empty()
    } else {
        program_text(p.drop_last(), names) + symbol_text(p.last().node, names)
    }
}

/// The printer writes each binary operator, and `!`, as the text the lexer
/// reads back as that operator
pub proof fn lemma_printed_operators_lex_back(op: BinOp)
    ensures
        punct_text(Token::BinOp(op)) == Some(binop_text(op)),
        punct_text(Token::UnOp(UnOp::Not)) == Some(unop_text(UnOp::Not)),
{
    reveal_strlit("+");
    reveal_strlit("-");
    reveal_strlit("*");
    reveal_strlit("/");
    reveal_strlit("%");
    reveal_strlit("**");
    reveal_strlit("&&");
    reveal_strlit("||");
    reveal_strlit("^");
    reveal_strlit("&");
    reveal_strlit("|");
    reveal_strlit("<<");
    reveal_strlit(">>");
    reveal_strlit("==");
    reveal_strlit("<");
    reveal_strlit("<=");
    reveal_strlit("!=");
    reveal_strlit(">=");
    reveal_strlit(">");
    reveal_strlit("!");
    match op {
        BinOp::Add => assert(binop_text(op) =~= seq!['+']),
        BinOp::Sub => assert(binop_text(op) =~= seq!['-']),
        BinOp::Mul => assert(binop_text(op) =~= seq!['*']),
        BinOp::Div => assert(binop_text(op) =~= seq!['/']),
        BinOp::Mod => assert(binop_text(op) =~= seq!['%']),
        BinOp::Pow => assert(binop_text(op) =~= seq!['*', '*']),
        BinOp::And => assert(binop_text(op) =~= seq!['&', '&']),
        BinOp::Or => assert(binop_text(op) =~= seq!['|', '|']),
        BinOp::BitXor => assert(binop_text(op) =~= seq!['^']),
        BinOp::BitAnd => assert(binop_text(op) =~= seq!['&']),
        BinOp::BitOr => assert(binop_text(op) =~= seq!['|']),
        BinOp::Shl => assert(binop_text(op) =~= seq!['<', '<']),
        BinOp::Shr => assert(binop_text(op) =~= seq!['>', '>']),
        BinOp::EqEq => assert(binop_text(op) =~= seq!['=', '=']),
        BinOp::Lt => assert(binop_text(op) =~= seq!['<']),
        BinOp::Le => assert(binop_text(op) =~= seq!['<', '=']),
        BinOp::Ne => assert(binop_text(op) =~= seq!['!', '=']),
        BinOp::Ge => assert(binop_text(op) =~= seq!['>', '=']),
        BinOp::Gt => assert(binop_text(op) =~= seq!['>']),
    }
    assert(unop_text(UnOp::Not) =~= seq!['!']);
}

// --- The printer --------------------------------------------------------------

/// The pretty printer: the current indentation level and the text so far
pub struct PrettyPrinter {
    pub indent: u32,
    pub out: String,
}

/// Append the name of an identifier
pub fn push_ident(s: &mut String, id: Ident, interner: &Interner)
    ensures
        final(s)@ == old(s)@ + ident_text(id, interner@),
{
    if id.0 < interner.len() {
        push_chars(s, interner.resolve(id));
    } else {
        assert(old(s)@ + Seq::<char>::empty() =~= old(s)@);
    }
}

/// Append a literal in source syntax
fn push_value(s: &mut String, v: Value)
    ensures
        final(s)@ == old(s)@ + value_text(v),
{
    let ghost s0 = s@;
    match v {
        Value::Bool(b) => push_str(s, if b { "true" } else { "false" }),
        Value::Int(i) => push_u64(s, i as u64),
        Value::Char(c) => {
            push_char(s, '\'');
            if c == '\n' {
                push_char(s, '\\');
                push_char(s, 'n');
            } else if c == '\'' {
                push_char(s, '\\');
                push_char(s, '\'');
            } else {
                push_char(s, c);
            }
            push_char(s, '\'');
            assert(s@ =~= s0 + value_text(v));
        },
    }
}

/// Append `name: type`
fn push_binding(s: &mut String, b: &Binding, interner: &Interner)
    ensures
        final(s)@ == old(s)@ + binding_text(*b, interner@),
{
    let ghost s0 = s@;
    push_ident(s, b.name.node, interner);
    push_str(s, ": ");
    push_str(s, b.ty.name());
    assert(s@ =~= s0 + binding_text(*b, interner@));
}

impl PrettyPrinter {
    /// Print a program
    pub fn print(program: &Program, interner: &Interner) -> (r: String)
        ensures
            r@ == program_text(program@, interner@),
    {
        let mut printer = PrettyPrinter { indent: 0, out: String::new() };
        printer.print_program(program, interner);
        printer.out
    }

    fn print_indent(&mut self)
        ensures
            final(self).out@ == old(self).out@ + indent_text(old(self).indent),
            final(self).indent == old(self).indent,
    {
        let n: u64 = (self.indent as u64) * 4;
        let mut i: u64 = 0;
        while i < n
            invariant
                n == 4 * self.indent,
                i <= n,
                self.indent == old(self).indent,
                self.out@ == old(self).out@ + Seq::new(i as nat, |k: int| ' '),
            decreases n - i,
        {
            push_char(&mut self.out, ' ');
            assert(self.out@ =~= old(self).out@ + Seq::new((i + 1) as nat, |k: int| ' '));
            i = i + 1;
        }
    }

    fn print_program(&mut self, program: &Program, interner: &Interner)
        ensures
            final(self).out@ == old(self).out@ + program_text(program@, interner@),
    {
        let ghost s0 = self.out@;
        let mut i: usize = 0;
        while i < program.len()
            invariant
                i <= program@.len(),
                self.out@ == s0 + program_text(program@.subrange(0, i as int), interner@),
            decreases program@.len() - i,
        {
            self.print_symbol(&program[i].node, interner);
            proof {
                let q = program@.subrange(0, i + 1);
                assert(q.drop_last() =~= program@.subrange(0, i as int));
                assert(self.out@ =~= s0 + program_text(q, interner@));
            }
            i = i + 1;
        }
        assert(program@.subrange(0, program@.len() as int) =~= program@);
    }

    fn print_symbol(&mut self, symbol: &Symbol, interner: &Interner)
        ensures
            final(self).out@ == old(self).out@ + symbol_text(*symbol, interner@),
    {
        let ghost s0 = self.out@;
        self.indent = 0;
        match symbol {
            Symbol::Static { binding, value } => {
                push_str(&mut self.out, "static ");
                push_binding(&mut self.out, &binding.node, interner);
                push_str(&mut self.out, " = ");
                self.print_expression(&value.node, interner);
                push_str(&mut self.out, ";\n");
            },
            Symbol::Constant { binding, value } => {
                push_str(&mut self.out, "const ");
                push_binding(&mut self.out, &binding.node, interner);
                push_str(&mut self.out, " = ");
                self.print_expression(&value.node, interner);
                push_str(&mut self.out, ";\n");
            },
            Symbol::Function { name, bindings, ret_ty, body } => {
                push_str(&mut self.out, "\nfn ");
                push_ident(&mut self.out, name.node, interner);
                push_str(&mut self.out, "(");
                let ghost s1 = self.out@;
                let mut i: usize = 0;
                while i < bindings.len()
                    invariant
                        i <= bindings@.len(),
                        self.indent == 0,
                        self.out@ == s1 + bindings_text(bindings@.subrange(0, i as int), interner@),
                    decreases bindings@.len() - i,
                {
                    if i > 0 {
                        push_str(&mut self.out, ", ");
                    }
                    push_binding(&mut self.out, &bindings[i].node, interner);
                    proof {
                        let q = bindings@.subrange(0, i + 1);
                        assert(q.drop_last() =~= bindings@.subrange(0, i as int));
                        if i == 0 {
                            assert(q =~= seq![bindings@[0]]);
                        }
                        assert(self.out@ =~= s1 + bindings_text(q, interner@));
                    }
                    i = i + 1;
                }
                assert(bindings@.subrange(0, bindings@.len() as int) =~= bindings@);
                push_str(&mut self.out, ") -> ");
                push_str(&mut self.out, ret_ty.name());
                push_str(&mut self.out, " ");
                self.print_block(&body.node, interner);
            },
        }
        assert(self.out@ =~= s0 + symbol_text(*symbol, interner@));
    }

    /// Print a block at the current indentation
    fn print_block(&mut self, block: &Block, interner: &Interner)
        ensures
            final(self).out@ == old(self).out@ + block_text(*block, interner@, old(self).indent),
            final(self).indent == old(self).indent,
        decreases *block, 0nat,
    {
        let ghost s0 = self.out@;
        let ind = self.indent;
        push_str(&mut self.out, "{\n");
        self.indent = if ind < u32::MAX { ind + 1 } else { ind };
        let ghost s1 = self.out@;
        let stmts = &block.stmts;
        let mut i: usize = 0;
        while i < stmts.len()
            invariant
                i <= stmts@.len(),
                stmts == &block.stmts,
                self.indent == deeper(ind),
                self.out@ == s1 + stmts_text(*block, interner@, deeper(ind), i as nat),
            decreases stmts@.len() - i,
        {
            let ghost pre = self.out@;
            proof {
                assert(decreases_to!(*block => stmts@[i as int].node));
            }
            self.print_statement(&stmts[i].node, interner);
            proof {
                assert(self.out@ =~= s1 + stmts_text(*block, interner@, deeper(ind), (i + 1) as nat));
            }
            i = i + 1;
        }
        let ghost s2 = self.out@;
        if let Expression::Unit = block.expr.node {
            assert(s2 + Seq::<char>::empty() =~= s2);
        } else {
            self.print_indent();
            self.print_expression(&block.expr.node, interner);
            push_str(&mut self.out, "\n");
        }
        self.indent = ind;
        self.print_indent();
        push_str(&mut self.out, "}");
        assert(self.out@ =~= s0 + block_text(*block, interner@, ind));
    }

    /// Print a statement on a line of its own
    fn print_statement(&mut self, stmt: &Statement, interner: &Interner)
        ensures
            final(self).indent == old(self).indent,
            final(self).out@ == old(self).out@ + indent_text(old(self).indent) + match *stmt {
                Statement::Declaration { binding, value } => "let "@ + binding_text(binding.node, interner@) + " = "@
                    + expr_text(value.node, interner@, old(self).indent) + ";\n"@,
                Statement::Expression { val } => expr_text(val.node, interner@, old(self).indent) + ";\n"@,
            },
        decreases *stmt, 0nat,
    {
        let ghost s0 = self.out@;
        self.print_indent();
        match stmt {
            Statement::Declaration { binding, value } => {
                push_str(&mut self.out, "let ");
                push_binding(&mut self.out, &binding.node, interner);
                push_str(&mut self.out, " = ");
                self.print_expression(&value.node, interner);
                push_str(&mut self.out, ";\n");
            },
            Statement::Expression { val } => {
                self.print_expression(&val.node, interner);
                push_str(&mut self.out, ";\n");
            },
        }
        assert(self.out@ =~= s0 + indent_text(old(self).indent) + match *stmt {
            Statement::Declaration { binding, value } => "let "@ + binding_text(binding.node, interner@) + " = "@
                + expr_text(value.node, interner@, old(self).indent) + ";\n"@,
            Statement::Expression { val } => expr_text(val.node, interner@, old(self).indent) + ";\n"@,
        });
    }

    /// Print an expression
    fn print_expression(&mut self, expr: &Expression, interner: &Interner)
        ensures
            final(self).out@ == old(self).out@ + expr_text(*expr, interner@, old(self).indent),
            final(self).indent == old(self).indent,
        decreases *expr, 0nat,
    {
        let ghost s0 = self.out@;
        let ghost ind = self.indent;
        match expr {
            Expression::Group(inner) => {
                push_str(&mut self.out, "(");
                self.print_expression(&inner.node, interner);
                push_str(&mut self.out, ")");
            },
            Expression::Call { func, args } => {
                self.print_expression(&func.node, interner);
                push_str(&mut self.out, "(");
                let ghost s1 = self.out@;
                let mut i: usize = 0;
                while i < args.len()
                    invariant
                        i <= args@.len(),
                        *expr is Call && expr->Call_args == *args,
                        self.indent == ind,
                        self.out@ == s1 + args_text(*expr, interner@, ind, i as nat),
                    decreases args@.len() - i,
                {
                    proof {
                        assert(decreases_to!(*expr => args@[i as int].node));
                    }
                    self.print_expression(&args[i].node, interner);
                    push_str(&mut self.out, ", ");
                    assert(self.out@ =~= s1 + args_text(*expr, interner@, ind, (i + 1) as nat));
                    i = i + 1;
                }
                push_str(&mut self.out, ")");
            },
            Expression::Infix { op, lhs, rhs } => {
                self.print_expression(&lhs.node, interner);
                push_str(&mut self.out, " ");
                push_str(&mut self.out, binop_str(*op));
                push_str(&mut self.out, " ");
                self.print_expression(&rhs.node, interner);
            },
            Expression::Prefix { op, item } => {
                push_str(&mut self.out, unop_str(*op));
                self.print_expression(&item.node, interner);
            },
            Expression::Literal { val } => push_value(&mut self.out, *val),
            Expression::Variable { name } => push_ident(&mut self.out, name.node, interner),
            Expression::If { cond, conseq, altern } => {
                push_str(&mut self.out, "if ");
                self.print_expression(&cond.node, interner);
                push_str(&mut self.out, " ");
                self.print_block(&conseq.node, interner);
                match altern {
                    Some(b) => {
                        push_str(&mut self.out, " else ");
                        self.print_block(&b.node, interner);
                    },
                    None => {},
                }
            },
            Expression::While { cond, body } => {
                push_str(&mut self.out, "while ");
                self.print_expression(&cond.node, interner);
                push_str(&mut self.out, " ");
                self.print_block(&body.node, interner);
            },
            Expression::Assign { lhs, rhs } => {
                self.print_expression(&lhs.node, interner);
                push_str(&mut self.out, " = ");
                self.print_expression(&rhs.node, interner);
            },
            Expression::AssignOp { op, lhs, rhs } => {
                self.print_expression(&lhs.node, interner);
                push_str(&mut self.out, " ");
                push_str(&mut self.out, binop_str(*op));
                push_str(&mut self.out, "= ");
                self.print_expression(&rhs.node, interner);
            },
            Expression::Break => push_str(&mut self.out, "break"),
            Expression::Return { val } => {
                push_str(&mut self.out, "return ");
                self.print_expression(&val.node, interner);
            },
            Expression::Unit => push_str(&mut self.out, "()"),
        }
        assert(self.out@ =~= s0 + expr_text(*expr, interner@, ind));
    }
}

} // verus!
