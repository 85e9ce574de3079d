//! Assembly code
//!
//! The instruction selector produces functions made of blocks of assembly
//! lines (directives and instructions in Intel syntax) that still use virtual
//! registers; the register allocator maps them to machine registers.

use vstd::prelude::*;
use crate::back::machine::{MachineRegister, Word, machine_register_text};
use crate::driver::interner::{Ident, Interner};
use crate::middle::ir;
use crate::util::text::{decimal, join, push_chars, push_i64, push_join, push_str, push_u64, signed_decimal, texts};

verus! {

#[derive(Clone, Copy, Debug, PartialEq, Eq, Structural)]
pub enum Register {
    Machine(MachineRegister),
    Virtual(Ident),
}

#[derive(Clone, Copy, Debug, PartialEq, Eq, Structural)]
pub enum OperandSize {
    Byte,
    Word,
    DWord,
    QWord,
}

#[derive(Clone, Copy, Debug)]
pub enum Argument {
    Immediate(Word),
    /// The address of a static
    Address(Ident),
    Label(Ident),
    Register(Register),
    /// The stack slot of a variable
    StackSlot(Ident),
    /// `[base + index * scale + disp]`, e.g. `dword ptr [rbp + -4]`
    Indirect {
        size: Option<OperandSize>,
        base: Option<Register>,
        index: Option<(Register, u32)>,
        disp: Option<i32>,
    },
}

#[derive(Debug)]
pub struct Instruction {
    pub mnemonic: &'static str,
    pub args: Vec<Argument>,
    pub label: Option<Ident>,
}

impl Instruction {
    pub fn new(mnemonic: &'static str, args: Vec<Argument>) -> (r: Instruction)
        ensures
            r.mnemonic == mnemonic,
            r.args@ == args@,
            r.label is None,
    {
        Instruction { mnemonic, args, label: None }
    }

    pub fn with_label(mnemonic: &'static str, args: Vec<Argument>, label: Ident) -> (r: Instruction)
        ensures
            r.mnemonic == mnemonic,
            r.args@ == args@,
            r.label == Some(label),
    {
        Instruction { mnemonic, args, label: Some(label) }
    }
}

#[derive(Debug)]
pub enum AssemblyLine {
    Directive(String),
    Instruction(Instruction),
}

/// A basic block: the lines selected for an IR block, the IR block's phi
/// functions and the labels of its successors
#[derive(Debug)]
pub struct Block {
    pub label: Ident,
    pub code: Vec<AssemblyLine>,
    pub phis: Vec<ir::Phi>,
    pub successors: Vec<Ident>,
}

impl Block {
    pub fn new(label: Ident) -> (r: Block)
        ensures
            r.label == label,
            r.code@.len() == 0,
            r.phis@.len() == 0,
            r.successors@.len() == 0,
    {
        Block { label, code: Vec::new(), phis: Vec::new(), successors: Vec::new() }
    }

    pub fn emit_instruction(&mut self, i: Instruction)
        ensures
            final(self).code@ == old(self).code@.push(AssemblyLine::Instruction(i)),
            final(self).label == old(self).label,
            final(self).phis == old(self).phis,
            final(self).successors == old(self).successors,
    {
        self.code.push(AssemblyLine::Instruction(i));
    }

    pub fn emit_directive(&mut self, d: String)
        ensures
            final(self).code@ == old(self).code@.push(AssemblyLine::Directive(d)),
            final(self).label == old(self).label,
            final(self).phis == old(self).phis,
            final(self).successors == old(self).successors,
    {
        self.code.push(AssemblyLine::Directive(d));
    }

    /// The number of lines
    pub fn len(&self) -> (r: usize)
        ensures
            r == self.code@.len(),
    {
        self.code.len()
    }
}

/// A function: its name and its blocks in order
#[derive(Debug)]
pub struct Function {
    pub name: Ident,
    pub code: Vec<Block>,
}

/// A whole program: the data section's lines and the functions
#[derive(Debug)]
pub struct Assembly {
    pub data: Vec<String>,
    pub fns: Vec<Function>,
}

impl Assembly {
    pub fn new() -> (r: Assembly)
        ensures
            r.data@.len() == 0,
            r.fns@.len() == 0,
    {
        Assembly { data: Vec::new(), fns: Vec::new() }
    }

    /// Append a line to the data section
    pub fn emit_data(&mut self, d: String)
        ensures
            final(self).data@ == old(self).data@.push(d),
            final(self).fns == old(self).fns,
    {
        self.data.push(d);
    }

    /// Append a block to the function `f` (a new function if `f` is not the
    /// last one)
    pub fn emit_block(&mut self, f: Ident, b: Block)
        ensures
            final(self).data == old(self).data,
            final(self).fns@.len() > 0,
            final(self).fns@.last().name == f,
            final(self).fns@.last().code@.last() == b,
            old(self).fns@.len() > 0 && old(self).fns@.last().name == f ==>
                final(self).fns@.len() == old(self).fns@.len()
                && final(self).fns@.last().code@ == old(self).fns@.last().code@.push(b),
            !(old(self).fns@.len() > 0 && old(self).fns@.last().name == f) ==>
                final(self).fns@.len() == old(self).fns@.len() + 1
                && final(self).fns@.last().code@ == seq![b],
            forall|i: int| 0 <= i < old(self).fns@.len() - 1 ==> final(self).fns@[i] == old(self).fns@[i],
            !(old(self).fns@.len() > 0 && old(self).fns@.last().name == f) ==>
                forall|i: int| 0 <= i < old(self).fns@.len() ==> final(self).fns@[i] == old(self).fns@[i],
    {
        let n = self.fns.len();
        if n > 0 && self.fns[n - 1].name == f {
            let mut last = self.fns.pop().unwrap();
            last.code.push(b);
            self.fns.push(last);
        } else {
            let mut code: Vec<Block> = Vec::new();
            code.push(b);
            assert(code@ =~= seq![b]);
            self.fns.push(Function { name: f, code });
        }
    }

    /// Append a line to the last block of function `f` (a block labelled `f`
    /// in a new function if `f` is not the last function)
    fn emit_line(&mut self, f: Ident, l: AssemblyLine)
        ensures
            final(self).data == old(self).data,
            final(self).fns@.len() > 0,
            final(self).fns@.last().name == f,
    {
        let n = self.fns.len();
        if n > 0 && self.fns[n - 1].name == f && self.fns[n - 1].code.len() > 0 {
            let mut last = self.fns.pop().unwrap();
            let mut b = last.code.pop().unwrap();
            b.code.push(l);
            last.code.push(b);
            self.fns.push(last);
        } else {
            let mut b = Block::new(f);
            b.code.push(l);
            self.emit_block(f, b);
        }
    }

    /// Append an instruction to function `f`
    pub fn emit_instruction(&mut self, f: Ident, i: Instruction)
        ensures
            final(self).data == old(self).data,
            final(self).fns@.len() > 0,
            final(self).fns@.last().name == f,
    {
        self.emit_line(f, AssemblyLine::Instruction(i));
    }

    /// Append a directive to function `f`
    pub fn emit_directive(&mut self, f: Ident, d: String)
        ensures
            final(self).data == old(self).data,
            final(self).fns@.len() > 0,
            final(self).fns@.last().name == f,
    {
        self.emit_line(f, AssemblyLine::Directive(d));
    }
}

// --- The text of the assembly -------------------------------------------------

/// The name of an identifier (empty if the interner does not know it)
pub open spec fn name_text(id: Ident, names: Seq<Seq<char>>) -> Seq<char> {
    if id.0 < names.len() { names[id.0 as int] } else { Seq::empty() }
}

pub open spec fn register_text(r: Register, names: Seq<Seq<char>>) -> Seq<char> {
    match r {
        Register::Machine(m) => machine_register_text(m),
        Register::Virtual(id) => "%"@ + name_text(id, names),
    }
}

pub open spec fn size_text(s: OperandSize) -> Seq<char> {
    match s {
        OperandSize::Byte => "byte ptr "@,
        OperandSize::Word => "word ptr "@,
        OperandSize::DWord => "dword ptr "@,
        OperandSize::QWord => "qword ptr "@,
    }
}

/// The parts of a memory operand that are present: base, `index * scale`,
/// displacement
pub open spec fn indirect_parts(base: Option<Register>, index: Option<(Register, u32)>, disp: Option<i32>, names: Seq<Seq<char>>) -> Seq<Seq<char>> {
    (match base { Some(b) => seq![register_text(b, names)], None => Seq::empty() })
    + (match index { Some((i, k)) => seq![register_text(i, names) + " * "@ + decimal(k as nat)], None => Seq::empty() })
    + (match disp { Some(d) => seq![signed_decimal(d as int)], None => Seq::empty() })
}

pub open spec fn argument_text(a: Argument, names: Seq<Seq<char>>) -> Seq<char> {
    match a {
        Argument::Immediate(v) => decimal(v as nat),
        Argument::Address(id) => name_text(id, names),
        Argument::Label(id) => name_text(id, names),
        Argument::Register(r) => register_text(r, names),
        Argument::StackSlot(id) => "{"@ + name_text(id, names) + "}"@,
        Argument::Indirect { size, base, index, disp } => (match size { Some(s) => size_text(s), None => Seq::empty() })
            + "["@ + join(indirect_parts(base, index, disp, names), " + "@) + "]"@,
    }
}

/// The arguments' texts
pub open spec fn arguments_texts(args: Seq<Argument>, names: Seq<Seq<char>>) -> Seq<Seq<char>> {
    args.map_values(|a: Argument| argument_text(a, names))
}

/// An instruction: its label on a line of its own, if any, then the indented
/// mnemonic and the arguments separated by `, `
pub open spec fn instruction_text(i: Instruction, names: Seq<Seq<char>>) -> Seq<char> {
    (match i.label { Some(l) => name_text(l, names) + ":\n"@, None => Seq::empty() })
        + "    "@ + i.mnemonic@ + " "@ + join(arguments_texts(i.args@, names), ", "@)
}

pub open spec fn line_text(l: AssemblyLine, names: Seq<Seq<char>>) -> Seq<char> {
    match l {
        AssemblyLine::Directive(d) => d@,
        AssemblyLine::Instruction(i) => instruction_text(i, names),
    }
}

/// Lines, each followed by a newline
pub open spec fn lines_text(ls: Seq<AssemblyLine>, names: Seq<Seq<char>>) -> Seq<char>
    decreases ls.len(),
{
    if ls.len() == 0 {
        Seq::empty()
    } else {
        lines_text(ls.drop_last(), names) + line_text(ls.last(), names) + "\n"@
    }
}

pub open spec fn blocks_text(bs: Seq<Block>, names: Seq<Seq<char>>) -> Seq<char>
    decreases bs.len(),
{
    if bs.len() == 0 {
        Seq::empty()
    } else {
        blocks_text(bs.drop_last(), names) + lines_text(bs.last().code@, names)
    }
}

pub open spec fn functions_text(fs: Seq<Function>, names: Seq<Seq<char>>) -> Seq<char>
    decreases fs.len(),
{
    if fs.len() == 0 {
        Seq::empty()
    } else {
        functions_text(fs.drop_last(), names) + blocks_text(fs.last().code@, names)
    }
}

/// Strings, each followed by a newline
pub open spec fn data_text(ds: Seq<String>) -> Seq<char>
    decreases ds.len(),
{
    if ds.len() == 0 {
        Seq::empty()
    } else {
        data_text(ds.drop_last()) + ds.last()@ + "\n"@
    }
}

/// The program: the syntax directive, the data section (if any data) and
/// the code
pub open spec fn assembly_text(a: Assembly, names: Seq<Seq<char>>) -> Seq<char> {
    ".intel_syntax noprefix\n"@
        + (if a.data@.len() == 0 { Seq::empty() } else { "\n.data\n.align 4\n"@ + data_text(a.data@) + "\n"@ })
        + ".text\n"@ + functions_text(a.fns@, names)
}

// --- Printing -----------------------------------------------------------------

pub fn push_name(s: &mut String, id: Ident, interner: &Interner)
    ensures
        final(s)@ == old(s)@ + name_text(id, interner@),
{
    if id.0 < interner.len() {
        push_chars(s, interner.resolve(id));
    } else {
        assert(old(s)@ + Seq::<char>::empty() =~= old(s)@);
    }
}

pub fn push_register(s: &mut String, r: Register, interner: &Interner)
    ensures
        final(s)@ == old(s)@ + register_text(r, interner@),
{
    let ghost s0 = s@;
    match r {
        Register::Machine(m) => push_str(s, m.name()),
        Register::Virtual(id) => {
            push_str(s, "%");
            push_name(s, id, interner);
            assert(s@ =~= s0 + register_text(r, interner@));
        },
    }
}

fn size_name(size: OperandSize) -> (r: &'static str)
    ensures
        r@ == size_text(size),
{
    match size {
        OperandSize::Byte => "byte ptr ",
        OperandSize::Word => "word ptr ",
        OperandSize::DWord => "dword ptr ",
        OperandSize::QWord => "qword ptr ",
    }
}

pub fn push_argument(s: &mut String, a: Argument, interner: &Interner)
    ensures
        final(s)@ == old(s)@ + argument_text(a, interner@),
{
    let ghost s0 = s@;
    match a {
        Argument::Immediate(v) => push_u64(s, v),
        Argument::Address(id) => push_name(s, id, interner),
        Argument::Label(id) => push_name(s, id, interner),
        Argument::Register(r) => push_register(s, r, interner),
        Argument::StackSlot(id) => {
            push_str(s, "{");
            push_name(s, id, interner);
            push_str(s, "}");
        },
        Argument::Indirect { size, base, index, disp } => push_indirect(s, size, base, index, disp, interner),
    }
    assert(s@ =~= s0 + argument_text(a, interner@));
}

/// Append a memory operand
fn push_indirect(s: &mut String, size: Option<OperandSize>, base: Option<Register>, index: Option<(Register, u32)>, disp: Option<i32>, interner: &Interner)
    ensures
        final(s)@ == old(s)@ + argument_text(Argument::Indirect { size, base, index, disp }, interner@),
{
    let ghost s0 = s@;
    if let Some(sz) = size {
        push_str(s, size_name(sz));
    }
    push_str(s, "[");
    let mut parts: Vec<String> = Vec::new();
    if let Some(b) = base {
        let mut p = String::new();
        push_register(&mut p, b, interner);
        parts.push(p);
    }
    let ghost n1 = parts@.len();
    if let Some((i, k)) = index {
        let mut p = String::new();
        push_register(&mut p, i, interner);
        push_str(&mut p, " * ");
        push_u64(&mut p, k as u64);
        parts.push(p);
    }
    let ghost n2 = parts@.len();
    if let Some(d) = disp {
        let mut p = String::new();
        push_i64(&mut p, d as i64);
        parts.push(p);
    }
    assert(texts(parts@) =~= indirect_parts(base, index, disp, interner@));
    push_join(s, &parts, " + ");
    push_str(s, "]");
    assert(s@ =~= s0 + argument_text(Argument::Indirect { size, base, index, disp }, interner@));
}

pub fn push_instruction(s: &mut String, i: &Instruction, interner: &Interner)
    ensures
        final(s)@ == old(s)@ + instruction_text(*i, interner@),
{
    let ghost s0 = s@;
    if let Some(l) = i.label {
        push_name(s, l, interner);
        push_str(s, ":\n");
    }
    push_str(s, "    ");
    push_str(s, i.mnemonic);
    push_str(s, " ");
    let ghost s1 = s@;
    let mut k: usize = 0;
    while k < i.args.len()
        invariant
            k <= i.args@.len(),
            s@ == s1 + join(arguments_texts(i.args@.subrange(0, k as int), interner@), ", "@),
        decreases i.args@.len() - k,
    {
        if k > 0 {
            push_str(s, ", ");
        }
        push_argument(s, i.args[k], interner);
        proof {
            let q = i.args@.subrange(0, k + 1);
            let tq = arguments_texts(q, interner@);
            assert(tq.drop_last() =~= arguments_texts(i.args@.subrange(0, k as int), interner@));
            assert(tq.last() == argument_text(i.args@[k as int], interner@));
            if k == 0 {
                assert(tq =~= seq![tq.last()]);
            }
            assert(s@ =~= s1 + join(tq, ", "@));
        }
        k = k + 1;
    }
    assert(i.args@.subrange(0, i.args@.len() as int) =~= i.args@);
    assert(s@ =~= s0 + instruction_text(*i, interner@));
}

pub fn push_line(s: &mut String, l: &AssemblyLine, interner: &Interner)
    ensures
        final(s)@ == old(s)@ + line_text(*l, interner@),
{
    match l {
        AssemblyLine::Directive(d) => push_str(s, d.as_str()),
        AssemblyLine::Instruction(i) => push_instruction(s, i, interner),
    }
}

impl Assembly {
    /// The assembly's text
    pub fn to_text(&self, interner: &Interner) -> (r: String)
        ensures
            r@ == assembly_text(*self, interner@),
    {
        let mut s = String::new();
        push_str(&mut s, ".intel_syntax noprefix\n");
        if self.data.len() > 0 {
            push_str(&mut s, "\n.data\n.align 4\n");
            let ghost s1 = s@;
            let mut i: usize = 0;
            while i < self.data.len()
                invariant
                    i <= self.data@.len(),
                    s@ == s1 + data_text(self.data@.subrange(0, i as int)),
                decreases self.data@.len() - i,
            {
                push_str(&mut s, self.data[i].as_str());
                push_str(&mut s, "\n");
                proof {
                    let q = self.data@.subrange(0, i + 1);
                    assert(q.drop_last() =~= self.data@.subrange(0, i as int));
                    assert(s@ =~= s1 + data_text(q));
                }
                i = i + 1;
            }
            assert(self.data@.subrange(0, self.data@.len() as int) =~= self.data@);
            push_str(&mut s, "\n");
        }
        push_str(&mut s, ".text\n");
        let ghost s2 = s@;
        let mut f: usize = 0;
        while f < self.fns.len()
            invariant
                f <= self.fns@.len(),
                s@ == s2 + functions_text(self.fns@.subrange(0, f as int), interner@),
            decreases self.fns@.len() - f,
        {
            let ghost s3 = s@;
            let func = &self.fns[f];
            let mut b: usize = 0;
            while b < func.code.len()
                invariant
                    b <= func.code@.len(),
                    s@ == s3 + blocks_text(func.code@.subrange(0, b as int), interner@),
                decreases func.code@.len() - b,
            {
                let ghost s4 = s@;
                let block = &func.code[b];
                let mut l: usize = 0;
                while l < block.code.len()
                    invariant
                        l <= block.code@.len(),
                        s@ == s4 + lines_text(block.code@.subrange(0, l as int), interner@),
                    decreases block.code@.len() - l,
                {
                    push_line(&mut s, &block.code[l], interner);
                    push_str(&mut s, "\n");
                    proof {
                        let q = block.code@.subrange(0, l + 1);
                        assert(q.drop_last() =~= block.code@.subrange(0, l as int));
                        assert(s@ =~= s4 + lines_text(q, interner@));
                    }
                    l = l + 1;
                }
                proof {
                    assert(block.code@.subrange(0, block.code@.len() as int) =~= block.code@);
                    let q = func.code@.subrange(0, b + 1);
                    assert(q.drop_last() =~= func.code@.subrange(0, b as int));
                    assert(s@ =~= s3 + blocks_text(q, interner@));
                }
                b = b + 1;
            }
            proof {
                assert(func.code@.subrange(0, func.code@.len() as int) =~= func.code@);
                let q = self.fns@.subrange(0, f + 1);
                assert(q.drop_last() =~= self.fns@.subrange(0, f as int));
                assert(s@ =~= s2 + functions_text(q, interner@));
            }
            f = f + 1;
        }
        assert(self.fns@.subrange(0, self.fns@.len() as int) =~= self.fns@);
        s
    }
}

} // verus!
