//! The instruction selector
//!
//! A simple greedy selector: each IR instruction is translated by a fixed
//! rule (see `rules`), except that a comparison directly followed by a branch
//! on its result becomes a compare-and-jump.

pub mod rulecomp;
pub mod rules;

use vstd::prelude::*;
use crate::back::instsel::rules::{InstrView, as_lines, prefix_kept, compare_branch_rule, fuses, instruction_rule, last_rule, trans_compare_branch,
    trans_instruction, trans_last, views_of};
use crate::back::machine::assembly::{self, Argument, Assembly, AssemblyLine, Function};
use crate::driver::interner::{Ident, Interner};
use crate::middle::ir;
use crate::util::text::{decimal, push_str, push_u64, texts};

verus! {

/// A copy of a phi function
pub fn copy_phi(p: &ir::Phi) -> (r: ir::Phi)
    ensures
        r.dst == p.dst,
        r.srcs@ == p.srcs@,
{
    let mut srcs: Vec<(ir::Value, ir::Label)> = Vec::new();
    let mut i: usize = 0;
    while i < p.srcs.len()
        invariant
            i <= p.srcs@.len(),
            srcs@ == p.srcs@.subrange(0, i as int),
        decreases p.srcs@.len() - i,
    {
        srcs.push(p.srcs[i]);
        i = i + 1;
    }
    assert(srcs@ =~= p.srcs@);
    ir::Phi { srcs, dst: p.dst }
}

/// The directive `NAME:` (a label)
fn label_directive(id: Ident, interner: &Interner) -> (r: String)
    ensures
        r@ == assembly::name_text(id, interner@) + ":"@,
{
    let mut s = String::new();
    assembly::push_name(&mut s, id, interner);
    push_str(&mut s, ":");
    s
}

/// The directive `.globl NAME`
fn global_directive(id: Ident, interner: &Interner) -> (r: String)
    ensures
        r@ == ".globl "@ + assembly::name_text(id, interner@),
{
    let mut s = String::new();
    push_str(&mut s, ".globl ");
    assembly::push_name(&mut s, id, interner);
    s
}

/// The translations of instructions, one after the other
pub open spec fn instructions_rule(is: Seq<ir::Instruction>, pow: Ident) -> Seq<InstrView>
    decreases is.len(),
{
    if is.len() == 0 {
        Seq::empty()
    } else {
        instructions_rule(is.drop_last(), pow) + instruction_rule(is.last(), pow)
    }
}

/// The translation of a block's instructions and its control flow
/// instruction; a comparison at the end is fused with a branch on its result
pub open spec fn block_rule(is: Seq<ir::Instruction>, last: ir::ControlFlowInstruction, pow: Ident) -> Seq<InstrView> {
    if is.len() > 0 && fuses(is.last(), last) {
        instructions_rule(is.drop_last(), pow)
            + compare_branch_rule(is.last()->Cmp_op, is.last()->Cmp_lhs, is.last()->Cmp_rhs, last->Branch_conseq, last->Branch_altern)
    } else {
        instructions_rule(is, pow) + last_rule(last)
    }
}

/// The lines an assembly block starts with: for a function's first block, the
/// directives that make the function's name a global label and the
/// `enter 0, 0` of the prologue; then the block's label
pub open spec fn block_header(first: bool) -> Seq<Option<InstrView>> {
    if first {
        seq![None, None, Some(("enter"@, seq![Argument::Immediate(0), Argument::Immediate(0)])), None]
    } else {
        seq![None]
    }
}

/// A line is the directive `text`
pub open spec fn directive_is(l: AssemblyLine, text: Seq<char>) -> bool {
    l matches AssemblyLine::Directive(d) && d@ == text
}

/// The assembly block selected for an IR block
pub open spec fn translates_block(b: assembly::Block, irb: ir::Block, first: bool, fname: Ident, names: Seq<Seq<char>>, pow: Ident) -> bool {
    &&& b.label == irb.label.0
    &&& b.successors@ == ir::successors_spec(irb.last)
    &&& b.phis@.len() == irb.phis@.len()
    &&& forall|k: int| 0 <= k < b.phis@.len() ==> #[trigger] b.phis@[k].dst == irb.phis@[k].dst && b.phis@[k].srcs@ == irb.phis@[k].srcs@
    &&& views_of(b.code@) == block_header(first) + as_lines(block_rule(irb.inst@, irb.last, pow))
    &&& first ==> directive_is(b.code@[0], ".globl "@ + assembly::name_text(fname, names))
    &&& first ==> directive_is(b.code@[1], assembly::name_text(fname, names) + ":"@)
    &&& directive_is(b.code@[if first { 3int } else { 0int }], assembly::name_text(irb.label.0, names) + ":"@)
}

/// Translate the instructions of an IR block into an assembly block
fn trans_code(code: &mut assembly::Block, irb: &ir::Block, pow: Ident)
    ensures
        views_of(final(code).code@) == views_of(old(code).code@) + as_lines(block_rule(irb.inst@, irb.last, pow)),
        final(code).label == old(code).label,
        final(code).phis == old(code).phis,
        final(code).successors == old(code).successors,
        prefix_kept(old(code).code@, final(code).code@),
{
    let n = irb.inst.len();
    let fused = n > 0 && match &irb.inst[n - 1] {
        ir::Instruction::Cmp { dst, .. } => match irb.last {
            ir::ControlFlowInstruction::Branch { cond, .. } => cond == ir::Value::Register(*dst),
            _ => false,
        },
        _ => false,
    };
    let end = if fused { n - 1 } else { n };
    let ghost start = views_of(code.code@);
    let ghost old_code = code.code@;
    let mut i: usize = 0;
    while i < end
        invariant
            i <= end,
            end <= irb.inst@.len(),
            views_of(code.code@) == start + as_lines(instructions_rule(irb.inst@.subrange(0, i as int), pow)),
            code.label == old(code).label,
            code.phis == old(code).phis,
            code.successors == old(code).successors,
            prefix_kept(old_code, code.code@),
        decreases end - i,
    {
        let ghost before = code.code@;
        trans_instruction(code, &irb.inst[i], pow);
        proof {
            let q = irb.inst@.subrange(0, i + 1);
            assert(q.drop_last() =~= irb.inst@.subrange(0, i as int));
            assert(q.last() == irb.inst@[i as int]);
            assert(as_lines(instructions_rule(q, pow)) =~= as_lines(instructions_rule(irb.inst@.subrange(0, i as int), pow))
                + as_lines(instruction_rule(irb.inst@[i as int], pow)));
            assert(views_of(code.code@) =~= start + as_lines(instructions_rule(q, pow)));
            assert forall|k: int| 0 <= k < old_code.len() implies #[trigger] code.code@[k] == old_code[k] by {
                assert(before[k] == old_code[k]);
            }
        }
        i = i + 1;
    }
    if fused {
        if let ir::Instruction::Cmp { op, lhs, rhs, .. } = &irb.inst[n - 1] {
            if let ir::ControlFlowInstruction::Branch { conseq, altern, .. } = irb.last {
                trans_compare_branch(code, *op, *lhs, *rhs, conseq, altern);
            }
        }
        proof {
            assert(irb.inst@.subrange(0, (n - 1) as int) =~= irb.inst@.drop_last());
        }
    } else {
        trans_last(code, &irb.last);
        proof {
            assert(irb.inst@.subrange(0, n as int) =~= irb.inst@);
        }
    }
    proof {
        assert(views_of(code.code@) =~= views_of(old_code) + as_lines(block_rule(irb.inst@, irb.last, pow)));
    }
}

/// Translate an IR block into an assembly block; the first block of a
/// function starts with the function's prologue
pub fn trans_block(irb: &ir::Block, first: bool, fname: Ident, interner: &Interner, pow: Ident) -> (r: assembly::Block)
    ensures
        translates_block(r, *irb, first, fname, interner@, pow),
{
    let mut b = assembly::Block::new(irb.label.0);
    if first {
        // Function prologue
        b.emit_directive(global_directive(fname, interner));
        b.emit_directive(label_directive(fname, interner));
        b.emit_instruction(crate::back::machine::cconv::binary("enter", Argument::Immediate(0), Argument::Immediate(0)));
    }
    b.emit_directive(label_directive(irb.label.0, interner));
    assert(views_of(b.code@) =~= block_header(first));
    // Pass the phi functions on
    let mut k: usize = 0;
    while k < irb.phis.len()
        invariant
            k <= irb.phis@.len(),
            b.label == irb.label.0,
            b.successors@.len() == 0,
            views_of(b.code@) == block_header(first),
            first ==> directive_is(b.code@[0], ".globl "@ + assembly::name_text(fname, interner@)),
            first ==> directive_is(b.code@[1], assembly::name_text(fname, interner@) + ":"@),
            directive_is(b.code@[if first { 3int } else { 0int }], assembly::name_text(irb.label.0, interner@) + ":"@),
            b.code@.len() == if first { 4int } else { 1int },
            b.phis@.len() == k,
            forall|j: int| 0 <= j < k ==> #[trigger] b.phis@[j].dst == irb.phis@[j].dst && b.phis@[j].srcs@ == irb.phis@[j].srcs@,
        decreases irb.phis@.len() - k,
    {
        b.phis.push(copy_phi(&irb.phis[k]));
        k = k + 1;
    }
    let ghost header = b.code@;
    trans_code(&mut b, irb, pow);
    proof {
        assert(b.code@[0] == header[0]);
        if first {
            assert(b.code@[1] == header[1]);
            assert(b.code@[3] == header[3]);
        }
    }
    b.successors = irb.last.successors();
    b
}

/// The globals of an IR program, in order
pub open spec fn globals_of(p: Seq<ir::Symbol>) -> Seq<(Ident, ir::Immediate)>
    decreases p.len(),
{
    if p.len() == 0 {
        Seq::empty()
    } else {
        globals_of(p.drop_last()) + match p.last() {
            ir::Symbol::Global { name, value } => seq![(name, value)],
            _ => Seq::empty(),
        }
    }
}

/// The positions of the functions of an IR program, in order
pub open spec fn functions_of(p: Seq<ir::Symbol>) -> Seq<int>
    decreases p.len(),
{
    if p.len() == 0 {
        Seq::empty()
    } else {
        functions_of(p.drop_last()) + if p.last() is Function { seq![p.len() - 1] } else { Seq::empty() }
    }
}

/// The data section of the globals: each global's label and value
pub open spec fn data_of(gs: Seq<(Ident, ir::Immediate)>, names: Seq<Seq<char>>) -> Seq<Seq<char>>
    decreases gs.len(),
{
    if gs.len() == 0 {
        Seq::empty()
    } else {
        data_of(gs.drop_last(), names) + seq![assembly::name_text(gs.last().0, names) + ":"@, ".long "@ + decimal(gs.last().1.0 as nat)]
    }
}

/// The assembly function selected for an IR function
pub open spec fn translates_function(f: Function, s: ir::Symbol, names: Seq<Seq<char>>, pow: Ident) -> bool {
    &&& s is Function
    &&& f.name == s->Function_name
    &&& f.code@.len() == s->Function_body@.len()
    &&& forall|k: int| 0 <= k < f.code@.len() ==>
        translates_block(#[trigger] f.code@[k], s->Function_body@[k], k == 0, f.name, names, pow)
}

/// The assembly selected for an IR program: the globals' data, and for each
/// function of the IR, in order, its assembly function (`pow`, the name of
/// the exponentiation intrinsic, interned in `names`)
pub open spec fn selects_program(ir: Seq<ir::Symbol>, a: Assembly, names: Seq<Seq<char>>) -> bool {
    &&& texts(a.data@) == data_of(globals_of(ir), names)
    &&& a.fns@.len() == functions_of(ir).len()
    &&& exists|pow: Ident| #![trigger names[pow.0 as int]] pow.0 < names.len() && names[pow.0 as int] == "pow"@
        && forall|j: int| 0 <= j < a.fns@.len() ==>
            translates_function(#[trigger] a.fns@[j], ir[functions_of(ir)[j]], names, pow)
}

/// Translate the IR program into assembly: the globals into the data
/// section, the functions block by block (`pow` is called as an intrinsic)
pub fn select_instructions(program: &ir::Program, interner: &mut Interner) -> (r: Assembly)
    requires
        old(interner).wf(),
    ensures
        final(interner).wf(),
        forall|i: int| 0 <= i < old(interner)@.len() ==> #[trigger] final(interner)@[i] == old(interner)@[i],
        old(interner)@.len() <= final(interner)@.len(),
        texts(r.data@) == data_of(globals_of(program.0@), final(interner)@),
        r.fns@.len() == functions_of(program.0@).len(),
        exists|pow: Ident| #![trigger final(interner)@[pow.0 as int]] pow.0 < final(interner)@.len() && final(interner)@[pow.0 as int] == "pow"@
            && forall|j: int| 0 <= j < r.fns@.len() ==>
                translates_function(#[trigger] r.fns@[j], program.0@[functions_of(program.0@)[j]], final(interner)@, pow),
        selects_program(program.0@, r, final(interner)@),
{
    let pow = interner.intern_str("pow");
    let interner: &Interner = interner;
    let symbols = &program.0;
    let mut a = Assembly::new();
    // Translate all globals
    let mut i: usize = 0;
    while i < symbols.len()
        invariant
            i <= symbols@.len(),
            texts(a.data@) == data_of(globals_of(symbols@.subrange(0, i as int)), interner@),
            a.fns@.len() == 0,
        decreases symbols@.len() - i,
    {
        let ghost data0 = a.data@;
        let ghost g = globals_of(symbols@.subrange(0, i as int));
        let ghost q = symbols@.subrange(0, i + 1);
        proof {
            assert(q.drop_last() =~= symbols@.subrange(0, i as int));
            assert(q.last() == symbols@[i as int]);
        }
        if let ir::Symbol::Global { name, value } = &symbols[i] {
            a.emit_data(label_directive(*name, interner));
            let mut d = String::new();
            push_str(&mut d, ".long ");
            push_u64(&mut d, value.0 as u64);
            a.emit_data(d);
            proof {
                let g2 = globals_of(q);
                assert(g2 =~= g + seq![(*name, *value)]);
                assert(g2.drop_last() =~= g);
                assert(texts(a.data@) =~= texts(data0) + seq![assembly::name_text(*name, interner@) + ":"@, ".long "@ + decimal(value.0 as nat)]);
                assert(texts(a.data@) =~= data_of(g2, interner@));
            }
        } else {
            proof {
                assert(globals_of(q) =~= g);
            }
        }
        i = i + 1;
    }
    assert(symbols@.subrange(0, symbols@.len() as int) =~= symbols@);
    // Translate all functions
    let mut i: usize = 0;
    while i < symbols.len()
        invariant
            i <= symbols@.len(),
            texts(a.data@) == data_of(globals_of(symbols@), interner@),
            a.fns@.len() == functions_of(symbols@.subrange(0, i as int)).len(),
            forall|j: int| 0 <= j < a.fns@.len() ==>
                translates_function(#[trigger] a.fns@[j], symbols@[functions_of(symbols@.subrange(0, i as int))[j]], interner@, pow),
            forall|j: int| 0 <= j < functions_of(symbols@.subrange(0, i as int)).len() ==>
                0 <= #[trigger] functions_of(symbols@.subrange(0, i as int))[j] < i,
        decreases symbols@.len() - i,
    {
        let ghost before = functions_of(symbols@.subrange(0, i as int));
        if let ir::Symbol::Function { name, body, .. } = &symbols[i] {
            let mut code: Vec<assembly::Block> = Vec::new();
            let mut k: usize = 0;
            while k < body.len()
                invariant
                    k <= body@.len(),
                    code@.len() == k,
                    forall|m: int| 0 <= m < k ==> translates_block(#[trigger] code@[m], body@[m], m == 0, *name, interner@, pow),
                decreases body@.len() - k,
            {
                code.push(trans_block(&body[k], k == 0, *name, interner, pow));
                k = k + 1;
            }
            a.fns.push(Function { name: *name, code });
        }
        proof {
            let q = symbols@.subrange(0, i + 1);
            assert(q.drop_last() =~= symbols@.subrange(0, i as int));
            assert(q.last() == symbols@[i as int]);
            let after = functions_of(q);
            assert forall|j: int| 0 <= j < before.len() implies after[j] == before[j] by {}
        }
        i = i + 1;
    }
    a
}

} // verus!
