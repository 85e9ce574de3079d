//! Liveness analysis of the IR
//!
//! The analysis records, for each function and register, the instructions at
//! which the register is live, in order. The analyzer does not compute any
//! ranges yet: it gives an empty analysis.

use vstd::prelude::*;
use crate::driver::interner::Ident;
use crate::middle::ir;
use crate::middle::ir::visit::{IrRef, Visitor};

verus! {

/// An instruction of a function: the control flow instruction of a block, or
/// an instruction of a block by its position
#[derive(Clone, Copy, Debug, PartialEq, Eq, Structural)]
pub enum InstructionRef {
    ControlFlow { block: usize },
    Regular { block: usize, index: usize },
}

/// The instructions at which a register is live, in order
#[derive(Debug)]
pub struct LivenessRange(pub Vec<InstructionRef>);

/// The liveness ranges of a function's registers
#[derive(Debug)]
pub struct Liveness {
    pub ranges: Vec<(Ident, LivenessRange)>,
}

/// The range of a register: that of its first entry
pub open spec fn range_of(ranges: Seq<(Ident, LivenessRange)>, reg: Ident) -> Option<Seq<InstructionRef>>
    decreases ranges.len(),
{
    if ranges.len() == 0 {
        None
    } else if ranges[0].0 == reg {
        Some(ranges[0].1.0@)
    } else {
        range_of(ranges.drop_first(), reg)
    }
}

impl Liveness {
    /// Whether `instr` is the last instruction at which `reg` is live
    pub fn is_last(&self, reg: Ident, instr: &InstructionRef) -> (r: bool)
        requires
            range_of(self.ranges@, reg) is Some,
        ensures
            r == (range_of(self.ranges@, reg).unwrap().len() > 0 && range_of(self.ranges@, reg).unwrap().last() == *instr),
    {
        let mut i: usize = 0;
        assert(self.ranges@.subrange(0, self.ranges@.len() as int) =~= self.ranges@);
        while i < self.ranges.len()
            invariant
                i <= self.ranges@.len(),
                range_of(self.ranges@, reg) == range_of(self.ranges@.subrange(i as int, self.ranges@.len() as int), reg),
            decreases self.ranges@.len() - i,
        {
            let ghost rest = self.ranges@.subrange(i as int, self.ranges@.len() as int);
            assert(rest[0] == self.ranges@[i as int]);
            if self.ranges[i].0 == reg {
                let range = &self.ranges[i].1.0;
                let n = range.len();
                return n > 0 && range[n - 1] == *instr;
            }
            assert(rest.drop_first() =~= self.ranges@.subrange(i + 1, self.ranges@.len() as int));
            i = i + 1;
        }
        false
    }
}

/// The liveness of each function
#[derive(Debug)]
pub struct LivenessAnalysis(pub Vec<(Ident, Liveness)>);

/// The liveness analyzer
pub struct LivenessAnalyzer {
    pub current_function: Option<Ident>,
    pub result: LivenessAnalysis,
    /// The parts of the IR the analyzer was shown
    pub shown: Ghost<Seq<IrRef>>,
}

impl Visitor for LivenessAnalyzer {
    open spec fn log(&self) -> Seq<IrRef> {
        self.shown@
    }

    /// Entering a symbol: the function being analyzed is this one (none for a global)
    fn visit_symbol(&mut self, symbol: &ir::Symbol)
        ensures
            final(self).current_function == (match *symbol {
                ir::Symbol::Function { name, .. } => Some(name),
                ir::Symbol::Global { .. } => None::<Ident>,
            }),
    {
        self.current_function = match symbol {
            ir::Symbol::Function { name, .. } => Some(*name),
            ir::Symbol::Global { .. } => None,
        };
        proof {
            self.shown@ = self.shown@.push(IrRef::Symbol(ir::symbol_name(*symbol)));
        }
    }

    fn visit_block(&mut self, block: &ir::Block) {
        proof {
            self.shown@ = self.shown@.push(IrRef::Block(block.label));
        }
    }

    fn visit_instruction(&mut self, instr: &ir::Instruction) {
        proof {
            self.shown@ = self.shown@.push(IrRef::Instruction(*instr));
        }
    }

    fn visit_cf_instruction(&mut self, instr: &ir::ControlFlowInstruction) {
        proof {
            self.shown@ = self.shown@.push(IrRef::ControlFlow(*instr));
        }
    }

    fn visit_ident(&mut self, id: Ident) {
        proof {
            self.shown@ = self.shown@.push(IrRef::Ident(id));
        }
    }

    fn visit_label(&mut self, label: ir::Label) {
        proof {
            self.shown@ = self.shown@.push(IrRef::Label(label));
        }
    }

    fn visit_value(&mut self, value: ir::Value) {
        proof {
            self.shown@ = self.shown@.push(IrRef::Value(value));
        }
    }

    fn visit_register(&mut self, reg: ir::Register) {
        proof {
            self.shown@ = self.shown@.push(IrRef::Register(reg));
        }
    }
}

impl LivenessAnalyzer {
    /// Analyze a program (no ranges are computed yet)
    pub fn run(code: &ir::Program) -> (r: LivenessAnalysis)
        ensures
            r.0@.len() == 0,
    {
        let analyzer = LivenessAnalyzer {
            current_function: None,
            result: LivenessAnalysis(Vec::new()),
            shown: Ghost(Seq::empty()),
        };
        analyzer.result
    }
}

/// The liveness analysis of a program
pub fn calculate_liveness(code: &ir::Program) -> (r: LivenessAnalysis)
    ensures
        r.0@.len() == 0,
{
    LivenessAnalyzer::run(code)
}

} // verus!
