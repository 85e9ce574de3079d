//! AST -> IR Translation
//!
//! This module translates the tree-like AST representation into the more
//! linear intermediate representation (IR). In the process, the code is made
//! more explicit. This includes the evaluation order, the storage location of
//! temporary values and (conditional) branch information.
//!
//! # Register-to-register IR
//!
//! The IR assumes an infinite number of registers, and instructions operate
//! only on registers (and immediate values). Variables live in stack slots:
//! a declaration allocates one (`alloca`, always in the function's first
//! block), a use loads from it and an assignment stores to it.
//!
//! # Implementation notes
//!
//! Each translation function takes a mutable reference to the current block.
//! That way we can commit the current block and continue with a new block in
//! the middle of a function (see `commit_block_and_continue`). Code that
//! follows a `return` or a `break` in the same block goes into a fresh block
//! that nothing jumps to.

pub mod code;
mod controlflow;
mod expr;

use vstd::prelude::*;
use std::collections::HashMap;
use crate::driver::interner::Ident;
use crate::driver::session::{Diagnostic, Session};
use crate::driver::symbol_table::{SymbolTable, Variable};
use crate::front::ast;
use crate::middle::ir::{self, Register};
use crate::util::text::{decimal, lemma_decimal_injective, lemma_decimal_len, push_chars, push_str, push_u64, string_of};
use crate::middle::ir::trans::code::{
    appended, appends, body_grows, constant_of, dest_code, kind_of, lemma_appends_refl, lemma_appends_trans, lemma_stmts_code_push, slot_of,
    stmts_code, straight, straight_stmts,
};

verus! {

broadcast use vstd::std_specs::hash::group_hash_axioms;

/// Information about the function that we're translating right now
pub struct FunctionContext {
    /// The committed blocks of the function body
    pub body: Vec<ir::Block>,
    /// The names of the stack slots in use
    pub stack_slots: Vec<Ident>,
    /// The current block's scope
    pub scope: ast::NodeId,
    /// The slot the return value is stored in, if the function returns a value
    pub return_slot: Option<Register>,
    /// The label of the block that returns from the function
    pub return_label: ir::Label,
    /// Whether a `return` was translated
    pub returned: bool,
    /// The number of the next free register
    pub next_register: u32,
    /// The current loop's exit
    pub loop_exit: Option<ir::Label>,
}

/// How a name used as a variable is stored
#[derive(Clone, Copy, Debug, PartialEq, Eq, Structural)]
pub enum VariableKind {
    /// In a stack slot of the function
    Stack,
    Static,
    Constant,
}

/// The destination of a computation
///
/// Sometimes we want an expression to store its result in a specific register.
/// This is expressed by `Dest::Store(..)`. But sometimes we just want the
/// computation and don't care about where the result is stored. This
/// behaviour can be requested by using `Dest::Ignore`.
#[derive(Clone, Copy, Debug)]
pub enum Dest {
    Store(Register),
    Ignore,
}

/// The AST -> IR translator
pub struct Translator {
    pub ir: ir::Program,
    pub fcx: FunctionContext,
    /// As the translator might want to use the same label multiple times, we
    /// always append an index to it; the last index of each base name
    pub next_label: HashMap<usize, u32>,
    pub session: Session,
}

/// The IR symbol of an AST symbol, the symbol table `t` holding the stack
/// slots of its variables: a global for a static, nothing for a constant
/// (its uses are replaced by its value), and a function whose blocks all end
/// with a control flow instruction; where the function's body has no control
/// flow, its code is that of the body's statements and value
pub open spec fn translates_symbol(s: ast::Symbol, out: Seq<ir::Symbol>, t: SymbolTable) -> bool {
    match s {
        ast::Symbol::Static { binding, value } => out.len() == 1 && value.node is Literal && out[0] == (ir::Symbol::Global {
            name: binding.node.name.node,
            value: ir::Immediate(ast::value_bits(value.node->Literal_val)),
        }),
        ast::Symbol::Constant { .. } => out.len() == 0,
        ast::Symbol::Function { name, bindings, ret_ty, body } => out.len() == 1 && translates_function(name.node, bindings@, out[0])
            && (ret_ty == ast::Type::Unit && straight_stmts(body.node.stmts@) && straight(body.node.expr.node)
                ==> void_straight_function(out[0], t, body.id, body.node))
            && (ret_ty != ast::Type::Unit && straight_stmts(body.node.stmts@) && straight(body.node.expr.node)
                ==> valued_straight_function(out[0], t, body.id, body.node)),
    }
}

/// The IR of a function without a value whose body has no control flow: a
/// single block, which computes the body's statements and value one after
/// the other and returns
pub open spec fn void_straight_function(f: ir::Symbol, t: SymbolTable, scope: ast::NodeId, body: ast::Block) -> bool {
    &&& f matches ir::Symbol::Function { body: blocks, .. }
    &&& f->Function_body@.len() == 1
    &&& f->Function_body@[0].last == (ir::ControlFlowInstruction::Return { value: None })
    &&& f->Function_body@[0].phis@.len() == 0
    &&& exists|k: int| 0 <= k <= f->Function_body@[0].inst@.len()
        && stmts_code(t, scope, body.stmts@, #[trigger] f->Function_body@[0].inst@.subrange(0, k))
        && dest_code(t, scope, body.expr.node, Dest::Ignore,
            f->Function_body@[0].inst@.subrange(k, f->Function_body@[0].inst@.len() as int))
}

/// The IR of a function with a value whose body has no control flow: the
/// entry block allocates the return slot, computes the body's statements
/// and value, stores the value in the slot and jumps to the return block,
/// which loads the slot and returns what it read
pub open spec fn valued_straight_function(f: ir::Symbol, t: SymbolTable, scope: ast::NodeId, body: ast::Block) -> bool {
    &&& f matches ir::Symbol::Function { .. }
    &&& f->Function_body@.len() == 2
    &&& f->Function_body@[1].inst@.len() == 1
    &&& f->Function_body@[1].inst@[0] matches ir::Instruction::Load { src: ir::Value::Register(slot), dst: rv }
    &&& f->Function_body@[1].last == (ir::ControlFlowInstruction::Return { value: Some(ir::Value::Register(rv)) })
    &&& f->Function_body@[0].last == (ir::ControlFlowInstruction::Jump { dest: f->Function_body@[1].label })
    &&& exists|v: Register, is: Seq<ir::Instruction>, k: int|
        #![trigger ir::with_alloca(is.push(ir::Instruction::Store { src: ir::Value::Register(v), dst: ir::Value::Register(slot) }), slot), is.subrange(0, k)]
        f->Function_body@[0].inst@ == ir::with_alloca(
            is.push(ir::Instruction::Store { src: ir::Value::Register(v), dst: ir::Value::Register(slot) }), slot)
        && 0 <= k <= is.len()
        && stmts_code(t, scope, body.stmts@, is.subrange(0, k))
        && dest_code(t, scope, body.expr.node, Dest::Store(v), is.subrange(k, is.len() as int))
}

/// The IR function that a function with this name and bindings becomes:
/// its arguments are the bindings' names and its blocks all end with a
/// control flow instruction
pub open spec fn translates_function(name: Ident, bindings: Seq<ast::Node<ast::Binding>>, out: ir::Symbol) -> bool {
    &&& out matches ir::Symbol::Function { name: n, body, args }
    &&& out->Function_name == name
    &&& out->Function_args@.len() == bindings.len()
    &&& forall|i: int| 0 <= i < bindings.len() ==> #[trigger] out->Function_args@[i] == bindings[i].node.name.node
    &&& out->Function_body@.len() > 0
    &&& forall|i: int| 0 <= i < out->Function_body@.len() ==> (#[trigger] out->Function_body@[i]).spec_finalized()
}

/// The position of a name among the interned names
pub open spec fn name_index(names: Seq<Seq<char>>, name: Seq<char>) -> int {
    choose|i: int| 0 <= i < names.len() && names[i] == name
}

/// Among distinct names, a name's position is where it stands
pub proof fn lemma_name_index(names: Seq<Seq<char>>, name: Seq<char>, k: int)
    requires
        forall|i: int, j: int| 0 <= i < j < names.len() ==> names[i] != names[j],
        0 <= k < names.len(),
        names[k] == name,
    ensures
        name_index(names, name) == k,
{
    let i = name_index(names, name);
    assert(0 <= i < names.len() && names[i] == name);
    if i < k {
        assert(names[i] != names[k]);
    } else if k < i {
        assert(names[k] != names[i]);
    }
}

/// How many labels with the base name at index `k` were handed out
pub open spec fn label_count(counts: Map<usize, u32>, k: int) -> u32 {
    if counts.contains_key(k as usize) { counts[k as usize] } else { 0 }
}

/// A sequence without repeats, all of whose items occur in `b`, is no
/// longer than `b`
proof fn lemma_distinct_within(a: Seq<Ident>, b: Seq<Ident>)
    requires
        a.no_duplicates(),
        forall|x: Ident| a.contains(x) ==> b.contains(x),
    ensures
        a.len() <= b.len(),
{
    a.unique_seq_to_set();
    b.lemma_cardinality_of_set();
    assert(a.to_set().subset_of(b.to_set()));
    vstd::set_lib::lemma_len_subset(a.to_set(), b.to_set());
}

impl Translator {
    /// The translated program and the function's context are as in `old`
    /// (the function's blocks, the registers and stack slots aside)
    pub open spec fn frame(&self, old: &Translator) -> bool {
        &&& self.ir == old.ir
        &&& self.fcx.scope == old.fcx.scope
        &&& self.fcx.return_slot == old.fcx.return_slot
        &&& self.fcx.return_label == old.fcx.return_label
        &&& self.fcx.loop_exit == old.fcx.loop_exit
    }

    pub open spec fn wf(&self) -> bool {
        &&& self.session.wf()
        &&& forall|i: int| 0 <= i < self.fcx.body@.len() ==> (#[trigger] self.fcx.body@[i]).spec_finalized()
    }

    pub fn new(session: Session) -> (r: Translator)
        requires
            session.wf(),
        ensures
            r.wf(),
            r.ir.0@.len() == 0,
            r.session.symbol_table == session.symbol_table,
            r.next_label@ == Map::<usize, u32>::empty(),
    {
        let mut session = session;
        let return_label = ir::Label::from_str(&mut session.interner, "return");
        Translator {
            ir: ir::Program::new(),
            fcx: FunctionContext {
                body: Vec::new(),
                stack_slots: Vec::new(),
                scope: ast::NodeId(0xffff_ffff),
                return_slot: None,
                return_label,
                returned: false,
                next_register: 0,
                loop_exit: None,
            },
            next_label: HashMap::new(),
            session: Session {
                codemap: session.codemap,
                interner: session.interner,
                errors: session.errors,
                symbol_table: session.symbol_table,
            },
        }
    }

    /// An error of the translator
    fn error(&self, msg: &str) -> (r: Diagnostic)
        ensures
            r.msg@ == msg@,
    {
        Diagnostic::general(string_of(msg))
    }

    /// Get the next free register (named by its number)
    pub fn next_free_register(&mut self) -> (r: Result<Register, Diagnostic>)
        requires
            old(self).wf(),
        ensures
            final(self).wf(),
            final(self).fcx.returned == old(self).fcx.returned,
            final(self).frame(old(self)),
            final(self).fcx.body == old(self).fcx.body,
            final(self).session.symbol_table == old(self).session.symbol_table,
            r is Ok <==> old(self).fcx.next_register < u32::MAX,
            r matches Ok(reg) ==> reg matches Register::Local(id)
                && id.0 < final(self).session.interner@.len()
                && final(self).session.interner@[id.0 as int] == decimal(old(self).fcx.next_register as nat),
            r is Ok ==> final(self).fcx.next_register == old(self).fcx.next_register + 1,
            final(self).fcx.stack_slots == old(self).fcx.stack_slots,
            final(self).next_label == old(self).next_label,
    {
        if self.fcx.next_register == u32::MAX {
            return Err(self.error("too many registers"));
        }
        let n = self.fcx.next_register;
        self.fcx.next_register = n + 1;
        let mut name = String::new();
        push_u64(&mut name, n as u64);
        let id = self.session.interner.intern_str(name.as_str());
        Ok(Register::Local(id))
    }

    /// Get the next free label with a given base name (e.g. `next` -> `next2`)
    pub fn next_free_label(&mut self, basename: &str) -> (r: Result<ir::Label, Diagnostic>)
        requires
            old(self).wf(),
        ensures
            final(self).wf(),
            final(self).frame(old(self)),
            final(self).fcx.body == old(self).fcx.body,
            final(self).session.symbol_table == old(self).session.symbol_table,
            final(self).fcx == old(self).fcx,
            old(self).session.interner@.len() <= final(self).session.interner@.len(),
            forall|i: int| 0 <= i < old(self).session.interner@.len()
                ==> #[trigger] final(self).session.interner@[i] == old(self).session.interner@[i],
            ({
                let k = name_index(final(self).session.interner@, basename@);
                let c = label_count(old(self).next_label@, k);
                &&& 0 <= k < final(self).session.interner@.len()
                &&& final(self).session.interner@[k] == basename@
                &&& (r is Ok <==> c < u32::MAX)
                &&& r matches Ok(l) ==> l.0.0 < final(self).session.interner@.len()
                    && final(self).session.interner@[l.0.0 as int] == basename@ + decimal(c as nat + 1)
                    && final(self).next_label@ == old(self).next_label@.insert(k as usize, (c + 1) as u32)
            }),
    {
        let base = self.session.interner.intern_str(basename);
        proof {
            let names = self.session.interner@;
            assert(names[base.0 as int] == basename@);
            let i = name_index(names, basename@);
            assert(0 <= i < names.len() && names[i] == basename@);
            if i < base.0 {
                assert(names[i] != names[base.0 as int]);
            } else if i > base.0 {
                assert(names[base.0 as int] != names[i]);
            }
        }
        let count = match self.next_label.get(&base.0) {
            Some(c) => *c,
            None => 0,
        };
        if count == u32::MAX {
            return Err(self.error("too many labels"));
        }
        self.next_label.insert(base.0, count + 1);
        let mut name = string_of(basename);
        push_u64(&mut name, (count + 1) as u64);
        let ghost names = self.session.interner@;
        let label = ir::Label::from_str(&mut self.session.interner, name.as_str());
        proof {
            let now = self.session.interner@;
            assert(now[base.0 as int] == basename@);
            let i = name_index(now, basename@);
            assert(0 <= i < now.len() && now[i] == basename@);
            if i < base.0 {
                assert(now[i] != now[base.0 as int]);
            } else if i > base.0 {
                assert(now[base.0 as int] != now[i]);
            }
        }
        Ok(label)
    }

    /// Unwrap a destination: the register it names, or the next free register
    pub fn unwrap_dest(&mut self, dest: Dest) -> (r: Result<Register, Diagnostic>)
        requires
            old(self).wf(),
        ensures
            final(self).wf(),
            final(self).fcx.returned == old(self).fcx.returned,
            final(self).frame(old(self)),
            final(self).fcx.body == old(self).fcx.body,
            dest matches Dest::Store(reg) ==> r == Ok::<Register, Diagnostic>(reg) && *final(self) == *old(self),
            final(self).session.symbol_table == old(self).session.symbol_table,
            final(self).next_label == old(self).next_label,
            r is Ok <==> (dest is Store || old(self).fcx.next_register < u32::MAX),
    {
        match dest {
            Dest::Store(r) => Ok(r),
            Dest::Ignore => self.next_free_register(),
        }
    }

    /// Commit the current (finalized) block and continue working with an
    /// empty one with the given label
    pub fn commit_block_and_continue(&mut self, block: &mut ir::Block, label: ir::Label)
        requires
            old(self).wf(),
            old(block).spec_finalized(),
        ensures
            final(self).wf(),
            final(self).fcx.returned == old(self).fcx.returned,
            final(self).frame(old(self)),
            final(self).session == old(self).session,
            final(self).fcx.body@ == old(self).fcx.body@.push(*old(block)),
            body_grows(final(self).fcx.body@, old(self).fcx.body@),
            final(block).label == label,
            final(block).inst@.len() == 0,
            final(block).phis@.len() == 0,
            !final(block).spec_finalized(),
            final(self).fcx.next_register == old(self).fcx.next_register,
            final(self).fcx.stack_slots == old(self).fcx.stack_slots,
            final(self).next_label == old(self).next_label,
    {
        let mut other = ir::Block::new(label);
        std::mem::swap(block, &mut other);
        // `other` holds the committed block after the swap
        self.fcx.body.push(other);
    }

    /// Commit the current (finalized) block
    pub fn commit_block(&mut self, block: ir::Block)
        requires
            old(self).wf(),
            block.spec_finalized(),
        ensures
            final(self).wf(),
            final(self).fcx.returned == old(self).fcx.returned,
            final(self).frame(old(self)),
            final(self).session == old(self).session,
            final(self).fcx.body@ == old(self).fcx.body@.push(block),
    {
        self.fcx.body.push(block);
    }

    /// Make sure instructions can be added to the current block: code after
    /// a `return` or a `break` goes into a fresh block
    pub fn open_block(&mut self, block: &mut ir::Block) -> (r: Result<(), Diagnostic>)
        requires
            old(self).wf(),
        ensures
            final(self).wf(),
            final(self).fcx.returned == old(self).fcx.returned,
            r is Ok ==> body_grows(final(self).fcx.body@, old(self).fcx.body@),
            final(self).frame(old(self)),
            r is Ok ==> !final(block).spec_finalized(),
            !old(block).spec_finalized() ==> *final(block) == *old(block) && *final(self) == *old(self),
            ({
                let k = name_index(final(self).session.interner@, "unreachable"@);
                let c = label_count(old(self).next_label@, k);
                &&& r is Ok <==> (!old(block).spec_finalized() || c < u32::MAX)
                &&& old(block).spec_finalized() && r is Ok ==> final(self).fcx.body@ == old(self).fcx.body@.push(*old(block))
                    && final(block).inst@.len() == 0 && final(block).phis@.len() == 0
                    && final(self).session.interner@[final(block).label.0.0 as int] == "unreachable"@ + decimal(c as nat + 1)
            }),
            final(self).fcx.next_register == old(self).fcx.next_register,
            final(self).fcx.stack_slots == old(self).fcx.stack_slots,
    {
        if block.finalized() {
            let label = self.next_free_label("unreachable")?;
            self.commit_block_and_continue(block, label);
        }
        Ok(())
    }

    /// Allocate a stack slot in the function's first block
    pub fn alloca_first(&mut self, block: &mut ir::Block, reg: Register)
        requires
            old(self).wf(),
        ensures
            final(self).wf(),
            final(self).fcx.returned == old(self).fcx.returned,
            final(self).frame(old(self)),
            final(self).session == old(self).session,
            final(self).fcx.body@.len() == old(self).fcx.body@.len(),
            body_grows(final(self).fcx.body@, old(self).fcx.body@),
            final(block).last == old(block).last,
            final(block).label == old(block).label,
            old(self).fcx.body@.len() > 0 ==> *final(block) == *old(block)
                && final(self).fcx.body@[0].inst@ == ir::with_alloca(old(self).fcx.body@[0].inst@, reg)
                && final(self).fcx.body@[0].label == old(self).fcx.body@[0].label,
            old(self).fcx.body@.len() == 0 ==> final(block).inst@ == ir::with_alloca(old(block).inst@, reg)
                && final(block).phis == old(block).phis
                && final(self).fcx.body == old(self).fcx.body,
            final(self).fcx.next_register == old(self).fcx.next_register,
            final(self).fcx.stack_slots == old(self).fcx.stack_slots,
    {
        if self.fcx.body.len() > 0 {
            let mut first = self.fcx.body.remove(0);
            first.add_alloca(reg);
            self.fcx.body.insert(0, first);
        } else {
            block.add_alloca(reg);
        }
    }

    /// A fresh stack slot name: the name, or the name with the smallest
    /// number appended that is not in use
    pub fn fresh_stack_slot(&mut self, id: Ident) -> (r: Result<Register, Diagnostic>)
        requires
            old(self).wf(),
        ensures
            final(self).wf(),
            final(self).fcx.returned == old(self).fcx.returned,
            final(self).frame(old(self)),
            final(self).fcx.body == old(self).fcx.body,
            final(self).session.symbol_table == old(self).session.symbol_table,
            final(self).fcx.next_register == old(self).fcx.next_register,
            final(self).next_label == old(self).next_label,
            old(self).session.interner@.len() <= final(self).session.interner@.len(),
            forall|k: int| 0 <= k < old(self).session.interner@.len()
                ==> #[trigger] final(self).session.interner@[k] == old(self).session.interner@[k],
            r is Err ==> final(self).fcx.stack_slots == old(self).fcx.stack_slots,
            r matches Ok(reg) ==> reg matches Register::Stack(m)
                && !old(self).fcx.stack_slots@.contains(m)
                && final(self).fcx.stack_slots@ == old(self).fcx.stack_slots@.push(m)
                && (!old(self).fcx.stack_slots@.contains(id) ==> m == id)
                && (old(self).fcx.stack_slots@.contains(id) && id.0 < old(self).session.interner@.len()
                    ==> m.0 < final(self).session.interner@.len()
                    && (exists|j: nat| 1 <= j && #[trigger] final(self).session.interner@[m.0 as int]
                        == old(self).session.interner@[id.0 as int] + decimal(j))),
            id.0 < old(self).session.interner@.len() && old(self).fcx.stack_slots@.len() < usize::MAX ==> r is Ok,
    {
        let mut mangled = id;
        let mut i: usize = 1;
        let n = self.fcx.stack_slots.len();
        let ghost good = id.0 < old(self).session.interner@.len();
        let ghost nm = if good { old(self).session.interner@[id.0 as int] } else { Seq::<char>::empty() };
        let ghost mut tried: Seq<Ident> = Seq::empty();
        while self.slot_in_use(mangled)
            invariant
                self.wf(),
                self.frame(old(self)),
                self.fcx == old(self).fcx,
                self.next_label == old(self).next_label,
                self.fcx.stack_slots@.len() == n,
                self.session.symbol_table == old(self).session.symbol_table,
                old(self).session.interner@.len() <= self.session.interner@.len(),
                forall|k: int| 0 <= k < old(self).session.interner@.len()
                    ==> #[trigger] self.session.interner@[k] == old(self).session.interner@[k],
                good == (id.0 < old(self).session.interner@.len()),
                good ==> nm == old(self).session.interner@[id.0 as int],
                1 <= i <= n + 1,
                tried.len() == i - 1,
                i == 1 ==> mangled == id,
                i > 1 && good ==> mangled.0 < self.session.interner@.len()
                    && self.session.interner@[mangled.0 as int] == nm + decimal((i - 1) as nat),
                good ==> tried.no_duplicates(),
                good ==> !tried.contains(mangled),
                forall|j: int| 0 <= j < tried.len() ==> self.fcx.stack_slots@.contains(#[trigger] tried[j]),
                good ==> forall|j: int| 1 <= j < tried.len() ==> (#[trigger] tried[j]).0 < self.session.interner@.len()
                    && self.session.interner@[tried[j].0 as int] == nm + decimal(j as nat),
                tried.len() > 0 ==> tried[0] == id,
            decreases n + 2 - i,
        {
            let ghost prev = mangled;
            proof {
                assert(self.fcx.stack_slots@.contains(mangled));
            }
            if i > n || i == usize::MAX {
                proof {
                    if good && n < usize::MAX {
                        let all = tried.push(prev);
                        assert forall|a: int, b: int| 0 <= a < all.len() && 0 <= b < all.len() && a != b
                            implies all[a] != all[b] by {
                            if a < tried.len() && b < tried.len() {
                                assert(tried[a] != tried[b]);
                            } else if a == tried.len() {
                                assert(tried.contains(tried[b]));
                            } else {
                                assert(tried.contains(tried[a]));
                            }
                        }
                        assert forall|x: Ident| all.contains(x) implies self.fcx.stack_slots@.contains(x) by {
                            let j = choose|j: int| 0 <= j < all.len() && all[j] == x;
                            if j < tried.len() {
                                assert(self.fcx.stack_slots@.contains(tried[j]));
                            }
                        }
                        lemma_distinct_within(all, self.fcx.stack_slots@);
                    }
                }
                return Err(self.error("no free stack slot name"));
            }
            let mut name = String::new();
            if id.0 < self.session.interner.len() {
                push_chars(&mut name, self.session.interner.resolve(id));
            }
            push_u64(&mut name, i as u64);
            let ghost names_before = self.session.interner@;
            mangled = self.session.interner.intern_str(name.as_str());
            proof {
                let now = self.session.interner@;
                assert forall|k: int| 0 <= k < names_before.len() implies #[trigger] now[k] == names_before[k] by {
                    if !names_before.contains(name@) {
                        assert(now == names_before.push(name@));
                    }
                }
                if good {
                    assert(name@ == nm + decimal(i as nat));
                    let newtried = tried.push(prev);
                    assert forall|j: int| 0 <= j < newtried.len() implies newtried[j] != mangled by {
                        if j == 0 {
                            // the name itself is shorter than any numbered name
                            lemma_decimal_len(i as nat);
                            if newtried[j] == mangled {
                                assert(now[id.0 as int] == nm);
                                assert(now[mangled.0 as int].len() > nm.len());
                            }
                        } else {
                            let other = nm + decimal(j as nat);
                            if newtried[j] == mangled {
                                assert(now[newtried[j].0 as int] == other);
                                assert(other.subrange(nm.len() as int, other.len() as int) =~= decimal(j as nat));
                                assert(name@.subrange(nm.len() as int, name@.len() as int) =~= decimal(i as nat));
                                lemma_decimal_injective(j as nat, i as nat);
                            }
                        }
                    }
                    assert forall|a: int, b: int| 0 <= a < newtried.len() && 0 <= b < newtried.len() && a != b
                        implies newtried[a] != newtried[b] by {
                        if a < tried.len() && b < tried.len() {
                            assert(tried[a] != tried[b]);
                        } else if a == tried.len() {
                            assert(tried.contains(tried[b]));
                        } else {
                            assert(tried.contains(tried[a]));
                        }
                    }
                    assert forall|j: int| 1 <= j < newtried.len() implies (#[trigger] newtried[j]).0 < now.len()
                        && now[newtried[j].0 as int] == nm + decimal(j as nat) by {
                        if j < tried.len() {
                            assert(now[tried[j].0 as int] == names_before[tried[j].0 as int]);
                        } else {
                            assert(now[prev.0 as int] == names_before[prev.0 as int]);
                        }
                    }
                }
                tried = tried.push(prev);
            }
            i = i + 1;
        }
        self.fcx.stack_slots.push(mangled);
        proof {
            if old(self).fcx.stack_slots@.contains(id) && good {
                assert(i > 1);
                assert(self.session.interner@[mangled.0 as int] == nm + decimal((i - 1) as nat));
            }
        }
        Ok(Register::Stack(mangled))
    }

    /// Whether a stack slot name is in use
    fn slot_in_use(&self, id: Ident) -> (r: bool)
        ensures
            r == self.fcx.stack_slots@.contains(id),
    {
        let mut i: usize = 0;
        while i < self.fcx.stack_slots.len()
            invariant
                i <= self.fcx.stack_slots@.len(),
                forall|j: int| 0 <= j < i ==> self.fcx.stack_slots@[j] != id,
            decreases self.fcx.stack_slots@.len() - i,
        {
            if self.fcx.stack_slots[i] == id {
                return true;
            }
            i = i + 1;
        }
        false
    }

    /// Register a variable of the current scope in a fresh stack slot and
    /// return its slot
    pub fn register_stack_slot(&mut self, id: Ident) -> (r: Result<Register, Diagnostic>)
        requires
            old(self).wf(),
        ensures
            final(self).wf(),
            final(self).fcx.returned == old(self).fcx.returned,
            final(self).frame(old(self)),
            final(self).fcx.body == old(self).fcx.body,
            r matches Ok(reg) ==> reg matches Register::Stack(m)
                && !old(self).fcx.stack_slots@.contains(m)
                && final(self).fcx.stack_slots@ == old(self).fcx.stack_slots@.push(m)
                && (!old(self).fcx.stack_slots@.contains(id) ==> m == id),
            r matches Ok(reg) ==> final(self).session.symbol_table.vars_of(old(self).fcx.scope)
                == old(self).session.symbol_table.vars_of(old(self).fcx.scope).insert(id.0,
                    Variable { slot: Some(reg), ..old(self).session.symbol_table.vars_of(old(self).fcx.scope)[id.0] }),
            !(old(self).session.symbol_table.has_scope(old(self).fcx.scope)
                && old(self).session.symbol_table.vars_of(old(self).fcx.scope).contains_key(id.0)) ==> r is Err,
            old(self).session.symbol_table.has_scope(old(self).fcx.scope)
                && old(self).session.symbol_table.vars_of(old(self).fcx.scope).contains_key(id.0)
                && id.0 < old(self).session.interner@.len()
                && old(self).fcx.stack_slots@.len() < usize::MAX ==> r is Ok,
            final(self).fcx.next_register == old(self).fcx.next_register,
    {
        let scope = self.fcx.scope;
        if !self.session.symbol_table.contains_scope(scope)
            || self.session.symbol_table.lookup_variable(scope, &id).is_none() {
            return Err(self.error("variable not declared in its scope"));
        }
        let slot = self.fresh_stack_slot(id)?;
        self.session.symbol_table.set_slot(scope, &id, slot);
        Ok(slot)
    }

    /// The stack slot of a variable
    pub fn lookup_slot(&self, name: Ident) -> (r: Result<Register, Diagnostic>)
        requires
            self.wf(),
        ensures
            r is Ok <==> self.session.symbol_table.has_scope(self.fcx.scope)
                && (self.session.symbol_table.resolve_spec(self.fcx.scope, name) matches Some(v) && v.slot is Some),
            r matches Ok(slot) ==> self.session.symbol_table.resolve_spec(self.fcx.scope, name).unwrap().slot == Some(slot),
            r matches Ok(slot) ==> slot_of(self.session.symbol_table, self.fcx.scope, name) == Some(slot),
    {
        let scope = self.fcx.scope;
        if !self.session.symbol_table.contains_scope(scope) {
            return Err(self.error("variable outside of a scope"));
        }
        match self.session.symbol_table.resolve_variable(scope, &name) {
            Some(var) => match var.slot {
                Some(slot) => Ok(slot),
                None => Err(self.error("no stack slot assigned to a variable")),
            },
            None => Err(self.error("variable not yet declared")),
        }
    }

    /// Determine the kind of variable the name refers to
    pub fn variable_kind(&self, name: Ident) -> (r: Result<VariableKind, Diagnostic>)
        requires
            self.wf(),
        ensures
            !self.session.symbol_table.has_scope(self.fcx.scope) ==> r is Err,
            self.session.symbol_table.has_scope(self.fcx.scope) ==> ({
                let t = self.session.symbol_table;
                let known = t.symbol_map().contains_key(name.0);
                if t.resolve_spec(self.fcx.scope, name) is Some {
                    r matches Ok(VariableKind::Stack)
                } else if known && t.symbol_map()[name.0] is Static {
                    r matches Ok(VariableKind::Static)
                } else if known && t.symbol_map()[name.0] is Constant {
                    r matches Ok(VariableKind::Constant)
                } else {
                    r is Err
                }
            }),
            r matches Ok(k) ==> kind_of(self.session.symbol_table, self.fcx.scope, name) == Some(k),
    {
        let scope = self.fcx.scope;
        if !self.session.symbol_table.contains_scope(scope) {
            return Err(self.error("variable outside of a scope"));
        }
        match self.session.symbol_table.variable_kind(scope, &name) {
            Some(crate::driver::symbol_table::VariableKind::Local) => Ok(VariableKind::Stack),
            Some(crate::driver::symbol_table::VariableKind::Static) => Ok(VariableKind::Static),
            Some(crate::driver::symbol_table::VariableKind::Constant) => Ok(VariableKind::Constant),
            None => Err(self.error("not a variable")),
        }
    }

    /// The value of a constant
    pub fn constant_value(&self, name: Ident) -> (r: Result<ir::Value, Diagnostic>)
        ensures
            r is Ok <==> self.session.symbol_table.symbol_map().contains_key(name.0)
                && (self.session.symbol_table.symbol_map()[name.0] matches ast::Symbol::Constant { value, .. }
                    && value.node is Literal),
            r matches Ok(v) ==> (self.session.symbol_table.symbol_map()[name.0] matches ast::Symbol::Constant { value, .. }
                && v == ir::Value::Immediate(ir::Immediate(ast::value_bits(value.node->Literal_val)))),
            r matches Ok(v) ==> constant_of(self.session.symbol_table, name) == Some(v),
    {
        match self.session.symbol_table.lookup_symbol(&name) {
            Some(ast::Symbol::Constant { value, .. }) => match &value.node {
                ast::Expression::Literal { val } => Ok(ir::Value::Immediate(ir::Immediate(val.as_u32()))),
                _ => Err(self.error("the value of a constant is not a literal")),
            },
            _ => Err(self.error("not a constant")),
        }
    }
    /// Translate an AST block (in its own scope), storing its value in `dest`
    pub fn trans_block(&mut self, b: &ast::Node<ast::Block>, block: &mut ir::Block, dest: Dest) -> (r: Result<(), Diagnostic>)
        requires
            old(self).wf(),
        ensures
            final(self).wf(),
            straight_stmts(b.node.stmts@) && straight(b.node.expr.node) ==> final(self).fcx.returned == old(self).fcx.returned,
            b.node.stmts@.len() == 0 && b.node.expr.node is Unit ==> r is Ok && *final(block) == *old(block)
                && final(self).session == old(self).session && final(self).fcx.body == old(self).fcx.body
                && final(self).fcx.returned == old(self).fcx.returned,
            r is Ok ==> body_grows(final(self).fcx.body@, old(self).fcx.body@),
            final(self).ir == old(self).ir,
            r is Ok ==> final(self).frame(old(self)),
            r is Ok && !old(block).spec_finalized() && straight_stmts(b.node.stmts@) && straight(b.node.expr.node)
                ==> final(self).session.symbol_table == old(self).session.symbol_table
                && final(self).fcx.body == old(self).fcx.body
                && appends(*final(block), *old(block))
                && exists|k: int| 0 <= k <= appended(*final(block), *old(block)).len()
                    && stmts_code(old(self).session.symbol_table, b.id, b.node.stmts@,
                        #[trigger] appended(*final(block), *old(block)).subrange(0, k))
                    && dest_code(old(self).session.symbol_table, b.id, b.node.expr.node, dest,
                        appended(*final(block), *old(block)).subrange(k, appended(*final(block), *old(block)).len() as int)),
        decreases *b, 0nat,
    {
        let outer = self.fcx.scope;
        self.fcx.scope = b.id;
        let stmts = &b.node.stmts;
        let ghost fresh = !old(block).spec_finalized() && straight_stmts(b.node.stmts@) && straight(b.node.expr.node);
        let ghost t = old(self).session.symbol_table;
        let mut i: usize = 0;
        proof {
            lemma_appends_refl(*block);
            assert(stmts@.subrange(0, 0) =~= Seq::<ast::Node<ast::Statement>>::empty());
        }
        while i < stmts.len()
            invariant
                i <= stmts@.len(),
                stmts == &b.node.stmts,
                self.wf(),
                self.ir == old(self).ir,
                self.fcx.scope == b.id,
                self.fcx.return_slot == old(self).fcx.return_slot,
                self.fcx.return_label == old(self).fcx.return_label,
                self.fcx.loop_exit == old(self).fcx.loop_exit,
                body_grows(self.fcx.body@, old(self).fcx.body@),
                fresh == (!old(block).spec_finalized() && straight_stmts(b.node.stmts@) && straight(b.node.expr.node)),
                straight_stmts(b.node.stmts@) && straight(b.node.expr.node) ==> self.fcx.returned == old(self).fcx.returned,
                b.node.stmts@.len() == 0 ==> *block == *old(block) && self.session == old(self).session
                    && self.fcx.body == old(self).fcx.body && self.fcx.returned == old(self).fcx.returned,
                t == old(self).session.symbol_table,
                fresh ==> self.session.symbol_table == t && self.fcx.body == old(self).fcx.body
                    && appends(*block, *old(block))
                    && stmts_code(t, b.id, stmts@.subrange(0, i as int), appended(*block, *old(block))),
            decreases stmts@.len() - i,
        {
            proof {
                assert(decreases_to!(*b => stmts@[i as int]));
            }
            let ghost mid = *block;
            proof {
                if straight_stmts(b.node.stmts@) {
                    assert(stmts@[i as int].node matches ast::Statement::Expression { val } && straight(val.node));
                }
            }
            self.trans_stmt(&stmts[i], block)?;
            proof {
                if fresh {
                    let s = stmts@[i as int];
                    assert(s.node matches ast::Statement::Expression { val } && straight(val.node));
                    lemma_appends_trans(*old(block), mid, *block);
                    let all = appended(*block, *old(block));
                    let before = appended(mid, *old(block));
                    let k = before.len() as int;
                    assert(all.subrange(0, k) =~= before);
                    assert(all.subrange(k, all.len() as int) =~= appended(*block, mid));
                    let done = stmts@.subrange(0, i + 1);
                    assert(done.drop_last() =~= stmts@.subrange(0, i as int));
                    assert(done.last() == s);
                    assert(!mid.spec_finalized());
                    assert(dest_code(t, b.id, s.node->Expression_val.node, Dest::Ignore, appended(*block, mid)));
                    assert(stmts_code(t, b.id, done.drop_last(), all.subrange(0, k)));
                    assert(dest_code(t, b.id, done.last().node->Expression_val.node, Dest::Ignore,
                        all.subrange(k, all.len() as int)));
                    lemma_stmts_code_push(t, b.id, done, all, k);
                }
            }
            i = i + 1;
        }
        let ghost mid = *block;
        self.trans_expr(&b.node.expr, block, dest)?;
        proof {
            if fresh {
                assert(stmts@.subrange(0, stmts@.len() as int) =~= stmts@);
                lemma_appends_trans(*old(block), mid, *block);
                let all = appended(*block, *old(block));
                let before = appended(mid, *old(block));
                let k = before.len() as int;
                assert(all.subrange(0, k) =~= before);
                assert(all.subrange(k, all.len() as int) =~= appended(*block, mid));
                assert(stmts_code(t, b.id, b.node.stmts@, all.subrange(0, k)));
            }
        }
        self.fcx.scope = outer;
        Ok(())
    }

    /// Translate a statement
    pub fn trans_stmt(&mut self, stmt: &ast::Node<ast::Statement>, block: &mut ir::Block) -> (r: Result<(), Diagnostic>)
        requires
            old(self).wf(),
        ensures
            final(self).wf(),
            (stmt.node matches ast::Statement::Expression { val } && straight(val.node))
                ==> final(self).fcx.returned == old(self).fcx.returned,
            r is Ok ==> body_grows(final(self).fcx.body@, old(self).fcx.body@),
            final(self).ir == old(self).ir,
            r is Ok ==> final(self).frame(old(self)),
            r is Ok && !old(block).spec_finalized() && (stmt.node matches ast::Statement::Expression { val }
                && straight(val.node)) ==> final(self).session.symbol_table == old(self).session.symbol_table
                && final(self).fcx.body == old(self).fcx.body
                && appends(*final(block), *old(block))
                && dest_code(old(self).session.symbol_table, old(self).fcx.scope, stmt.node->Expression_val.node,
                    Dest::Ignore, appended(*final(block), *old(block))),
        decreases *stmt, 0nat,
    {
        match &stmt.node {
            ast::Statement::Declaration { binding, value } => {
                // Allocate memory on stack for the binding
                let dst = self.register_stack_slot(binding.node.name.node)?;
                self.alloca_first(block, dst);
                // Store the expression in the new slot
                let v = self.trans_expr_to_value(value, block)?;
                self.open_block(block)?;
                block.store_reg(v, dst);
                Ok(())
            },
            ast::Statement::Expression { val } => {
                // We don't care where the value of the expression is stored
                self.trans_expr(val, block, Dest::Ignore)
            },
        }
    }

    /// Translate a function and emit it
    ///
    /// The arguments live in stack slots. A function that returns a value
    /// stores it in a return slot, from which the return block loads it; a
    /// function without a value returns at the end of its body (or in a
    /// return block, if it contains a `return`).
    pub fn trans_fn(&mut self, name: Ident, bindings: &Vec<ast::Node<ast::Binding>>, ret_ty: ast::Type, body: &ast::Node<ast::Block>) -> (r: Result<(), Diagnostic>)
        requires
            old(self).wf(),
        ensures
            final(self).wf(),
            r is Ok ==> final(self).ir.0@.len() == old(self).ir.0@.len() + 1,
            r is Ok ==> final(self).ir.0@.subrange(0, old(self).ir.0@.len() as int) == old(self).ir.0@,
            r is Ok ==> translates_function(name, bindings@, final(self).ir.0@.last()),
            r is Err ==> final(self).ir == old(self).ir,
            r is Ok && ret_ty == ast::Type::Unit && straight_stmts(body.node.stmts@) && straight(body.node.expr.node)
                ==> void_straight_function(final(self).ir.0@.last(), final(self).session.symbol_table, body.id, body.node),
            ret_ty == ast::Type::Unit && bindings@.len() == 0 && body.node.stmts@.len() == 0 && body.node.expr.node is Unit
                && label_count(old(self).next_label@, name_index(final(self).session.interner@, "entry-block"@)) < u32::MAX
                && label_count(old(self).next_label@, name_index(final(self).session.interner@, "return"@)) < u32::MAX
                ==> r is Ok,
            r is Ok && ret_ty != ast::Type::Unit && straight_stmts(body.node.stmts@) && straight(body.node.expr.node)
                ==> valued_straight_function(final(self).ir.0@.last(), final(self).session.symbol_table, body.id, body.node),
    {
        let is_void = ret_ty == ast::Type::Unit;
        // Prepare the function context
        let ghost map0 = self.next_label@;
        let entry = self.next_free_label("entry-block")?;
        let ghost n1 = self.session.interner@;
        let ghost k1 = name_index(n1, "entry-block"@);
        let ghost map1 = self.next_label@;
        let return_label = self.next_free_label("return");
        proof {
            let n2 = self.session.interner@;
            assert(n2[k1] == n1[k1]);
            lemma_name_index(n2, "entry-block"@, k1);
            let kr = name_index(n2, "return"@);
            reveal_strlit("entry-block");
            reveal_strlit("return");
            assert(n2[kr] != n2[k1]);
            self.session.interner.lemma_len_bound();
            assert((kr as usize) != (k1 as usize));
            assert(label_count(map1, kr) == label_count(map0, kr));
        }
        let return_label = return_label?;
        self.fcx = FunctionContext {
            body: Vec::new(),
            stack_slots: Vec::new(),
            scope: body.id,
            return_slot: None,
            return_label,
            returned: false,
            next_register: 0,
            loop_exit: None,
        };
        let mut block = ir::Block::new(entry);
        // Register arguments as stack slots
        let mut i: usize = bindings.len();
        while i > 0
            invariant
                i <= bindings@.len(),
                self.wf(),
                self.ir == old(self).ir,
                !block.spec_finalized(),
                block.inst@.len() == 0,
                block.phis@.len() == 0,
                self.fcx.body@.len() == 0,
                self.fcx.returned == false,
                self.fcx.scope == body.id,
            decreases i,
        {
            i = i - 1;
            self.register_stack_slot(bindings[i].node.name.node)?;
        }
        // Translate the body
        let ghost empty = block;
        let ghost straight_body = straight_stmts(body.node.stmts@) && straight(body.node.expr.node);
        if is_void {
            self.trans_block(body, &mut block, Dest::Ignore)?;
            proof {
                if straight_body {
                    assert(appended(block, empty) =~= block.inst@);
                }
            }
        } else {
            // Store the block's value in a temporary register and then in the
            // return slot (a `return` stores it there itself)
            let name_ret = self.session.interner.intern_str("ret_slot");
            let ret_slot = self.fresh_stack_slot(name_ret)?;
            self.fcx.return_slot = Some(ret_slot);
            let ret_value = self.next_free_register()?;
            let ghost empty2 = block;
            self.trans_block(body, &mut block, Dest::Store(ret_value))?;
            let ghost code = block.inst@;
            proof {
                if straight_body {
                    assert(appended(block, empty2) =~= block.inst@);
                }
            }
            if !block.finalized() {
                block.store(ir::Value::Register(ret_value), ir::Value::Register(ret_slot));
            }
            proof {
                if straight_body {
                    assert(block.inst@ == code.push(ir::Instruction::Store {
                        src: ir::Value::Register(ret_value), dst: ir::Value::Register(ret_slot) }));
                }
            }
        }
        // Finalize the function
        let ghost mut entry_block = block;
        if is_void && !self.fcx.returned {
            if !block.finalized() {
                block.ret(None);
            }
        } else {
            // The return block: `%reg = load {ret_slot}; ret %reg`
            if let Some(ret_slot) = self.fcx.return_slot {
                self.alloca_first(&mut block, ret_slot);
            }
            let return_label = self.fcx.return_label;
            if !block.finalized() {
                block.jump(return_label);
            }
            proof {
                entry_block = block;
            }
            self.commit_block_and_continue(&mut block, return_label);
            match self.fcx.return_slot {
                Some(ret_slot) => {
                    let return_value = self.next_free_register()?;
                    block.load(ir::Value::Register(ret_slot), return_value);
                    block.ret(Some(ir::Value::Register(return_value)));
                },
                None => block.ret(None),
            }
        }
        let ghost last_block = block;
        let ghost body_before = self.fcx.body@;
        self.commit_block(block);
        // Emit the symbol
        let mut args: Vec<Ident> = Vec::new();
        let mut j: usize = 0;
        while j < bindings.len()
            invariant
                j <= bindings@.len(),
                args@.len() == j,
                forall|k: int| 0 <= k < j ==> #[trigger] args@[k] == bindings@[k].node.name.node,
            decreases bindings@.len() - j,
        {
            args.push(bindings[j].node.name.node);
            j = j + 1;
        }
        let mut fn_body: Vec<ir::Block> = Vec::new();
        std::mem::swap(&mut fn_body, &mut self.fcx.body);
        self.ir.emit(ir::Symbol::Function { name, body: fn_body, args });
        proof {
            assert(self.ir.0@.subrange(0, old(self).ir.0@.len() as int) =~= old(self).ir.0@);
            if is_void && straight_body {
                assert(body_before.len() == 0);
                assert(self.ir.0@.last()->Function_body@ =~= seq![last_block]);
            }
            if !is_void && straight_body {
                assert(body_before =~= seq![entry_block]);
                assert(self.ir.0@.last()->Function_body@ =~= seq![entry_block, last_block]);
            }
        }
        Ok(())
    }

    /// Translate a symbol: a static becomes a global, a function is
    /// translated, a constant is inlined on usage
    pub fn visit_symbol(&mut self, s: &ast::Node<ast::Symbol>) -> (r: Result<(), Diagnostic>)
        requires
            old(self).wf(),
        ensures
            final(self).wf(),
            r is Ok ==> final(self).ir.0@.len() >= old(self).ir.0@.len(),
            r is Ok ==> final(self).ir.0@.subrange(0, old(self).ir.0@.len() as int) == old(self).ir.0@,
            r is Ok ==> translates_symbol(s.node, final(self).ir.0@.subrange(old(self).ir.0@.len() as int, final(self).ir.0@.len() as int),
                final(self).session.symbol_table),
            s.node is Static ==> (r is Ok <==> s.node->Static_value.node is Literal),
            s.node is Constant ==> r is Ok && final(self).ir == old(self).ir,
            s.node is Static || s.node is Constant ==> final(self).next_label == old(self).next_label,
            (s.node matches ast::Symbol::Function { bindings, ret_ty, body, .. } && ret_ty == ast::Type::Unit
                && bindings@.len() == 0 && body.node.stmts@.len() == 0 && body.node.expr.node is Unit)
                && label_count(old(self).next_label@, name_index(final(self).session.interner@, "entry-block"@)) < u32::MAX
                && label_count(old(self).next_label@, name_index(final(self).session.interner@, "return"@)) < u32::MAX
                ==> r is Ok,
    {
        match &s.node {
            ast::Symbol::Static { binding, value } => {
                let val = match &value.node {
                    ast::Expression::Literal { val } => *val,
                    _ => return Err(self.error("the value of a static is not a literal")),
                };
                self.ir.emit(ir::Symbol::Global { name: binding.node.name.node, value: ir::Immediate(val.as_u32()) });
            },
            ast::Symbol::Constant { .. } => {
                // Will be inlined on usage
            },
            ast::Symbol::Function { name, bindings, ret_ty, body } => {
                self.trans_fn(name.node, bindings, *ret_ty, body)?;
            },
        }
        proof {
            let n = old(self).ir.0@.len() as int;
            assert(self.ir.0@.subrange(0, n) =~= old(self).ir.0@);
            let out = self.ir.0@.subrange(n, self.ir.0@.len() as int);
            if self.ir.0@.len() == n + 1 {
                assert(out[0] == self.ir.0@.last());
            }
        }
        Ok(())
    }
}

/// The IR of the program's symbols: each symbol translated in order
pub open spec fn translates_program(p: Seq<ast::Node<ast::Symbol>>, out: Seq<ir::Symbol>) -> bool
    decreases p.len(),
{
    if p.len() == 0 {
        out.len() == 0
    } else {
        exists|k: int, t: SymbolTable|
            #![trigger out.subrange(0, k), translates_symbol(p.last().node, out.subrange(k, out.len() as int), t)]
            0 <= k <= out.len()
            && translates_program(p.drop_last(), out.subrange(0, k))
            && translates_symbol(p.last().node, out.subrange(k, out.len() as int), t)
    }
}

/// A static with a literal value, a constant, or a function without
/// parameters, result or code
pub open spec fn plain_symbol(s: ast::Symbol) -> bool {
    match s {
        ast::Symbol::Static { value, .. } => value.node is Literal,
        ast::Symbol::Constant { .. } => true,
        ast::Symbol::Function { bindings, ret_ty, body, .. } => ret_ty == ast::Type::Unit && bindings@.len() == 0
            && body.node.stmts@.len() == 0 && body.node.expr.node is Unit,
    }
}

/// A program of plain symbols with at most one function
pub open spec fn plain_program(p: Seq<ast::Node<ast::Symbol>>) -> bool {
    &&& forall|i: int| 0 <= i < p.len() ==> plain_symbol(#[trigger] p[i].node)
    &&& forall|i: int, j: int| 0 <= i < p.len() && 0 <= j < p.len()
        && (#[trigger] p[i].node) is Function && (#[trigger] p[j].node) is Function ==> i == j
}

/// Translate the program into the IR; the session comes back with the stack
/// slots of the variables recorded in its symbol table
pub fn translate(program: &ast::Program, session: Session) -> (r: (Result<ir::Program, Diagnostic>, Session))
    requires
        session.wf(),
    ensures
        r.1.wf(),
        r.0 matches Ok(ir) ==> translates_program(program@, ir.0@),
        plain_program(program@) ==> r.0 is Ok,
{
    let mut t = Translator::new(session);
    let mut i: usize = 0;
    while i < program.len()
        invariant
            i <= program@.len(),
            t.wf(),
            translates_program(program@.subrange(0, i as int), t.ir.0@),
            plain_program(program@) && (forall|j: int| 0 <= j < i ==> !(#[trigger] program@[j].node is Function))
                ==> t.next_label@ == Map::<usize, u32>::empty(),
        decreases program@.len() - i,
    {
        proof {
            if plain_program(program@) {
                assert(plain_symbol(program@[i as int].node));
            }
        }
        let ghost before = t.ir.0@;
        let ghost t0 = t;
        if let Err(e) = t.visit_symbol(&program[i]) {
            proof {
                if plain_program(program@) && program@[i as int].node is Function {
                    assert forall|j: int| 0 <= j < i implies !(#[trigger] program@[j].node is Function) by {
                        if program@[j].node is Function {
                            assert(program@[i as int].node is Function);
                        }
                    }
                }
            }
            return (Err(e), t.session);
        }
        proof {
            if plain_program(program@) && (forall|j: int| 0 <= j < i + 1 ==> !(#[trigger] program@[j].node is Function)) {
                assert(!(program@[i as int].node is Function));
                assert forall|j: int| 0 <= j < i implies !(#[trigger] program@[j].node is Function) by {
                    assert(0 <= j < i + 1);
                }
            }
        }
        proof {
            let p = program@.subrange(0, i + 1);
            assert(p.drop_last() =~= program@.subrange(0, i as int));
            assert(p.last() == program@[i as int]);
            let k = before.len() as int;
            assert(t.ir.0@.subrange(0, k) == before);
            assert(translates_program(p.drop_last(), t.ir.0@.subrange(0, k)));
            assert(translates_symbol(p.last().node, t.ir.0@.subrange(k, t.ir.0@.len() as int), t.session.symbol_table));
        }
        i = i + 1;
    }
    proof {
        assert(program@.subrange(0, program@.len() as int) =~= program@);
    }
    (Ok(t.ir), t.session)
}

} // verus!
