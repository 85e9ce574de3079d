//! Translation of control flow expressions

use vstd::prelude::*;
use crate::driver::session::Diagnostic;
use crate::front::ast;
use crate::middle::ir;
use crate::driver::symbol_table::SymbolTable;
use crate::middle::ir::trans::{Dest, Translator, label_count, name_index};
use crate::middle::ir::trans::code::{appended, body_grows, code_value, dest_code, lemma_appends_push, lemma_appends_refl,
    lemma_appends_trans, straight};

verus! {

/// The code of a `return`'s value: computed and stored in the return slot,
/// or computed into a fresh register where the function has no value
pub open spec fn return_code(t: SymbolTable, scope: ast::NodeId, val: ast::Expression, slot: Option<ir::Register>,
    is: Seq<ir::Instruction>) -> bool {
    match slot {
        Some(s) => is.len() >= 1 && (is.last() matches ir::Instruction::Store { src: v, dst }
            && dst == ir::Value::Register(s) && code_value(t, scope, val, v, is.drop_last())),
        None => dest_code(t, scope, val, Dest::Ignore, is),
    }
}

/// The blocks of a `while` loop entered from the open block `entry`, whose
/// blocks are committed from index `n` of `body`: `entry` jumps on; where
/// the condition has no control flow, it jumps to the next block, which holds
/// the condition's code and branches to the loop body or the exit; the
/// translation goes on in the empty exit block `next`
pub open spec fn while_shape(t: SymbolTable, scope: ast::NodeId, e: ast::Expression, entry: ir::Block, n: int,
    body: Seq<ir::Block>, next: ir::Block) -> bool {
    &&& n + 1 < body.len()
    &&& body[n].label == entry.label
    &&& body[n].last is Jump
    &&& next.inst@.len() == 0
    &&& next.phis@.len() == 0
    &&& !next.spec_finalized()
    &&& (e matches ast::Expression::While { cond, .. } && straight(cond.node)) ==> (
        body[n + 1].label == body[n].last->Jump_dest
        && (body[n + 1].last matches ir::ControlFlowInstruction::Branch { cond: c, altern, .. }
        && altern == next.label
        && code_value(t, scope, e->While_cond.node, c, body[n + 1].inst@)))
}

/// The blocks of an `if` entered from the open block `entry`, whose blocks
/// are committed from index `n` of `body`: the translation goes on in the
/// empty block `next`; where the condition has no control flow, `entry`
/// ends with the condition's code and a branch (to `next` when there is no
/// `else`)
pub open spec fn if_shape(t: SymbolTable, scope: ast::NodeId, e: ast::Expression, entry: ir::Block, n: int,
    body: Seq<ir::Block>, next: ir::Block) -> bool {
    &&& next.inst@.len() == 0
    &&& next.phis@.len() == 0
    &&& !next.spec_finalized()
    &&& (e matches ast::Expression::If { cond, .. } && straight(cond.node)) ==> (
        n < body.len() && body[n].label == entry.label
        && (body[n].last matches ir::ControlFlowInstruction::Branch { cond: c, altern, .. }
            && (e->If_altern is None ==> altern == next.label)
            && (n > 0 ==> entry.inst@.len() <= body[n].inst@.len()
                && body[n].inst@.subrange(0, entry.inst@.len() as int) == entry.inst@
                && code_value(t, scope, e->If_cond.node, c,
                    body[n].inst@.subrange(entry.inst@.len() as int, body[n].inst@.len() as int)))))
}

impl Translator {
    /// Translate a return: store the return value in the return slot and
    /// jump to the return block
    pub fn trans_return(&mut self, expr: &ast::Node<ast::Expression>, block: &mut ir::Block) -> (r: Result<(), Diagnostic>)
        requires
            old(self).wf(),
        ensures
            final(self).wf(),
            r is Ok ==> body_grows(final(self).fcx.body@, old(self).fcx.body@),
            final(self).ir == old(self).ir,
            r is Ok ==> final(self).frame(old(self)),
            r is Ok ==> final(block).spec_finalized(),
            r is Ok ==> final(block).last == (ir::ControlFlowInstruction::Jump { dest: old(self).fcx.return_label }),
            r is Ok && old(self).fcx.return_slot is Some ==> final(block).inst@.len() >= 1
                && (final(block).inst@.last() matches ir::Instruction::Store { dst, .. }
                    && dst == ir::Value::Register(old(self).fcx.return_slot.unwrap())),
            r is Ok && !old(block).spec_finalized() && (expr.node matches ast::Expression::Return { val } && straight(val.node))
                ==> final(block).last == (ir::ControlFlowInstruction::Jump { dest: old(self).fcx.return_label })
                && final(block).label == old(block).label && final(block).phis == old(block).phis
                && final(self).fcx.body == old(self).fcx.body
                && final(block).inst@.subrange(0, old(block).inst@.len() as int) == old(block).inst@
                && return_code(old(self).session.symbol_table, old(self).fcx.scope, expr.node->Return_val.node,
                    old(self).fcx.return_slot, final(block).inst@.subrange(old(block).inst@.len() as int,
                    final(block).inst@.len() as int)),
        decreases expr.node, 0nat,
    {
        let val = match &expr.node {
            ast::Expression::Return { val } => val,
            _ => return Err(self.error("not a return")),
        };
        let ghost fresh = !old(block).spec_finalized() && straight(val.node);
        match self.fcx.return_slot {
            Some(slot) => {
                let v = self.trans_expr_to_value(val, block)?;
                let ghost mid = *block;
                self.open_block(block)?;
                block.store_reg(v, slot);
                proof {
                    if fresh {
                        lemma_appends_push(mid, *block, ir::Instruction::Store { src: v, dst: ir::Value::Register(slot) });
                        lemma_appends_trans(*old(block), mid, *block);
                        let app = appended(*block, *old(block));
                        assert(app.drop_last() =~= appended(mid, *old(block)));
                    }
                }
            },
            None => {
                self.trans_expr(val, block, Dest::Ignore)?;
            },
        }
        let ghost before_jump = *block;
        self.fcx.returned = true;
        self.open_block(block)?;
        block.jump(self.fcx.return_label);
        proof {
            if fresh {
                assert(block.inst == before_jump.inst);
            }
        }
        Ok(())
    }

    /// Translate an if expression: both branches store their value in `dest`
    pub fn trans_if(&mut self, expr: &ast::Node<ast::Expression>, block: &mut ir::Block, dest: Dest) -> (r: Result<(), Diagnostic>)
        requires
            old(self).wf(),
        ensures
            final(self).wf(),
            r is Ok ==> body_grows(final(self).fcx.body@, old(self).fcx.body@),
            final(self).ir == old(self).ir,
            r is Ok ==> final(self).frame(old(self)),
            r is Ok && !old(block).spec_finalized() ==> if_shape(old(self).session.symbol_table, old(self).fcx.scope,
                expr.node, *old(block), old(self).fcx.body@.len() as int, final(self).fcx.body@, *final(block)),
        decreases expr.node, 0nat,
    {
        let (cond, conseq, altern) = match &expr.node {
            ast::Expression::If { cond, conseq, altern } => (cond, conseq, altern),
            _ => return Err(self.error("not an if")),
        };
        let cond_ir = self.trans_expr_to_value(cond, block)?;
        let ghost n = old(self).fcx.body@.len() as int;
        let ghost after_cond = *block;
        let ghost body_after_cond = self.fcx.body@;
        match altern {
            Some(altern) => {
                let label_conseq = self.next_free_label("conseq")?;
                let label_altern = self.next_free_label("altern")?;
                let label_next = self.next_free_label("next")?;
                self.open_block(block)?;
                block.branch(cond_ir, label_conseq, label_altern);
                let ghost branched = *block;
                // The 'then' block
                self.commit_block_and_continue(block, label_conseq);
                self.trans_block(conseq, block, dest)?;
                if !block.finalized() {
                    // Skip the 'else' part
                    block.jump(label_next);
                }
                // The 'else' block
                self.commit_block_and_continue(block, label_altern);
                self.trans_block(altern, block, dest)?;
                if !block.finalized() {
                    block.jump(label_next);
                }
                self.commit_block_and_continue(block, label_next);
                proof {
                    if !old(block).spec_finalized() && straight(cond.node) {
                        assert(body_after_cond == old(self).fcx.body@);
                        assert(self.fcx.body@[n].label == branched.label);
                        if n > 0 {
                            assert(self.fcx.body@[n] == branched);
                            assert(branched.inst@.subrange(0, old(block).inst@.len() as int) == old(block).inst@);
                        }
                    }
                }
            },
            None => {
                let label_conseq = self.next_free_label("conseq")?;
                let label_next = self.next_free_label("next")?;
                self.open_block(block)?;
                block.branch(cond_ir, label_conseq, label_next);
                let ghost branched = *block;
                // The 'then' block
                self.commit_block_and_continue(block, label_conseq);
                self.trans_block(conseq, block, dest)?;
                if !block.finalized() {
                    block.jump(label_next);
                }
                self.commit_block_and_continue(block, label_next);
                proof {
                    if !old(block).spec_finalized() && straight(cond.node) {
                        assert(body_after_cond == old(self).fcx.body@);
                        assert(self.fcx.body@[n].label == branched.label);
                        if n > 0 {
                            assert(self.fcx.body@[n] == branched);
                            assert(branched.inst@.subrange(0, old(block).inst@.len() as int) == old(block).inst@);
                        }
                    }
                }
            },
        }
        Ok(())
    }

    /// Translate a while loop: a block that checks the condition, the body
    /// (which jumps back to the condition) and the exit
    pub fn trans_while(&mut self, expr: &ast::Node<ast::Expression>, block: &mut ir::Block) -> (r: Result<(), Diagnostic>)
        requires
            old(self).wf(),
        ensures
            final(self).wf(),
            r is Ok ==> body_grows(final(self).fcx.body@, old(self).fcx.body@),
            final(self).ir == old(self).ir,
            r is Ok ==> final(self).frame(old(self)),
            r is Ok && !old(block).spec_finalized() ==> while_shape(old(self).session.symbol_table, old(self).fcx.scope,
                expr.node, *old(block), old(self).fcx.body@.len() as int, final(self).fcx.body@, *final(block)),
        decreases expr.node, 0nat,
    {
        let (cond, body) = match &expr.node {
            ast::Expression::While { cond, body } => (cond, body),
            _ => return Err(self.error("not a while loop")),
        };
        let label_cond = self.next_free_label("while_cond")?;
        let label_body = self.next_free_label("while_body")?;
        let label_next = self.next_free_label("while_exit")?;
        let ghost n = old(self).fcx.body@.len() as int;
        let ghost st = old(self).session.symbol_table;
        let ghost sc = old(self).fcx.scope;
        self.open_block(block)?;
        block.jump(label_cond);
        let outer_exit = self.fcx.loop_exit;
        self.fcx.loop_exit = Some(label_next);
        // Condition block
        self.commit_block_and_continue(block, label_cond);
        let ghost cond_start = *block;
        let c = self.trans_expr_to_value(cond, block)?;
        self.open_block(block)?;
        block.branch(c, label_body, label_next);
        let ghost cond_block = *block;
        let ghost after_cond = self.fcx.body@;
        // Body block
        self.commit_block_and_continue(block, label_body);
        self.trans_block(body, block, Dest::Ignore)?;
        if !block.finalized() {
            // After executing the body, re-check the condition
            block.jump(label_cond);
        }
        // Exit block
        self.commit_block_and_continue(block, label_next);
        self.fcx.loop_exit = outer_exit;
        proof {
            if !old(block).spec_finalized() {
                assert(after_cond.len() >= n + 1);
                if straight(cond.node) {
                    assert(after_cond.len() == n + 1);
                    assert(appended(cond_start, cond_start) == Seq::<ir::Instruction>::empty()) by {
                        lemma_appends_refl(cond_start);
                    }
                    assert(cond_block.inst@ =~= appended(cond_block, cond_start));
                    assert(self.fcx.body@[n + 1] == cond_block);
                    assert(code_value(st, sc, cond.node, c, cond_block.inst@));
                }
                let body = self.fcx.body@;
                assert(n + 1 < body.len());
                assert(body[n].label == old(block).label);
                assert(body[n].last == (ir::ControlFlowInstruction::Jump { dest: label_cond }));
                assert(block.inst@.len() == 0);
            }
        }
        Ok(())
    }

    /// Translate a break: jump to the current loop's exit
    pub fn trans_break(&mut self, block: &mut ir::Block) -> (r: Result<(), Diagnostic>)
        requires
            old(self).wf(),
        ensures
            final(self).wf(),
            r is Ok ==> body_grows(final(self).fcx.body@, old(self).fcx.body@),
            final(self).ir == old(self).ir,
            r is Ok ==> final(self).frame(old(self)),
            r is Ok ==> final(block).spec_finalized(),
            old(self).fcx.loop_exit is None ==> r is Err,
            r is Ok && !old(block).spec_finalized() ==> (old(self).fcx.loop_exit matches Some(exit)
                && final(block).last == (ir::ControlFlowInstruction::Jump { dest: exit })
                && final(block).inst == old(block).inst && final(block).label == old(block).label
                && final(block).phis == old(block).phis && final(self).fcx.body == old(self).fcx.body),
            r is Ok <==> (old(self).fcx.loop_exit is Some && (!old(block).spec_finalized()
                || label_count(old(self).next_label@, name_index(final(self).session.interner@, "unreachable"@)) < u32::MAX)),
    {
        match self.fcx.loop_exit {
            Some(exit) => {
                self.open_block(block)?;
                block.jump(exit);
                Ok(())
            },
            None => Err(self.error("`break` outside of loop")),
        }
    }
}

} // verus!
