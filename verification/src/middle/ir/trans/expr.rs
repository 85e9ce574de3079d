//! Translation of expressions

use vstd::prelude::*;
use crate::driver::session::Diagnostic;
use crate::front::ast;
use crate::middle::ir::{self, Register};
use crate::middle::ir::trans::{Dest, Translator, VariableKind, label_count, name_index};
use crate::middle::ir::trans::code::{appended, readable, body_grows, appends, args_straight, assign_target, code_args, code_expr, code_operation,
    code_value, dest_code, instrs_len, lemma_args_straight, lemma_appends_push, lemma_appends_refl, lemma_appends_trans, operands_code, straight, variable_code};

verus! {

impl Translator {
    /// Translate an expression, storing its value in `dest`
    pub fn trans_expr(&mut self, expr: &ast::Node<ast::Expression>, block: &mut ir::Block, dest: Dest) -> (r: Result<(), Diagnostic>)
        requires
            old(self).wf(),
        ensures
            final(self).wf(),
            straight(expr.node) ==> final(self).fcx.returned == old(self).fcx.returned,
            r is Ok ==> body_grows(final(self).fcx.body@, old(self).fcx.body@),
            final(self).ir == old(self).ir,
            r is Ok ==> final(self).frame(old(self)),
            straight(expr.node) && !old(block).spec_finalized() && r is Ok ==> final(self).session.symbol_table
                == old(self).session.symbol_table && final(self).fcx.body == old(self).fcx.body
                && appends(*final(block), *old(block))
                && dest_code(old(self).session.symbol_table, old(self).fcx.scope, expr.node, dest, appended(*final(block), *old(block))),
            expr.node is Unit ==> r is Ok && *final(self) == *old(self) && *final(block) == *old(block),
        decreases expr.node, 2nat,
    {
        proof {
            lemma_appends_refl(*block);
        }
        let r = match &expr.node {
            ast::Expression::Literal { val } => {
                let v = ir::Value::Immediate(ir::Immediate(val.as_u32()));
                let dst = self.unwrap_dest(dest)?;
                let ghost mid = *block;
                self.open_block(block)?;
                block.store_reg(v, dst);
                proof {
                    if !old(block).spec_finalized() {
                        lemma_appends_push(mid, *block, ir::Instruction::Store { src: v, dst: ir::Value::Register(dst) });
                        assert(code_expr(old(self).session.symbol_table, old(self).fcx.scope, expr.node, dst,
                            appended(*block, *old(block))));
                    }
                }
                Ok(())
            },
            ast::Expression::Variable { name } => self.trans_variable(name.node, block, dest),
            ast::Expression::Assign { .. } => self.trans_assign(expr, block),
            ast::Expression::AssignOp { .. } => self.trans_assign_op(expr, block),
            ast::Expression::Return { .. } => self.trans_return(expr, block),
            ast::Expression::Call { .. } => self.trans_call(expr, block, dest),
            ast::Expression::Group(inner) => self.trans_expr(inner, block, dest),
            ast::Expression::Infix { .. } => self.trans_infix(expr, block, dest),
            ast::Expression::Prefix { .. } => self.trans_prefix(expr, block, dest),
            ast::Expression::If { .. } => self.trans_if(expr, block, dest),
            ast::Expression::While { .. } => self.trans_while(expr, block),
            ast::Expression::Break => self.trans_break(block),
            ast::Expression::Unit => Ok(()),
        };
        proof {
            if straight(expr.node) && !old(block).spec_finalized() && r is Ok {
                let st = old(self).session.symbol_table;
                let sc = old(self).fcx.scope;
                let app = appended(*block, *old(block));
                if dest is Ignore {
                    if expr.node is Variable {
                        let name = expr.node->Variable_name;
                        let d = choose|d: ir::Register| variable_code(st, sc, name.node, d, app);
                        assert(code_expr(st, sc, expr.node, d, app));
                    } else if expr.node is Group {
                        let inner = expr.node->Group_0;
                        let d = choose|d: ir::Register| code_expr(st, sc, inner.node, d, app);
                        assert(code_expr(st, sc, expr.node, d, app));
                    } else if expr.node is Infix {
                        let d = choose|d: ir::Register| code_operation(st, sc, expr.node, d, app);
                        assert(code_expr(st, sc, expr.node, d, app));
                    } else if expr.node is Assign || expr.node is AssignOp || expr.node is Unit {
                        let d = ir::Register::Local(crate::driver::interner::Ident(0));
                        assert(code_expr(st, sc, expr.node, d, app));
                    }
                }
            }
        }
        r
    }

    /// Translate an expression into an `ir::Value`: literals and constants
    /// evaluate to immediate values, every other expression to a register
    /// that contains the result
    pub fn trans_expr_to_value(&mut self, expr: &ast::Node<ast::Expression>, block: &mut ir::Block) -> (r: Result<ir::Value, Diagnostic>)
        requires
            old(self).wf(),
        ensures
            final(self).wf(),
            straight(expr.node) ==> final(self).fcx.returned == old(self).fcx.returned,
            r is Ok ==> body_grows(final(self).fcx.body@, old(self).fcx.body@),
            final(self).ir == old(self).ir,
            r is Ok ==> final(self).frame(old(self)),
            expr.node matches ast::Expression::Literal { val } ==>
                r == Ok::<ir::Value, Diagnostic>(ir::Value::Immediate(ir::Immediate(ast::value_bits(val)))),
            r matches Ok(v) ==> !(v is Static),
            straight(expr.node) && !old(block).spec_finalized() && r is Ok ==> final(self).session.symbol_table
                == old(self).session.symbol_table && final(self).fcx.body == old(self).fcx.body
                && appends(*final(block), *old(block)),
            straight(expr.node) && !old(block).spec_finalized() ==> (r matches Ok(v) ==> code_value(
                old(self).session.symbol_table, old(self).fcx.scope, expr.node, v, appended(*final(block), *old(block)))),
        decreases expr.node, 3nat,
    {
        proof {
            lemma_appends_refl(*block);
        }
        // Special handling for literals: return the immediate value
        if let ast::Expression::Literal { val } = &expr.node {
            return Ok(ir::Value::Immediate(ir::Immediate(val.as_u32())));
        }
        // Special handling for constants: return their value
        if let ast::Expression::Variable { name } = &expr.node {
            if self.variable_kind(name.node)? == VariableKind::Constant {
                return self.constant_value(name.node);
            }
        }
        // Evaluate into a temporary register and return it
        let tmp = self.next_free_register()?;
        self.trans_expr(expr, block, Dest::Store(tmp))?;
        let v = ir::Value::Register(tmp);
        proof {
            if straight(expr.node) && !old(block).spec_finalized() {
                assert(code_expr(old(self).session.symbol_table, old(self).fcx.scope, expr.node, tmp,
                    appended(*block, *old(block))));
            }
        }
        Ok(v)
    }

    /// Where an assignment to a variable stores its value
    fn assign_dest(&self, dest: &ast::Node<ast::Expression>) -> (r: Result<ir::Value, Diagnostic>)
        requires
            self.wf(),
        ensures
            r matches Ok(v) ==> !(v is Immediate),
            r matches Ok(v) ==> (dest.node matches ast::Expression::Variable { name }
                && assign_target(self.session.symbol_table, self.fcx.scope, name.node) == Some(v)),
            r is Ok <==> (dest.node matches ast::Expression::Variable { name }
                && assign_target(self.session.symbol_table, self.fcx.scope, name.node) is Some),
    {
        let name = match &dest.node {
            ast::Expression::Variable { name } => name.node,
            _ => return Err(self.error("left-hand side of assignment is not a variable")),
        };
        match self.variable_kind(name)? {
            VariableKind::Stack => Ok(ir::Value::Register(self.lookup_slot(name)?)),
            VariableKind::Static => Ok(ir::Value::Static(name)),
            VariableKind::Constant => Err(self.error("attempt to assign to a constant")),
        }
    }

    /// Translate the usage of a variable
    fn trans_variable(&mut self, name: crate::driver::interner::Ident, block: &mut ir::Block, dest: Dest) -> (r: Result<(), Diagnostic>)
        requires
            old(self).wf(),
        ensures
            final(self).wf(),
            final(self).fcx.returned == old(self).fcx.returned,
            r is Ok ==> body_grows(final(self).fcx.body@, old(self).fcx.body@),
            final(self).ir == old(self).ir,
            r is Ok ==> final(self).frame(old(self)),
            !old(block).spec_finalized() && r is Ok ==> final(self).session.symbol_table
                == old(self).session.symbol_table && final(self).fcx.body == old(self).fcx.body
                && appends(*final(block), *old(block))
                && match dest {
                    Dest::Store(d) => variable_code(old(self).session.symbol_table, old(self).fcx.scope, name, d,
                        appended(*final(block), *old(block))),
                    Dest::Ignore => exists|d: ir::Register| #[trigger] variable_code(old(self).session.symbol_table,
                        old(self).fcx.scope, name, d, appended(*final(block), *old(block))),
                },
            r is Ok <==> (readable(old(self).session.symbol_table, old(self).fcx.scope, name)
                && (dest is Ignore ==> old(self).fcx.next_register < u32::MAX)
                && (!old(block).spec_finalized()
                    || label_count(old(self).next_label@, name_index(final(self).session.interner@, "unreachable"@)) < u32::MAX)),
    {
        let src = match self.variable_kind(name)? {
            // %dest = load %slot
            VariableKind::Stack => ir::Value::Register(self.lookup_slot(name)?),
            // %dest = load %static
            VariableKind::Static => ir::Value::Static(name),
            // %dest = {const}
            VariableKind::Constant => {
                let v = self.constant_value(name)?;
                let dst = self.unwrap_dest(dest)?;
                let ghost mid = *block;
                self.open_block(block)?;
                block.store_reg(v, dst);
                proof {
                    if !old(block).spec_finalized() {
                        lemma_appends_push(mid, *block, ir::Instruction::Store { src: v, dst: ir::Value::Register(dst) });
                        assert(variable_code(old(self).session.symbol_table, old(self).fcx.scope, name, dst,
                            appended(*block, *old(block))));
                    }
                }
                return Ok(());
            },
        };
        let dst = self.unwrap_dest(dest)?;
        let ghost mid = *block;
        self.open_block(block)?;
        block.load(src, dst);
        proof {
            if !old(block).spec_finalized() {
                lemma_appends_push(mid, *block, ir::Instruction::Load { src, dst });
                assert(variable_code(old(self).session.symbol_table, old(self).fcx.scope, name, dst,
                    appended(*block, *old(block))));
            }
        }
        Ok(())
    }

    /// Translate an assignment
    fn trans_assign(&mut self, expr: &ast::Node<ast::Expression>, block: &mut ir::Block) -> (r: Result<(), Diagnostic>)
        requires
            old(self).wf(),
        ensures
            final(self).wf(),
            straight(expr.node) ==> final(self).fcx.returned == old(self).fcx.returned,
            r is Ok ==> body_grows(final(self).fcx.body@, old(self).fcx.body@),
            final(self).ir == old(self).ir,
            r is Ok ==> final(self).frame(old(self)),
            straight(expr.node) && !old(block).spec_finalized() && r is Ok ==> final(self).session.symbol_table
                == old(self).session.symbol_table && final(self).fcx.body == old(self).fcx.body
                && appends(*final(block), *old(block))
                && (forall|d: ir::Register| #[trigger] code_expr(old(self).session.symbol_table, old(self).fcx.scope, expr.node, d,
                    appended(*final(block), *old(block)))),
        decreases expr.node, 0nat,
    {
        let (lhs, rhs) = match &expr.node {
            ast::Expression::Assign { lhs, rhs } => (lhs, rhs),
            _ => return Err(self.error("not an assignment")),
        };
        let dst = self.assign_dest(lhs)?;
        let val = self.trans_expr_to_value(rhs, block)?;
        let ghost mid = *block;
        self.open_block(block)?;
        block.store(val, dst);
        proof {
            if straight(expr.node) && !old(block).spec_finalized() {
                lemma_appends_push(mid, *block, ir::Instruction::Store { src: val, dst });
                lemma_appends_trans(*old(block), mid, *block);
                let app = appended(*block, *old(block));
                assert(app.drop_last() =~= appended(mid, *old(block)));
                assert forall|d: ir::Register| #[trigger] code_expr(old(self).session.symbol_table, old(self).fcx.scope,
                    expr.node, d, app) by {
                }
            }
        }
        Ok(())
    }

    /// Translate an assignment with an operator
    fn trans_assign_op(&mut self, expr: &ast::Node<ast::Expression>, block: &mut ir::Block) -> (r: Result<(), Diagnostic>)
        requires
            old(self).wf(),
        ensures
            final(self).wf(),
            straight(expr.node) ==> final(self).fcx.returned == old(self).fcx.returned,
            r is Ok ==> body_grows(final(self).fcx.body@, old(self).fcx.body@),
            final(self).ir == old(self).ir,
            r is Ok ==> final(self).frame(old(self)),
            straight(expr.node) && !old(block).spec_finalized() && r is Ok ==> final(self).session.symbol_table
                == old(self).session.symbol_table && final(self).fcx.body == old(self).fcx.body
                && appends(*final(block), *old(block))
                && (forall|d: ir::Register| #[trigger] code_expr(old(self).session.symbol_table, old(self).fcx.scope, expr.node, d,
                    appended(*final(block), *old(block)))),
        decreases expr.node, 1nat,
    {
        let lhs = match &expr.node {
            ast::Expression::AssignOp { lhs, .. } => lhs,
            _ => return Err(self.error("not an assignment")),
        };
        let dst = self.assign_dest(lhs)?;
        let tmp = self.next_free_register()?;
        self.trans_infix(expr, block, Dest::Store(tmp))?;
        let ghost mid = *block;
        self.open_block(block)?;
        block.store(ir::Value::Register(tmp), dst);
        proof {
            if straight(expr.node) && !old(block).spec_finalized() {
                lemma_appends_push(mid, *block, ir::Instruction::Store { src: ir::Value::Register(tmp), dst });
                lemma_appends_trans(*old(block), mid, *block);
                let app = appended(*block, *old(block));
                assert(app.drop_last() =~= appended(mid, *old(block)));
                assert forall|d: ir::Register| #[trigger] code_expr(old(self).session.symbol_table, old(self).fcx.scope,
                    expr.node, d, app) by {
                }
            }
        }
        Ok(())
    }

    /// Translate a function call
    fn trans_call(&mut self, expr: &ast::Node<ast::Expression>, block: &mut ir::Block, dest: Dest) -> (r: Result<(), Diagnostic>)
        requires
            old(self).wf(),
        ensures
            final(self).wf(),
            straight(expr.node) ==> final(self).fcx.returned == old(self).fcx.returned,
            r is Ok ==> body_grows(final(self).fcx.body@, old(self).fcx.body@),
            final(self).ir == old(self).ir,
            r is Ok ==> final(self).frame(old(self)),
            straight(expr.node) && !old(block).spec_finalized() && r is Ok ==> final(self).session.symbol_table
                == old(self).session.symbol_table && final(self).fcx.body == old(self).fcx.body
                && appends(*final(block), *old(block))
                && dest_code(old(self).session.symbol_table, old(self).fcx.scope, expr.node, dest, appended(*final(block), *old(block))),
        decreases expr.node, 0nat,
    {
        let (func, args) = match &expr.node {
            ast::Expression::Call { func, args } => (func, args),
            _ => return Err(self.error("not a call")),
        };
        let name = match &func.node {
            ast::Expression::Variable { name } => name.node,
            _ => return Err(self.error("cannot call non-function")),
        };
        let mut values: Vec<ir::Value> = Vec::new();
        let mut i: usize = 0;
        let ghost st = old(self).session.symbol_table;
        let ghost sc = old(self).fcx.scope;
        let ghost fresh = straight(expr.node) && !old(block).spec_finalized();
        proof {
            lemma_appends_refl(*block);
        }
        while i < args.len()
            invariant
                i <= args@.len(),
                expr.node is Call && expr.node->Call_args == *args,
                self.wf(),
                self.frame(old(self)),
                values@.len() == i,
                st == old(self).session.symbol_table,
                sc == old(self).fcx.scope,
                fresh == (straight(expr.node) && !old(block).spec_finalized()),
                straight(expr.node) ==> self.fcx.returned == old(self).fcx.returned,
                body_grows(self.fcx.body@, old(self).fcx.body@),
                fresh ==> self.session.symbol_table == st && self.fcx.body == old(self).fcx.body
                    && appends(*block, *old(block))
                    && code_args(st, sc, expr.node, i as nat, values@, appended(*block, *old(block))),
            decreases args@.len() - i,
        {
            proof {
                assert(decreases_to!(expr.node => args@[i as int].node));
                if straight(expr.node) {
                    lemma_args_straight(expr.node, args@.len(), i as int);
                }
            }
            let ghost before = *block;
            let ghost old_values = values@;
            let v = self.trans_expr_to_value(&args[i], block)?;
            values.push(v);
            i = i + 1;
            proof {
                if fresh {
                    lemma_appends_trans(*old(block), before, *block);
                    let app = appended(*block, *old(block));
                    let k = appended(before, *old(block)).len() as int;
                    assert(app.subrange(0, k) =~= appended(before, *old(block)));
                    assert(app.subrange(k, app.len() as int) =~= appended(*block, before));
                    assert(values@.drop_last() =~= old_values);
                    assert(code_args(st, sc, expr.node, i as nat, values@, app));
                }
            }
        }
        let dst = self.unwrap_dest(dest)?;
        let ghost mid = *block;
        self.open_block(block)?;
        let ghost vals = values@;
        block.call(name, values, dst);
        proof {
            if fresh {
                lemma_appends_push(mid, *block, block.inst@.last());
                lemma_appends_trans(*old(block), mid, *block);
                let app = appended(*block, *old(block));
                assert(app.drop_last() =~= appended(mid, *old(block)));
                assert(code_expr(st, sc, expr.node, dst, app));
            }
        }
        Ok(())
    }

    /// Translate an infix expression (or the operation of an assignment with
    /// an operator)
    ///
    /// `&&` and `||` short-circuit: the right-hand side is evaluated in a
    /// block of its own that is skipped when the left-hand side decides the
    /// result, and a phi function selects the value by where control came from.
    #[verifier::spinoff_prover]
    #[verifier::rlimit(40)]
    fn trans_infix(&mut self, expr: &ast::Node<ast::Expression>, block: &mut ir::Block, dest: Dest) -> (r: Result<(), Diagnostic>)
        requires
            old(self).wf(),
        ensures
            final(self).wf(),
            straight(expr.node) ==> final(self).fcx.returned == old(self).fcx.returned,
            r is Ok ==> body_grows(final(self).fcx.body@, old(self).fcx.body@),
            final(self).ir == old(self).ir,
            r is Ok ==> final(self).frame(old(self)),
            straight(expr.node) && !old(block).spec_finalized() && r is Ok ==> final(self).session.symbol_table
                == old(self).session.symbol_table && final(self).fcx.body == old(self).fcx.body
                && appends(*final(block), *old(block))
                && match dest {
                    Dest::Store(d) => code_operation(old(self).session.symbol_table, old(self).fcx.scope, expr.node, d,
                        appended(*final(block), *old(block))),
                    Dest::Ignore => exists|d: ir::Register| #[trigger] code_operation(old(self).session.symbol_table,
                        old(self).fcx.scope, expr.node, d, appended(*final(block), *old(block))),
                },
        decreases expr.node, 0nat,
    {
        let (op, lhs, rhs) = match &expr.node {
            ast::Expression::Infix { op, lhs, rhs } => (*op, lhs, rhs),
            ast::Expression::AssignOp { op, lhs, rhs } => (*op, lhs, rhs),
            _ => return Err(self.error("not an infix operation")),
        };
        match op.get_type() {
            ast::BinOpType::Arithmetic | ast::BinOpType::Bitwise => {
                let lhs_val = self.trans_expr_to_value(lhs, block)?;
                let ghost b1 = *block;
                let rhs_val = self.trans_expr_to_value(rhs, block)?;
                let dst = self.unwrap_dest(dest)?;
                let ghost b2 = *block;
                self.open_block(block)?;
                block.binop(ir::InfixOp::from_ast_op(op), lhs_val, rhs_val, dst);
                proof {
                    if straight(expr.node) && !old(block).spec_finalized() {
                        lemma_appends_push(b2, *block, block.inst@.last());
                        lemma_appends_trans(*old(block), b1, b2);
                        lemma_appends_trans(*old(block), b2, *block);
                        let app = appended(*block, *old(block));
                        let k = instrs_len(appended(b1, *old(block)));
                        assert(app.drop_last() =~= appended(b2, *old(block)));
                        assert(app.drop_last().subrange(0, k) =~= appended(b1, *old(block)));
                        assert(app.drop_last().subrange(k, app.len() - 1) =~= appended(b2, b1));
                        assert(operands_code(old(self).session.symbol_table, old(self).fcx.scope, expr.node, lhs_val, rhs_val,
                            app.drop_last()));
                        assert(code_operation(old(self).session.symbol_table, old(self).fcx.scope, expr.node, dst, app));
                    }
                }
            },
            ast::BinOpType::Logic => {
                let label_rhs = self.next_free_label("lazy-rhs")?;
                let label_next = self.next_free_label("lazy-next")?;
                // The left-hand side
                let lhs_val = self.trans_expr_to_value(lhs, block)?;
                self.open_block(block)?;
                let label_lhs = block.label;
                // `&&` evaluates the right-hand side if the left-hand side is
                // true, `||` if it is false
                if op == ast::BinOp::And {
                    block.branch(lhs_val, label_rhs, label_next);
                } else {
                    block.branch(lhs_val, label_next, label_rhs);
                }
                // Evaluate the right-hand side
                self.commit_block_and_continue(block, label_rhs);
                let rhs_val = self.trans_expr_to_value(rhs, block)?;
                self.open_block(block)?;
                let label_rhs_end = block.label;
                block.jump(label_next);
                // Select the value based on where we came from
                self.commit_block_and_continue(block, label_next);
                let dst = self.unwrap_dest(dest)?;
                let mut srcs: Vec<(ir::Value, ir::Label)> = Vec::new();
                srcs.push((lhs_val, label_lhs));
                srcs.push((rhs_val, label_rhs_end));
                self.open_block(block)?;
                block.phi(srcs, dst);
            },
            ast::BinOpType::Comparison => {
                let lhs_val = self.trans_expr_to_value(lhs, block)?;
                let ghost b1 = *block;
                let rhs_val = self.trans_expr_to_value(rhs, block)?;
                let dst = self.unwrap_dest(dest)?;
                let ghost b2 = *block;
                self.open_block(block)?;
                block.cmp(ir::CmpOp::from_ast_op(op), lhs_val, rhs_val, dst);
                proof {
                    if straight(expr.node) && !old(block).spec_finalized() {
                        lemma_appends_push(b2, *block, block.inst@.last());
                        lemma_appends_trans(*old(block), b1, b2);
                        lemma_appends_trans(*old(block), b2, *block);
                        let app = appended(*block, *old(block));
                        let k = instrs_len(appended(b1, *old(block)));
                        assert(app.drop_last() =~= appended(b2, *old(block)));
                        assert(app.drop_last().subrange(0, k) =~= appended(b1, *old(block)));
                        assert(app.drop_last().subrange(k, app.len() - 1) =~= appended(b2, b1));
                        assert(operands_code(old(self).session.symbol_table, old(self).fcx.scope, expr.node, lhs_val, rhs_val,
                            app.drop_last()));
                        assert(code_operation(old(self).session.symbol_table, old(self).fcx.scope, expr.node, dst, app));
                    }
                }
            },
        }
        Ok(())
    }

    /// Translate a prefix operation
    fn trans_prefix(&mut self, expr: &ast::Node<ast::Expression>, block: &mut ir::Block, dest: Dest) -> (r: Result<(), Diagnostic>)
        requires
            old(self).wf(),
        ensures
            final(self).wf(),
            straight(expr.node) ==> final(self).fcx.returned == old(self).fcx.returned,
            r is Ok ==> body_grows(final(self).fcx.body@, old(self).fcx.body@),
            final(self).ir == old(self).ir,
            r is Ok ==> final(self).frame(old(self)),
            straight(expr.node) && !old(block).spec_finalized() && r is Ok ==> final(self).session.symbol_table
                == old(self).session.symbol_table && final(self).fcx.body == old(self).fcx.body
                && appends(*final(block), *old(block))
                && dest_code(old(self).session.symbol_table, old(self).fcx.scope, expr.node, dest, appended(*final(block), *old(block))),
        decreases expr.node, 0nat,
    {
        let (op, item) = match &expr.node {
            ast::Expression::Prefix { op, item } => (*op, item),
            _ => return Err(self.error("not a prefix operation")),
        };
        let tmp = self.trans_expr_to_value(item, block)?;
        let dst = self.unwrap_dest(dest)?;
        let ghost mid = *block;
        self.open_block(block)?;
        block.unop(ir::PrefixOp::from_ast_op(op), tmp, dst);
        proof {
            if straight(expr.node) && !old(block).spec_finalized() {
                lemma_appends_push(mid, *block, block.inst@.last());
                lemma_appends_trans(*old(block), mid, *block);
                let app = appended(*block, *old(block));
                assert(app.drop_last() =~= appended(mid, *old(block)));
                assert(code_expr(old(self).session.symbol_table, old(self).fcx.scope, expr.node, dst, app));
            }
        }
        Ok(())
    }
}

} // verus!
