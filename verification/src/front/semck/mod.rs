//! Semantics checker
//!
//! Make sure the source program makes sense.

pub mod break_verifier;
pub mod lvalue_check;
pub mod main_presence_check;
pub mod scope_table_builder;
pub mod symbol_table_builder;

use vstd::prelude::*;
use crate::driver::session::{Diagnostic, Session};
use crate::front::ast::Program;
use self::break_verifier::symbol_breaks_ok;
use self::lvalue_check::program_lvalues_ok;
use self::main_presence_check::is_main;
use self::scope_table_builder::{ids_fresh, program_block_ids, program_scoped};
use self::symbol_table_builder::{names_fresh, registers};

verus! {

/// Run all semantic checks, in this order: a `main` function is present, the
/// left-hand side of each assignment is a variable, each `break` is within a
/// loop, the symbols have distinct names (registering them in the symbol
/// table) and all names resolve (registering the scopes). The first check
/// that fails gives the error.
pub fn run(program: &Program, session: &mut Session) -> (r: Result<(), Diagnostic>)
    requires
        old(session).wf(),
    ensures
        final(session).wf(),
        final(session).codemap == old(session).codemap,
        final(session).errors == old(session).errors,
        final(session).interner@.len() <= old(session).interner@.len() + 1,
        forall|i: int| 0 <= i < old(session).interner@.len() ==>
            #[trigger] final(session).interner@[i] == old(session).interner@[i],
        r is Ok ==> exists|i: int| 0 <= i < program@.len() && is_main(#[trigger] program@[i].node, final(session).interner@),
        r is Ok ==> program_lvalues_ok(program@),
        r is Ok ==> forall|i: int| 0 <= i < program@.len() ==> symbol_breaks_ok(#[trigger] program@[i].node),
        r is Ok ==> names_fresh(program@, old(session).symbol_table.symbol_map()),
        r is Ok ==> registers(final(session).symbol_table.symbol_map(), old(session).symbol_table.symbol_map(), program@),
        r is Ok ==> program_scoped(program@, final(session).symbol_table.symbol_map()),
        !(exists|i: int| 0 <= i < program@.len() && is_main(#[trigger] program@[i].node, final(session).interner@)) ==> r is Err,
        !program_lvalues_ok(program@) ==> r is Err,
        !(forall|i: int| 0 <= i < program@.len() ==> symbol_breaks_ok(#[trigger] program@[i].node)) ==> r is Err,
        !names_fresh(program@, old(session).symbol_table.symbol_map()) ==> r is Err,
        r is Err ==> !ids_fresh(program_block_ids(program@), old(session).symbol_table.scope_map().dom())
            || !program_scoped(program@, final(session).symbol_table.symbol_map())
            || !names_fresh(program@, old(session).symbol_table.symbol_map())
            || !program_lvalues_ok(program@)
            || !(forall|i: int| 0 <= i < program@.len() ==> symbol_breaks_ok(#[trigger] program@[i].node))
            || !(exists|i: int| 0 <= i < program@.len() && is_main(#[trigger] program@[i].node, final(session).interner@)),
{
    main_presence_check::run(program, &mut session.interner)?;
    lvalue_check::run(program)?;
    break_verifier::run(program)?;
    symbol_table_builder::run(program, &mut session.symbol_table, &session.interner)?;
    scope_table_builder::run(program, &mut session.symbol_table, &session.interner)
}

} // verus!
