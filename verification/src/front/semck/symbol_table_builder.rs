//! Build the symbol table and check for duplicate definitions

use vstd::prelude::*;
use crate::driver::interner::Interner;
use crate::driver::session::Diagnostic;
use crate::driver::symbol_table::SymbolTable;
use crate::front::ast::{Node, Program, Symbol, is_stripped_copy, symbol_ident};
use crate::util::text::{push_chars, push_str};

verus! {

/// No two symbols of the sequence have the same name, and none is named like
/// a symbol of `known`
pub open spec fn names_fresh(p: Seq<Node<Symbol>>, known: Map<usize, Symbol>) -> bool {
    &&& forall|i: int, j: int| 0 <= i < j < p.len() ==> symbol_ident(#[trigger] p[i].node).0 != symbol_ident(#[trigger] p[j].node).0
    &&& forall|i: int| 0 <= i < p.len() ==> !known.contains_key(symbol_ident(#[trigger] p[i].node).0)
}

/// `table` holds the symbols of `known` and, under its name, a body-less copy
/// of each symbol of `p`, and nothing else
pub open spec fn registers(table: Map<usize, Symbol>, known: Map<usize, Symbol>, p: Seq<Node<Symbol>>) -> bool {
    &&& forall|k: usize| #[trigger] table.contains_key(k) <==>
        (known.contains_key(k) || exists|i: int| 0 <= i < p.len() && symbol_ident(#[trigger] p[i].node).0 == k)
    &&& forall|k: usize| #[trigger] known.contains_key(k) ==> table[k] == known[k]
    &&& forall|i: int| 0 <= i < p.len() ==> is_stripped_copy(#[trigger] p[i].node, table[symbol_ident(p[i].node).0])
}

/// The error for a name declared twice
fn redeclared(symbol: &Node<Symbol>, interner: &Interner) -> (r: Diagnostic)
    requires
        interner.wf(),
    ensures
        r.pos == Some(symbol.span.pos),
{
    let name = symbol.node.get_ident();
    let mut msg = String::new();
    push_str(&mut msg, "cannot redeclare `");
    if name.0 < interner.len() {
        push_chars(&mut msg, interner.resolve(name));
    }
    push_str(&mut msg, "`");
    Diagnostic::at(msg, symbol.span.pos)
}

/// Register every symbol of the program under its name; fails at the first
/// symbol whose name is taken
pub fn run(program: &Program, table: &mut SymbolTable, interner: &Interner) -> (r: Result<(), Diagnostic>)
    requires
        old(table).wf(),
        interner.wf(),
    ensures
        final(table).wf(),
        final(table).scope_map() == old(table).scope_map(),
        r is Ok <==> names_fresh(program@, old(table).symbol_map()),
        r is Ok ==> registers(final(table).symbol_map(), old(table).symbol_map(), program@),
{
    let ghost known = table.symbol_map();
    let mut i: usize = 0;
    while i < program.len()
        invariant
            table.wf(),
            interner.wf(),
            table.scope_map() == old(table).scope_map(),
            known == old(table).symbol_map(),
            i <= program@.len(),
            names_fresh(program@.subrange(0, i as int), known),
            registers(table.symbol_map(), known, program@.subrange(0, i as int)),
        decreases program@.len() - i,
    {
        let symbol = &program[i];
        let name = symbol.node.get_ident();
        let ghost before = table.symbol_map();
        let ghost p = program@.subrange(0, i as int);
        let ghost q = program@.subrange(0, i + 1);
        match table.register_symbol(name, symbol.node.clone_stripped()) {
            Ok(()) => {
                proof {
                    assert forall|a: int, b: int| 0 <= a < b < q.len() implies
                        symbol_ident(#[trigger] q[a].node).0 != symbol_ident(#[trigger] q[b].node).0 by {
                        if b == i {
                            assert(p[a] == q[a]);
                            assert(before.contains_key(symbol_ident(p[a].node).0));
                        } else {
                            assert(p[a] == q[a] && p[b] == q[b]);
                        }
                    }
                    assert forall|a: int| 0 <= a < q.len() implies !known.contains_key(symbol_ident(#[trigger] q[a].node).0) by {
                        if a < i {
                            assert(p[a] == q[a]);
                        }
                    }
                    assert forall|k: usize| #[trigger] table.symbol_map().contains_key(k) <==>
                        (known.contains_key(k) || exists|a: int| 0 <= a < q.len() && symbol_ident(#[trigger] q[a].node).0 == k) by {
                        assert(q[i as int] == program@[i as int]);
                        assert(symbol_ident(q[i as int].node).0 == name.0);
                        if exists|a: int| 0 <= a < q.len() && symbol_ident(#[trigger] q[a].node).0 == k {
                            let a = choose|a: int| 0 <= a < q.len() && symbol_ident(#[trigger] q[a].node).0 == k;
                            if a < i {
                                assert(p[a] == q[a]);
                            }
                        }
                        if before.contains_key(k) && !known.contains_key(k) {
                            let a = choose|a: int| 0 <= a < p.len() && symbol_ident(#[trigger] p[a].node).0 == k;
                            assert(p[a] == q[a]);
                        }
                    }
                    assert forall|a: int| 0 <= a < q.len() implies
                        is_stripped_copy(#[trigger] q[a].node, table.symbol_map()[symbol_ident(q[a].node).0]) by {
                        if a < i {
                            assert(p[a] == q[a]);
                            assert(before.contains_key(symbol_ident(p[a].node).0));
                        }
                    }
                }
            },
            Err(_) => {
                proof {
                    if !known.contains_key(name.0) {
                        let a = choose|a: int| 0 <= a < p.len() && symbol_ident(#[trigger] p[a].node).0 == name.0;
                        assert(program@[a] == p[a]);
                        assert(symbol_ident(program@[a].node).0 == symbol_ident(program@[i as int].node).0);
                    }
                }
                return Err(redeclared(symbol, interner));
            },
        }
        i = i + 1;
    }
    assert(program@.subrange(0, program@.len() as int) =~= program@);
    Ok(())
}

} // verus!
