//! Make sure a `main` function is present

use vstd::prelude::*;
use crate::driver::interner::{Interner, lemma_ident_name_injective};
use crate::driver::session::Diagnostic;
use crate::front::ast::{Program, Symbol};
use crate::util::text::string_of;

verus! {

/// Whether a symbol is a function named `main` (the name looked up in `names`)
pub open spec fn is_main(s: Symbol, names: Seq<Seq<char>>) -> bool {
    &&& s is Function
    &&& s->name.node.0 < names.len()
    &&& names[s->name.node.0 as int] == "main"@
}

/// Make sure the program has a function named `main`. The name is interned
/// to be compared with the function names.
pub fn run(program: &Program, interner: &mut Interner) -> (r: Result<(), Diagnostic>)
    requires
        old(interner).wf(),
    ensures
        final(interner).wf(),
        final(interner)@.len() <= old(interner)@.len() + 1,
        forall|i: int| 0 <= i < old(interner)@.len() ==> #[trigger] final(interner)@[i] == old(interner)@[i],
        r is Ok <==> exists|i: int| 0 <= i < program@.len() && is_main(#[trigger] program@[i].node, final(interner)@),
        r matches Err(d) ==> d.pos is None && d.msg@ == "main function not found"@,
{
    let main = interner.intern_str("main");
    let mut i: usize = 0;
    while i < program.len()
        invariant
            interner.wf(),
            interner@.len() <= old(interner)@.len() + 1,
            forall|k: int| 0 <= k < old(interner)@.len() ==> #[trigger] interner@[k] == old(interner)@[k],
            main.0 < interner@.len(),
            interner@[main.0 as int] == "main"@,
            i <= program@.len(),
            forall|j: int| 0 <= j < i ==> !is_main(#[trigger] program@[j].node, interner@),
        decreases program@.len() - i,
    {
        if let Symbol::Function { name, .. } = &program[i].node {
            if name.node.0 == main.0 {
                return Ok(());
            }
            proof {
                if name.node.0 < interner@.len() {
                    lemma_ident_name_injective(interner, name.node, main);
                }
            }
        }
        i = i + 1;
    }
    Err(Diagnostic::general(string_of("main function not found")))
}

} // verus!
