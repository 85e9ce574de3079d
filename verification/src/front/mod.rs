//! The front end: parsing + semantic analysis

pub mod ast;
pub mod lexer;
pub mod parser;
pub mod semck;
pub mod typeck;
pub mod tokens;

use vstd::prelude::*;
use crate::driver::interner::Interner;
use crate::front::tokens::{Keyword, all_keywords, keyword_name};

verus! {

/// Load all keywords into the interning table
pub fn setup(interner: &mut Interner)
    requires
        old(interner).wf(),
    ensures
        final(interner).wf(),
        forall|i: int| 0 <= i < all_keywords().len() ==> #[trigger] final(interner)@.contains(keyword_name(all_keywords()[i])),
        forall|n: Seq<char>| old(interner)@.contains(n) ==> final(interner)@.contains(n),
{
    Keyword::setup(interner);
}

} // verus!
