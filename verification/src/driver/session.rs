//! The Session
//!
//! The data that almost all phases of compilation need: the codemap, the
//! interner, the symbol table and the errors reported so far. It is passed
//! along explicitly from phase to phase.

use vstd::prelude::*;
use crate::driver::codemap::Codemap;
use crate::driver::interner::Interner;
use crate::driver::symbol_table::{BlockScope, SymbolTable};
use crate::front::ast;
use crate::front::tokens::{Keyword, all_keywords, keyword_name};

verus! {

/// An error report: a message and the byte position it refers to, if any
#[derive(Debug)]
pub struct Diagnostic {
    pub msg: String,
    pub pos: Option<u32>,
}

impl Diagnostic {
    /// An error at a source position
    pub fn at(msg: String, pos: u32) -> (r: Diagnostic)
        ensures
            r.msg@ == msg@,
            r.pos == Some(pos),
    {
        Diagnostic { msg, pos: Some(pos) }
    }

    /// A copy of the diagnostic
    pub fn copy(&self) -> (r: Diagnostic)
        ensures
            r.msg@ == self.msg@,
            r.pos == self.pos,
    {
        Diagnostic { msg: self.msg.clone(), pos: self.pos }
    }

    /// An error without a source position
    pub fn general(msg: String) -> (r: Diagnostic)
        ensures
            r.msg@ == msg@,
            r.pos is None,
    {
        Diagnostic { msg, pos: None }
    }
}

/// The interner `new` holds all names of `old`, at the same identifiers
pub open spec fn interner_extends(old: Seq<Seq<char>>, new: Seq<Seq<char>>) -> bool {
    &&& old.len() <= new.len()
    &&& forall|i: int| 0 <= i < old.len() ==> #[trigger] new[i] == old[i]
}

/// The current compiling session
pub struct Session {
    pub codemap: Codemap,
    pub interner: Interner,
    pub errors: Vec<Diagnostic>,
    pub symbol_table: SymbolTable,
}

impl Session {
    pub open spec fn wf(&self) -> bool {
        &&& self.codemap.wf()
        &&& self.interner.wf()
        &&& self.symbol_table.wf()
    }

    /// A fresh session with all keywords loaded into the interner
    pub fn new() -> (r: Session)
        ensures
            r.wf(),
            r.errors@.len() == 0,
            r.codemap@ == seq![0u32],
            forall|n: Seq<char>| #[trigger] r.interner@.contains(n) <==>
                exists|j: int| 0 <= j < all_keywords().len() && n == keyword_name(all_keywords()[j]),
            r.symbol_table.scope_map() == Map::<u32, BlockScope>::empty(),
            r.symbol_table.symbol_map() == Map::<usize, ast::Symbol>::empty(),
    {
        let mut interner = Interner::new();
        Keyword::setup(&mut interner);
        Session { codemap: Codemap::new(), interner, errors: Vec::new(), symbol_table: SymbolTable::new() }
    }

    /// Record an error with a source location
    pub fn span_err(&mut self, msg: String, pos: u32)
        ensures
            final(self).errors@.len() == old(self).errors@.len() + 1,
            final(self).errors@.last().msg@ == msg@,
            final(self).errors@.last().pos == Some(pos),
            final(self).codemap == old(self).codemap,
            final(self).interner == old(self).interner,
            final(self).symbol_table == old(self).symbol_table,
    {
        self.errors.push(Diagnostic::at(msg, pos));
    }

    /// Record an error
    pub fn err(&mut self, msg: String)
        ensures
            final(self).errors@.len() == old(self).errors@.len() + 1,
            final(self).errors@.last().msg@ == msg@,
            final(self).errors@.last().pos is None,
            final(self).codemap == old(self).codemap,
            final(self).interner == old(self).interner,
            final(self).symbol_table == old(self).symbol_table,
    {
        self.errors.push(Diagnostic::general(msg));
    }

    /// Whether any errors occured (compilation has to stop then)
    pub fn abort_if_errors(&self) -> (r: Result<(), ()>)
        ensures
            r is Err <==> self.errors@.len() > 0,
    {
        if self.errors.len() > 0 { Err(()) } else { Ok(()) }
    }
}

} // verus!
