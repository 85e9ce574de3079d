//! Error locations
//!
//! Errors are reported with the source location they refer to: anything
//! that knows where it stands in the source can give its location.

use vstd::prelude::*;
use crate::driver::codemap::{BytePos, Codemap, Loc, resolve_spec};
use crate::front::ast::{Node, Span};

verus! {

/// Something that stands at a place in the source
pub trait HasSourceLocation {
    /// Whether the codemap with line starts `lines` can locate it
    spec fn locatable(&self, lines: Seq<u32>) -> bool;

    /// Its location according to the line starts `lines`
    spec fn loc_spec(&self, lines: Seq<u32>) -> Loc;

    /// Its source location
    fn loc(&self, codemap: &Codemap) -> (r: Loc)
        requires
            codemap.wf(),
            self.locatable(codemap@),
        ensures
            r == self.loc_spec(codemap@);
}

impl HasSourceLocation for Span {
    open spec fn locatable(&self, lines: Seq<u32>) -> bool {
        self.pos < u32::MAX
    }

    open spec fn loc_spec(&self, lines: Seq<u32>) -> Loc {
        resolve_spec(lines, self.pos)
    }

    fn loc(&self, codemap: &Codemap) -> (r: Loc) {
        proof {
            codemap.lemma_resolvable(self.pos);
        }
        codemap.resolve(BytePos(self.pos))
    }
}

impl HasSourceLocation for Loc {
    open spec fn locatable(&self, lines: Seq<u32>) -> bool {
        true
    }

    open spec fn loc_spec(&self, lines: Seq<u32>) -> Loc {
        *self
    }

    fn loc(&self, codemap: &Codemap) -> (r: Loc) {
        *self
    }
}

impl<T> HasSourceLocation for Node<T> {
    open spec fn locatable(&self, lines: Seq<u32>) -> bool {
        self.span.pos < u32::MAX
    }

    open spec fn loc_spec(&self, lines: Seq<u32>) -> Loc {
        resolve_spec(lines, self.span.pos)
    }

    fn loc(&self, codemap: &Codemap) -> (r: Loc) {
        self.span.loc(codemap)
    }
}

} // verus!
