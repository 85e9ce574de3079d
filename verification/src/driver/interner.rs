//! The string interner
//!
//! Identifiers are repeated all over a source file. Instead of keeping a copy
//! of the name everywhere, each distinct name is stored once in the interner
//! and referred to by its index, the `Ident`.

use vstd::prelude::*;
use crate::util::text::{chars_eq, copy_chars, str_chars};

verus! {

/// An identifier refering to an interned string
#[derive(Clone, Copy, Debug, PartialEq, Eq, Structural, Hash)]
pub struct Ident(pub usize);

/// A string stored in the interner
#[derive(Clone, Debug)]
pub struct InternedString {
    pub string: Vec<char>,
}

impl InternedString {
    pub fn new(string: &[char]) -> (r: InternedString)
        ensures
            r.string@ == string@,
    {
        InternedString { string: copy_chars(string) }
    }

    pub fn as_chars(&self) -> (r: &[char])
        ensures
            r@ == self.string@,
    {
        self.string.as_slice()
    }
}

/// The interner itself: the `i`-th entry is the name of `Ident(i)`
pub struct Interner {
    vec: Vec<InternedString>,
}

impl View for Interner {
    type V = Seq<Seq<char>>;

    closed spec fn view(&self) -> Seq<Seq<char>> {
        Seq::new(self.vec@.len(), |i: int| self.vec@[i].string@)
    }
}

impl Interner {
    /// No name is stored twice
    pub open spec fn wf(&self) -> bool {
        forall|i: int, j: int| 0 <= i < j < self@.len() ==> self@[i] != self@[j]
    }

    /// There are at most as many names as a `usize` counts
    pub proof fn lemma_len_bound(&self)
        ensures
            self@.len() <= usize::MAX,
    {
        broadcast use vstd::std_specs::vec::axiom_spec_len;
        assert(self.vec@.len() == self.vec.len());
    }

    /// Create a new, empty interner
    pub fn new() -> (r: Interner)
        ensures
            r@ == Seq::<Seq<char>>::empty(),
            r.wf(),
    {
        Interner { vec: Vec::new() }
    }

    /// The number of interned names
    pub fn len(&self) -> (r: usize)
        ensures
            r == self@.len(),
    {
        self.vec.len()
    }

    /// Intern a name (if not already interned) and return its identifier
    pub fn intern(&mut self, val: &[char]) -> (r: Ident)
        requires
            old(self).wf(),
        ensures
            final(self).wf(),
            r.0 < final(self)@.len(),
            final(self)@[r.0 as int] == val@,
            old(self)@.contains(val@) ==> final(self)@ == old(self)@,
            !old(self)@.contains(val@) ==> final(self)@ == old(self)@.push(val@),
    {
        let mut i: usize = 0;
        while i < self.vec.len()
            invariant
                i <= self@.len(),
                self.wf(),
                self@ == old(self)@,
                forall|j: int| 0 <= j < i ==> self@[j] != val@,
            decreases self@.len() - i,
        {
            if chars_eq(self.vec[i].as_chars(), val) {
                assert(old(self)@[i as int] == val@);
                assert(old(self)@.contains(val@));
                return Ident(i);
            }
            i = i + 1;
        }
        let idx = self.vec.len();
        self.vec.push(InternedString::new(val));
        assert(final(self)@ =~= old(self)@.push(val@));
        Ident(idx)
    }

    /// Intern a string slice
    pub fn intern_str(&mut self, val: &str) -> (r: Ident)
        requires
            old(self).wf(),
        ensures
            final(self).wf(),
            r.0 < final(self)@.len(),
            final(self)@[r.0 as int] == val@,
            old(self)@.contains(val@) ==> final(self)@ == old(self)@,
            !old(self)@.contains(val@) ==> final(self)@ == old(self)@.push(val@),
    {
        let chars = str_chars(val);
        self.intern(chars.as_slice())
    }

    /// Get the name of an identifier
    pub fn resolve(&self, ident: Ident) -> (r: &[char])
        requires
            ident.0 < self@.len(),
        ensures
            r@ == self@[ident.0 as int],
    {
        self.vec[ident.0].as_chars()
    }
}

impl Ident {
    /// Intern a name and return its identifier
    pub fn new(interner: &mut Interner, s: &str) -> (r: Ident)
        requires
            old(interner).wf(),
        ensures
            final(interner).wf(),
            r.0 < final(interner)@.len(),
            final(interner)@[r.0 as int] == s@,
            old(interner)@.contains(s@) ==> final(interner)@ == old(interner)@,
            !old(interner)@.contains(s@) ==> final(interner)@ == old(interner)@.push(s@),
    {
        interner.intern_str(s)
    }
}

/// Two identifiers of one interner are equal exactly when their names are.
pub proof fn lemma_ident_name_injective(interner: &Interner, a: Ident, b: Ident)
    requires
        interner.wf(),
        a.0 < interner@.len(),
        b.0 < interner@.len(),
    ensures
        (a == b) <==> (interner@[a.0 as int] == interner@[b.0 as int]),
{
    if a.0 < b.0 {
        assert(interner@[a.0 as int] != interner@[b.0 as int]);
    } else if b.0 < a.0 {
        assert(interner@[b.0 as int] != interner@[a.0 as int]);
    }
}

/// Interning a name that is already present gives back its identifier
/// and leaves the interner unchanged; interning twice gives the same identifier.
pub proof fn lemma_intern_idempotent(interner: &Interner, i: Ident, j: Ident)
    requires
        interner.wf(),
        i.0 < interner@.len(),
        j.0 < interner@.len(),
        interner@[i.0 as int] == interner@[j.0 as int],
    ensures
        i == j,
{
    lemma_ident_name_injective(interner, i, j);
}

} // verus!
