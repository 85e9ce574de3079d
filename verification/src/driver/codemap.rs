//! The codemap
//!
//! The parser annotates nodes with spans that point into the source file.
//! The codemap keeps track of where each line starts, so that a byte position
//! can be turned into a line and a column for error reporting.

use vstd::prelude::*;
use crate::front::lexer::lemma_utf8_total_prefix;
use crate::util::chars::{len_utf8, utf8_total};
use crate::util::text::str_chars;

verus! {

/// A byte offset into the source file
#[derive(Clone, Copy, Debug, PartialEq, Eq, Structural)]
pub struct BytePos(pub u32);

impl BytePos {
    pub fn as_int(&self) -> (r: u32)
        ensures
            r == self.0,
    {
        self.0
    }
}

/// A source location (used for error reporting)
#[derive(Clone, Copy, Debug, PartialEq, Eq, Structural)]
pub struct Loc {
    /// The (1-based) line number
    pub line: u32,
    /// The column offset
    pub col: u32,
}

/// The start offsets of all lines
pub struct Codemap {
    lines: Vec<BytePos>,
}

impl View for Codemap {
    type V = Seq<u32>;

    closed spec fn view(&self) -> Seq<u32> {
        Seq::new(self.lines@.len(), |i: int| self.lines@[i].0)
    }
}

/// The index of the last line that starts at or before `pos`
pub open spec fn line_of(lines: Seq<u32>, pos: u32) -> int
    decreases lines.len(),
{
    if lines.len() <= 1 {
        0
    } else if lines.last() <= pos {
        lines.len() - 1
    } else {
        line_of(lines.drop_last(), pos)
    }
}

/// The location the codemap gives to a position
pub open spec fn resolve_spec(lines: Seq<u32>, pos: u32) -> Loc {
    let line = line_of(lines, pos);
    let p: int = if line == 0 { pos + 1 } else { pos as int };
    Loc { line: (line + 1) as u32, col: (p - lines[line]) as u32 }
}

impl Codemap {
    /// Line starts are strictly increasing, beginning with 0
    pub open spec fn wf(&self) -> bool {
        &&& self@.len() >= 1
        &&& self@[0] == 0
        &&& self@.len() <= u32::MAX + 1
        &&& forall|i: int, j: int| 0 <= i < j < self@.len() ==> self@[i] < self@[j]
    }

    /// Create a new Codemap instance: the first line starts at 0
    pub fn new() -> (r: Codemap)
        ensures
            r.wf(),
            r@ == seq![0u32],
    {
        let mut lines = Vec::new();
        lines.push(BytePos(0));
        let r = Codemap { lines };
        assert(r@ =~= seq![0u32]);
        r
    }

    /// The start of the last registered line
    pub fn last_line_start(&self) -> (r: u32)
        requires
            self.wf(),
        ensures
            r == self@.last(),
    {
        self.lines[self.lines.len() - 1].0
    }

    /// Register the beginning of a new line at a given offset
    pub fn new_line(&mut self, pos: BytePos)
        requires
            old(self).wf(),
            old(self)@.last() < pos.0,
        ensures
            final(self).wf(),
            final(self)@ == old(self)@.push(pos.0),
    {
        proof {
            lemma_increasing_ge_index(self@);
            assert(self@[self@.len() - 1] >= self@.len() - 1);
            assert forall|i: int| 0 <= i < self@.len() implies self@[i] < pos.0 by {
                if i < self@.len() - 1 {
                    assert(self@[i] < self@[self@.len() - 1]);
                }
            }
        }
        self.lines.push(pos);
        assert(self@ =~= old(self)@.push(pos.0));
    }

    /// Get the source location of an offset
    pub fn resolve(&self, pos: BytePos) -> (r: Loc)
        requires
            self.wf(),
            line_of(self@, pos.0) == 0 ==> pos.0 < u32::MAX,
            line_of(self@, pos.0) < u32::MAX,
        ensures
            r == resolve_spec(self@, pos.0),
    {
        let ghost lines = self@;
        // Binary search for the last line whose start is <= pos
        let mut lower: usize = 0;
        let mut upper: usize = self.lines.len();
        proof {
            lemma_line_of_bounds(lines, pos.0);
        }
        while upper - lower > 1
            invariant
                self.wf(),
                lines == self@,
                lower < upper <= lines.len(),
                lines[lower as int] <= pos.0 || lower == 0,
                upper == lines.len() || lines[upper as int] > pos.0,
                lower as int <= line_of(lines, pos.0) < upper,
            decreases upper - lower,
        {
            let mid = lower + (upper - lower) / 2;
            let offset = self.lines[mid];
            if offset.0 > pos.0 {
                proof { lemma_line_of_below(lines, pos.0, mid as int); }
                upper = mid;
            } else {
                proof { lemma_line_of_above(lines, pos.0, mid as int); }
                lower = mid;
            }
        }
        let line = lower;
        let offset = self.lines[line];
        let p: u32 = if line == 0 { pos.0 + 1 } else { pos.0 };
        proof {
            if line > 0 {
                assert(lines[line as int] <= pos.0);
            }
        }
        Loc { line: line as u32 + 1, col: p - offset.0 }
    }
}

impl Codemap {
    /// Every position below `u32::MAX` can be resolved
    pub proof fn lemma_resolvable(&self, pos: u32)
        requires
            self.wf(),
            pos < u32::MAX,
        ensures
            line_of(self@, pos) < u32::MAX,
            line_of(self@, pos) == 0 ==> pos < u32::MAX,
    {
        lemma_increasing_ge_index(self@);
        lemma_line_of_bounds(self@, pos);
    }
}

/// The line starts a codemap holds after reading the first `k` characters of
/// `s`: 0, then the byte offset of every newline but one at offset 0
pub open spec fn newline_starts(s: Seq<char>, k: int) -> Seq<u32>
    decreases k,
{
    if k <= 0 {
        seq![0u32]
    } else if s[k - 1] == '\n' && k - 1 > 0 {
        newline_starts(s, k - 1).push(utf8_total(s.subrange(0, k - 1)) as u32)
    } else {
        newline_starts(s, k - 1)
    }
}

/// The source location of a byte offset in a text
pub fn locate(source: &str, pos: u32) -> (r: Loc)
    requires
        utf8_total(source@) < u32::MAX,
        pos < u32::MAX,
    ensures
        r == resolve_spec(newline_starts(source@, source@.len() as int), pos),
{
    let chars = str_chars(source);
    let mut map = Codemap::new();
    let mut offset: u32 = 0;
    let mut i: usize = 0;
    while i < chars.len()
        invariant
            chars@ == source@,
            i <= chars@.len(),
            map.wf(),
            map@ == newline_starts(chars@, i as int),
            offset == utf8_total(chars@.subrange(0, i as int)),
            utf8_total(chars@) < u32::MAX,
            i > 0 ==> map@.last() < offset,
        decreases chars@.len() - i,
    {
        proof {
            assert(chars@.subrange(0, i + 1).drop_last() =~= chars@.subrange(0, i as int));
            lemma_utf8_total_prefix(chars@, i + 1);
        }
        if chars[i] == '\n' && i > 0 {
            map.new_line(BytePos(offset));
        }
        offset = offset + len_utf8(chars[i]);
        i = i + 1;
    }
    assert(chars@.subrange(0, chars@.len() as int) =~= chars@);
    proof {
        map.lemma_resolvable(pos);
    }
    map.resolve(BytePos(pos))
}

proof fn lemma_increasing_ge_index(lines: Seq<u32>)
    requires
        lines.len() >= 1,
        lines[0] == 0,
        forall|i: int, j: int| 0 <= i < j < lines.len() ==> lines[i] < lines[j],
    ensures
        forall|i: int| 0 <= i < lines.len() ==> lines[i] >= i,
    decreases lines.len(),
{
    if lines.len() > 1 {
        let l = lines.drop_last();
        lemma_increasing_ge_index(l);
        assert forall|i: int| 0 <= i < lines.len() implies lines[i] >= i by {
            if i < lines.len() - 1 {
                assert(l[i] == lines[i]);
            } else {
                assert(l[i - 1] == lines[i - 1]);
                assert(lines[i - 1] < lines[i]);
            }
        }
    }
}

proof fn lemma_line_of_bounds(lines: Seq<u32>, pos: u32)
    requires
        lines.len() >= 1,
        lines[0] == 0,
        forall|i: int, j: int| 0 <= i < j < lines.len() ==> lines[i] < lines[j],
    ensures
        0 <= line_of(lines, pos) < lines.len(),
        lines[line_of(lines, pos)] <= pos,
        forall|k: int| line_of(lines, pos) < k < lines.len() ==> lines[k] > pos,
    decreases lines.len(),
{
    if lines.len() > 1 && !(lines.last() <= pos) {
        let l = lines.drop_last();
        lemma_line_of_bounds(l, pos);
        assert forall|k: int| line_of(lines, pos) < k < lines.len() implies lines[k] > pos by {
            if k < lines.len() - 1 {
                assert(l[k] == lines[k]);
            }
        }
    }
}

proof fn lemma_line_of_below(lines: Seq<u32>, pos: u32, mid: int)
    requires
        lines.len() >= 1,
        lines[0] == 0,
        forall|i: int, j: int| 0 <= i < j < lines.len() ==> lines[i] < lines[j],
        0 <= mid < lines.len(),
        lines[mid] > pos,
    ensures
        line_of(lines, pos) < mid,
{
    lemma_line_of_bounds(lines, pos);
}

proof fn lemma_line_of_above(lines: Seq<u32>, pos: u32, mid: int)
    requires
        lines.len() >= 1,
        lines[0] == 0,
        forall|i: int, j: int| 0 <= i < j < lines.len() ==> lines[i] < lines[j],
        0 <= mid < lines.len(),
        lines[mid] <= pos,
    ensures
        mid <= line_of(lines, pos),
{
    lemma_line_of_bounds(lines, pos);
}

/// A position resolves to the line that starts last at or before it: line
/// `k + 1` (lines count from 1) for a position from the start of the `k`-th
/// registered line up to, not including, the start of the next one, at a
/// column that counts from that start (from 1 on the first line)
pub proof fn lemma_resolve_line(map: &Codemap, k: int, pos: u32)
    requires
        map.wf(),
        0 <= k < map@.len(),
        k < u32::MAX,
        map@[k] <= pos,
        k + 1 < map@.len() ==> pos < map@[k + 1],
        k == 0 ==> pos < u32::MAX,
    ensures
        line_of(map@, pos) == k,
        resolve_spec(map@, pos).line == k + 1,
        k == 0 ==> resolve_spec(map@, pos).col == pos + 1,
        k > 0 ==> resolve_spec(map@, pos).col == pos - map@[k],
{
    lemma_line_of_bounds(map@, pos);
    lemma_line_of_above(map@, pos, k);
    if line_of(map@, pos) > k {
        assert(map@[k + 1] <= map@[line_of(map@, pos)]);
    }
    assert(map@.len() <= u32::MAX + 1);
}

} // verus!
