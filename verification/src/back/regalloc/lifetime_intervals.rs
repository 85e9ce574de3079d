//! Lifetime Intervals
//!
//! See `Linear Scan Register Allocation on SSA Form` by Christian Wimmer and
//! Michael Franz. The analyzer is passed the generated assembly code that
//! still uses virtual registers. It returns lifetime intervals for each block
//! and virtual register which tell during which lines of the block the
//! register needs to be alive. This assumes that the order of the lines won't
//! change.

use vstd::prelude::*;
use crate::back::machine::assembly::{Argument, Assembly, AssemblyLine, Block, Instruction, Register};
use crate::driver::interner::Ident;
use crate::driver::session::Diagnostic;
use crate::middle::ir;
use crate::util::text::{chars_eq_str, str_chars, string_of};

verus! {

/// Lines `from` to `to` (both included) of a block
pub type Interval = (usize, usize);

/// The intervals of (block, register) pairs
pub struct LifetimeIntervals {
    pub entries: Vec<((Ident, Register), Vec<Interval>)>,
}

/// The intervals of an entry (none if the entry is absent)
pub open spec fn intervals_of(m: Map<(Ident, Register), Seq<Interval>>, key: (Ident, Register)) -> Seq<Interval> {
    if m.contains_key(key) { m[key] } else { Seq::empty() }
}

/// The intervals after adding `from..=to`: unchanged if an interval contains
/// it; else the first interval that ends at or after `from` or starts at or
/// before `to` is widened to cover it; else it is appended
pub open spec fn merged(ivs: Seq<Interval>, from: usize, to: usize) -> Seq<Interval>
    decreases ivs.len(),
{
    if ivs.len() == 0 {
        seq![(from, to)]
    } else if ivs[0].0 <= from && ivs[0].1 >= to {
        ivs
    } else if ivs[0].1 >= from || to >= ivs[0].0 {
        ivs.update(0, (if from < ivs[0].0 { from } else { ivs[0].0 }, if to > ivs[0].1 { to } else { ivs[0].1 }))
    } else {
        seq![ivs[0]] + merged(ivs.drop_first(), from, to)
    }
}

impl LifetimeIntervals {
    /// The intervals of each entry
    pub open spec fn view(&self) -> Map<(Ident, Register), Seq<Interval>> {
        Map::new(
            |k: (Ident, Register)| exists|i: int| 0 <= i < self.entries@.len() && #[trigger] self.entries@[i].0 == k,
            |k: (Ident, Register)| self.entries@[choose|i: int| 0 <= i < self.entries@.len() && #[trigger] self.entries@[i].0 == k].1@,
        )
    }

    /// No entry occurs twice
    pub open spec fn wf(&self) -> bool {
        forall|i: int, j: int| 0 <= i < j < self.entries@.len() ==> #[trigger] self.entries@[i].0 != #[trigger] self.entries@[j].0
    }

    pub fn new() -> (r: LifetimeIntervals)
        ensures
            r.wf(),
            r.view() == Map::<(Ident, Register), Seq<Interval>>::empty(),
    {
        let r = LifetimeIntervals { entries: Vec::new() };
        assert(r.view() =~= Map::<(Ident, Register), Seq<Interval>>::empty());
        r
    }

    /// The position of an entry
    fn find(&self, key: (Ident, Register)) -> (r: Option<usize>)
        requires
            self.wf(),
        ensures
            r matches Some(i) ==> i < self.entries@.len() && self.entries@[i as int].0 == key,
            r is None ==> !self.view().contains_key(key),
    {
        let mut i: usize = 0;
        while i < self.entries.len()
            invariant
                i <= self.entries@.len(),
                forall|j: int| 0 <= j < i ==> self.entries@[j].0 != key,
            decreases self.entries@.len() - i,
        {
            if self.entries[i].0.0 == key.0 && self.entries[i].0.1 == key.1 {
                return Some(i);
            }
            i = i + 1;
        }
        None
    }
}

impl LifetimeIntervals {
    /// The entry at a position is in the view, with its intervals
    pub proof fn lemma_view_entry(&self, i: int)
        requires
            self.wf(),
            0 <= i < self.entries@.len(),
        ensures
            self.view().contains_key(self.entries@[i].0),
            self.view()[self.entries@[i].0] == self.entries@[i].1@,
    {
        let k = self.entries@[i].0;
        let j = choose|j: int| 0 <= j < self.entries@.len() && #[trigger] self.entries@[j].0 == k;
        if j != i {
            if i < j {
                assert(self.entries@[i].0 != self.entries@[j].0);
            } else {
                assert(self.entries@[j].0 != self.entries@[i].0);
            }
        }
    }

    /// Replacing the intervals of an entry
    proof fn lemma_view_update(&self, old: &LifetimeIntervals, i: int)
        requires
            old.wf(),
            0 <= i < old.entries@.len(),
            self.entries@.len() == old.entries@.len(),
            self.entries@[i].0 == old.entries@[i].0,
            forall|j: int| 0 <= j < old.entries@.len() && j != i ==> #[trigger] self.entries@[j] == old.entries@[j],
        ensures
            self.wf(),
            self.view() == old.view().insert(old.entries@[i].0, self.entries@[i].1@),
    {
        assert forall|a: int, b: int| 0 <= a < b < self.entries@.len() implies #[trigger] self.entries@[a].0 != #[trigger] self.entries@[b].0 by {
            assert(old.entries@[a].0 != old.entries@[b].0);
        }
        let key = old.entries@[i].0;
        assert forall|k: (Ident, Register)| #[trigger] self.view().contains_key(k) == old.view().insert(key, self.entries@[i].1@).contains_key(k) by {
            if old.view().contains_key(k) {
                let j = choose|j: int| 0 <= j < old.entries@.len() && #[trigger] old.entries@[j].0 == k;
                if j != i {
                    assert(self.entries@[j].0 == k);
                }
            }
            if self.view().contains_key(k) {
                let j = choose|j: int| 0 <= j < self.entries@.len() && #[trigger] self.entries@[j].0 == k;
                if j != i {
                    assert(old.entries@[j].0 == k);
                }
            }
        }
        assert forall|k: (Ident, Register)| #[trigger] self.view().contains_key(k) implies self.view()[k] == old.view().insert(key, self.entries@[i].1@)[k] by {
            let j = choose|j: int| 0 <= j < self.entries@.len() && #[trigger] self.entries@[j].0 == k;
            self.lemma_view_entry(j);
            if j != i {
                assert(old.entries@[j] == self.entries@[j]);
                old.lemma_view_entry(j);
            }
        }
        assert(self.view() =~= old.view().insert(key, self.entries@[i].1@));
    }

    /// Appending an entry for a new key
    proof fn lemma_view_push(&self, old: &LifetimeIntervals)
        requires
            old.wf(),
            self.entries@.len() == old.entries@.len() + 1,
            forall|j: int| 0 <= j < old.entries@.len() ==> #[trigger] self.entries@[j] == old.entries@[j],
            !old.view().contains_key(self.entries@.last().0),
        ensures
            self.wf(),
            self.view() == old.view().insert(self.entries@.last().0, self.entries@.last().1@),
    {
        let n = old.entries@.len() as int;
        let key = self.entries@.last().0;
        assert forall|a: int, b: int| 0 <= a < b < self.entries@.len() implies #[trigger] self.entries@[a].0 != #[trigger] self.entries@[b].0 by {
            if b == n {
                assert(old.entries@[a] == self.entries@[a]);
                if self.entries@[a].0 == key {
                    assert(old.view().contains_key(key));
                }
            } else {
                assert(old.entries@[a].0 != old.entries@[b].0);
            }
        }
        assert forall|k: (Ident, Register)| #[trigger] self.view().contains_key(k) == old.view().insert(key, self.entries@.last().1@).contains_key(k) by {
            if old.view().contains_key(k) {
                let j = choose|j: int| 0 <= j < old.entries@.len() && #[trigger] old.entries@[j].0 == k;
                assert(self.entries@[j].0 == k);
            }
            if k == key {
                assert(self.entries@[n].0 == k);
            }
            if self.view().contains_key(k) && k != key {
                let j = choose|j: int| 0 <= j < self.entries@.len() && #[trigger] self.entries@[j].0 == k;
                assert(j < n);
                assert(old.entries@[j].0 == k);
            }
        }
        assert forall|k: (Ident, Register)| #[trigger] self.view().contains_key(k) implies self.view()[k] == old.view().insert(key, self.entries@.last().1@)[k] by {
            let j = choose|j: int| 0 <= j < self.entries@.len() && #[trigger] self.entries@[j].0 == k;
            self.lemma_view_entry(j);
            if j < n {
                old.lemma_view_entry(j);
            }
        }
        assert(self.view() =~= old.view().insert(key, self.entries@.last().1@));
    }
}

/// Add `from..=to` to intervals
fn merge_into(ivs: &mut Vec<Interval>, from: usize, to: usize)
    ensures
        final(ivs)@ == merged(old(ivs)@, from, to),
{
    let ghost s = ivs@;
    let mut j: usize = 0;
    assert(s.subrange(0, s.len() as int) =~= s);
    assert(s.subrange(0, 0) + merged(s, from, to) =~= merged(s, from, to));
    while j < ivs.len()
        invariant
            ivs@ == s,
            s == old(ivs)@,
            j <= s.len(),
            merged(s, from, to) == s.subrange(0, j as int) + merged(s.subrange(j as int, s.len() as int), from, to),
        decreases s.len() - j,
    {
        let (a, b) = ivs[j];
        let ghost rest = s.subrange(j as int, s.len() as int);
        assert(rest[0] == s[j as int]);
        if a <= from && b >= to {
            // A superset already exists
            assert(merged(rest, from, to) == rest);
            assert(s.subrange(0, j as int) + rest =~= s);
            return;
        }
        if b >= from || to >= a {
            let lo = if from < a { from } else { a };
            let hi = if to > b { to } else { b };
            ivs.set(j, (lo, hi));
            assert(merged(rest, from, to) == rest.update(0, (lo, hi)));
            assert(ivs@ =~= s.subrange(0, j as int) + rest.update(0, (lo, hi)));
            return;
        }
        proof {
            assert(rest.drop_first() =~= s.subrange(j + 1, s.len() as int));
            assert(s.subrange(0, j + 1) =~= s.subrange(0, j as int) + seq![rest[0]]);
        }
        j = j + 1;
    }
    ivs.push((from, to));
    assert(s.subrange(0, s.len() as int) =~= s);
    assert(ivs@ =~= s + seq![(from, to)]);
}

/// A copy of intervals
fn copy_intervals(v: &Vec<Interval>) -> (r: Vec<Interval>)
    ensures
        r@ == v@,
{
    let mut r: Vec<Interval> = Vec::new();
    let mut i: usize = 0;
    while i < v.len()
        invariant
            i <= v@.len(),
            r@ == v@.subrange(0, i as int),
        decreases v@.len() - i,
    {
        r.push(v[i]);
        i = i + 1;
    }
    assert(r@ =~= v@);
    r
}

/// Add the interval `from..=to` to an entry (creating the entry if needed),
/// merging it with an existing interval where possible
pub fn merge_or_create_interval(lifetimes: &mut LifetimeIntervals, entry: (Ident, Register), from: usize, to: usize)
    requires
        old(lifetimes).wf(),
        from <= to,
    ensures
        final(lifetimes).wf(),
        final(lifetimes).view() == old(lifetimes).view().insert(entry, merged(intervals_of(old(lifetimes).view(), entry), from, to)),
{
    match lifetimes.find(entry) {
        None => {
            let mut v: Vec<Interval> = Vec::new();
            v.push((from, to));
            assert(v@ =~= merged(Seq::<Interval>::empty(), from, to));
            let ghost before = *lifetimes;
            lifetimes.entries.push((entry, v));
            proof { lifetimes.lemma_view_push(&before); }
        },
        Some(i) => {
            proof { lifetimes.lemma_view_entry(i as int); }
            let mut ivs = copy_intervals(&lifetimes.entries[i].1);
            merge_into(&mut ivs, from, to);
            let ghost before = *lifetimes;
            lifetimes.entries.set(i, (entry, ivs));
            proof { lifetimes.lemma_view_update(&before, i as int); }
        },
    }
}

/// Set the start of an entry's last interval; fails if the entry has no
/// interval
pub fn shorten_interval(lifetimes: &mut LifetimeIntervals, entry: (Ident, Register), from: usize) -> (r: Result<(), Diagnostic>)
    requires
        old(lifetimes).wf(),
    ensures
        final(lifetimes).wf(),
        r is Ok <==> intervals_of(old(lifetimes).view(), entry).len() > 0,
        r is Ok ==> final(lifetimes).view() == old(lifetimes).view().insert(entry,
            intervals_of(old(lifetimes).view(), entry).update(intervals_of(old(lifetimes).view(), entry).len() - 1,
                (from, intervals_of(old(lifetimes).view(), entry).last().1))),
        r is Err ==> final(lifetimes).view() == old(lifetimes).view(),
{
    match lifetimes.find(entry) {
        Some(i) => {
            proof { lifetimes.lemma_view_entry(i as int); }
            let mut ivs = copy_intervals(&lifetimes.entries[i].1);
            let n = ivs.len();
            if n == 0 {
                return Err(Diagnostic::general(string_of("no existing interval to shorten")));
            }
            let end = ivs[n - 1].1;
            ivs.set(n - 1, (from, end));
            let ghost before = *lifetimes;
            lifetimes.entries.set(i, (entry, ivs));
            proof { lifetimes.lemma_view_update(&before, i as int); }
            Ok(())
        },
        None => Err(Diagnostic::general(string_of("no existing interval to shorten"))),
    }
}

// --- Operands -----------------------------------------------------------------

/// The mnemonics whose first operand is written and not read
pub open spec fn only_writes_first(m: Seq<char>) -> bool {
    m == "mov"@ || m == "movzx"@ || m == "lea"@ || m == "pop"@ || m == "setl"@ || m == "setle"@ || m == "sete"@
        || m == "setne"@ || m == "setge"@ || m == "setg"@
}

/// The mnemonics whose first operand is written
pub open spec fn writes_first(m: Seq<char>) -> bool {
    only_writes_first(m) || m == "add"@ || m == "sub"@ || m == "imul"@ || m == "and"@ || m == "or"@ || m == "xor"@
        || m == "sal"@ || m == "sar"@ || m == "neg"@ || m == "not"@
}

/// The registers a memory operand uses to form its address
pub open spec fn address_registers(a: Argument) -> Seq<Register> {
    match a {
        Argument::Indirect { base, index, .. } => (match base { Some(b) => seq![b], None => Seq::empty() })
            + (match index { Some((i, _)) => seq![i], None => Seq::empty() }),
        _ => Seq::empty(),
    }
}

/// The registers an operand reads
pub open spec fn read_registers(a: Argument) -> Seq<Register> {
    match a {
        Argument::Register(r) => seq![r],
        _ => address_registers(a),
    }
}

/// The registers the operands read, in order
pub open spec fn operands_read(args: Seq<Argument>) -> Seq<Register>
    decreases args.len(),
{
    if args.len() == 0 {
        Seq::empty()
    } else {
        operands_read(args.drop_last()) + read_registers(args.last())
    }
}

/// The registers an instruction writes: its first operand, if the
/// instruction writes it and it is a register
pub open spec fn outputs_of(i: Instruction) -> Seq<Register> {
    if writes_first(i.mnemonic@) && i.args@.len() > 0 && i.args@[0] is Register {
        seq![i.args@[0]->Register_0]
    } else {
        Seq::empty()
    }
}

/// The registers an instruction reads: those of its operands, except a first
/// operand that is only written (whose address registers are read)
pub open spec fn inputs_of(i: Instruction) -> Seq<Register> {
    if only_writes_first(i.mnemonic@) && i.args@.len() > 0 {
        address_registers(i.args@[0]) + operands_read(i.args@.drop_first())
    } else {
        operands_read(i.args@)
    }
}

/// Whether a string slice is the given text
fn is_mnemonic(m: &str, t: &str) -> (r: bool)
    ensures
        r == (m@ == t@),
{
    let chars = str_chars(m);
    chars_eq_str(chars.as_slice(), t)
}

fn is_only_writes_first(m: &str) -> (r: bool)
    ensures
        r == only_writes_first(m@),
{
    is_mnemonic(m, "mov") || is_mnemonic(m, "movzx") || is_mnemonic(m, "lea") || is_mnemonic(m, "pop")
        || is_mnemonic(m, "setl") || is_mnemonic(m, "setle") || is_mnemonic(m, "sete") || is_mnemonic(m, "setne")
        || is_mnemonic(m, "setge") || is_mnemonic(m, "setg")
}

fn is_writes_first(m: &str) -> (r: bool)
    ensures
        r == writes_first(m@),
{
    is_only_writes_first(m) || is_mnemonic(m, "add") || is_mnemonic(m, "sub") || is_mnemonic(m, "imul")
        || is_mnemonic(m, "and") || is_mnemonic(m, "or") || is_mnemonic(m, "xor") || is_mnemonic(m, "sal")
        || is_mnemonic(m, "sar") || is_mnemonic(m, "neg") || is_mnemonic(m, "not")
}

fn push_address_registers(v: &mut Vec<Register>, a: Argument)
    ensures
        final(v)@ == old(v)@ + address_registers(a),
{
    if let Argument::Indirect { base, index, .. } = a {
        if let Some(b) = base {
            v.push(b);
        }
        if let Some((i, _)) = index {
            v.push(i);
        }
    }
    assert(v@ =~= old(v)@ + address_registers(a));
}

fn push_read_registers(v: &mut Vec<Register>, a: Argument)
    ensures
        final(v)@ == old(v)@ + read_registers(a),
{
    match a {
        Argument::Register(r) => {
            v.push(r);
            assert(v@ =~= old(v)@ + read_registers(a));
        },
        _ => push_address_registers(v, a),
    }
}

/// The registers an instruction writes
pub fn outputs(i: &Instruction) -> (r: Vec<Register>)
    ensures
        r@ == outputs_of(*i),
{
    let mut r: Vec<Register> = Vec::new();
    if is_writes_first(i.mnemonic) && i.args.len() > 0 {
        if let Argument::Register(reg) = i.args[0] {
            r.push(reg);
        }
    }
    assert(r@ =~= outputs_of(*i));
    r
}

/// The registers an instruction reads
pub fn inputs(i: &Instruction) -> (r: Vec<Register>)
    ensures
        r@ == inputs_of(*i),
{
    let mut r: Vec<Register> = Vec::new();
    let skip_first = is_only_writes_first(i.mnemonic) && i.args.len() > 0;
    let start: usize = if skip_first { 1 } else { 0 };
    if skip_first {
        push_address_registers(&mut r, i.args[0]);
    }
    let ghost pre = r@;
    let mut k: usize = start;
    while k < i.args.len()
        invariant
            start <= k <= i.args@.len(),
            r@ == pre + operands_read(i.args@.subrange(start as int, k as int)),
        decreases i.args@.len() - k,
    {
        push_read_registers(&mut r, i.args[k]);
        proof {
            let q = i.args@.subrange(start as int, k + 1);
            assert(q.drop_last() =~= i.args@.subrange(start as int, k as int));
        }
        k = k + 1;
    }
    proof {
        if skip_first {
            assert(i.args@.subrange(1, i.args@.len() as int) =~= i.args@.drop_first());
        } else {
            assert(i.args@.subrange(0, i.args@.len() as int) =~= i.args@);
            assert(pre =~= Seq::<Register>::empty());
        }
    }
    assert(r@ =~= inputs_of(*i));
    r
}

// --- Live sets ----------------------------------------------------------------

/// A sequence without runs of equal elements (the first of each run stays)
pub open spec fn deduped(s: Seq<Register>) -> Seq<Register>
    decreases s.len(),
{
    if s.len() <= 1 {
        s
    } else if s.last() == s[s.len() - 2] {
        deduped(s.drop_last())
    } else {
        deduped(s.drop_last()).push(s.last())
    }
}

/// Removing runs keeps registers virtual
proof fn lemma_deduped_virtual(s: Seq<Register>)
    requires
        all_virtual(s),
    ensures
        all_virtual(deduped(s)),
    decreases s.len(),
{
    if s.len() > 1 {
        lemma_deduped_virtual(s.drop_last());
    }
}

/// Remove runs of equal registers (`Vec::dedup`)
fn dedup(v: &Vec<Register>) -> (r: Vec<Register>)
    ensures
        r@ == deduped(v@),
{
    let mut r: Vec<Register> = Vec::new();
    let mut i: usize = 0;
    while i < v.len()
        invariant
            i <= v@.len(),
            r@ == deduped(v@.subrange(0, i as int)),
        decreases v@.len() - i,
    {
        let ghost q = v@.subrange(0, i + 1);
        proof {
            assert(q.drop_last() =~= v@.subrange(0, i as int));
            assert(q.last() == v@[i as int]);
            if i > 0 {
                assert(q[q.len() - 2] == v@[i - 1]);
            } else {
                assert(q =~= seq![v@[0]]);
            }
        }
        if i == 0 || v[i] != v[i - 1] {
            r.push(v[i]);
        }
        i = i + 1;
    }
    assert(v@.subrange(0, v@.len() as int) =~= v@);
    r
}

/// The first position from `i` on where `x` occurs in `s`
pub open spec fn reg_index(s: Seq<Register>, x: Register, i: int) -> Option<int>
    decreases s.len() - i,
{
    if 0 <= i < s.len() {
        if s[i] == x { Some(i) } else { reg_index(s, x, i + 1) }
    } else {
        None
    }
}

/// `s` without the first occurrence of `x` (`None` if there is none)
pub open spec fn remove_first_spec(s: Seq<Register>, x: Register) -> Option<Seq<Register>> {
    match reg_index(s, x, 0) {
        Some(k) => Some(s.remove(k)),
        None => None,
    }
}

/// Remove the first occurrence of a register; `false` if there is none
fn remove_first(v: &mut Vec<Register>, x: Register) -> (r: bool)
    ensures
        match remove_first_spec(old(v)@, x) {
            Some(t) => r && final(v)@ == t,
            None => !r && final(v)@ == old(v)@,
        },
{
    let mut k: usize = 0;
    while k < v.len()
        invariant
            k <= v@.len(),
            v@ == old(v)@,
            reg_index(v@, x, 0) == reg_index(v@, x, k as int),
        decreases v@.len() - k,
    {
        if v[k] == x {
            v.remove(k);
            return true;
        }
        k = k + 1;
    }
    false
}

/// Whether the assembly has a block with a label
pub open spec fn has_block(code: Assembly, label: Ident) -> bool {
    exists|f: int, b: int| 0 <= f < code.fns@.len() && 0 <= b < code.fns@[f].code@.len() && #[trigger] code.fns@[f].code@[b].label == label
}

/// The intervals belong to virtual registers in blocks of the assembly
pub open spec fn keys_in(m: Map<(Ident, Register), Seq<Interval>>, code: Assembly) -> bool {
    forall|k: (Ident, Register)| #[trigger] m.contains_key(k) ==> k.1 is Virtual && has_block(code, k.0)
}

/// All registers are virtual
pub open spec fn all_virtual(s: Seq<Register>) -> bool {
    forall|i: int| 0 <= i < s.len() ==> (#[trigger] s[i]) is Virtual
}

// --- The analysis as a specification -------------------------------------------
//
// The analysis walks the functions in order, each function's blocks backwards
// and each block's lines backwards; each step below takes the state (the
// intervals so far, the live registers or the recorded live-in sets) to the
// next one, or to `None` where the analysis fails.

/// The intervals after adding `from..=to` to an entry
pub open spec fn merge_spec(m: Map<(Ident, Register), Seq<Interval>>, key: (Ident, Register), from: usize, to: usize)
    -> Map<(Ident, Register), Seq<Interval>> {
    m.insert(key, merged(intervals_of(m, key), from, to))
}

/// The intervals after setting the start of an entry's last interval (`None`
/// if the entry has no interval)
pub open spec fn shorten_spec(m: Map<(Ident, Register), Seq<Interval>>, key: (Ident, Register), from: usize)
    -> Option<Map<(Ident, Register), Seq<Interval>>> {
    let ivs = intervals_of(m, key);
    if ivs.len() > 0 {
        Some(m.insert(key, ivs.update(ivs.len() - 1, (from, ivs.last().1))))
    } else {
        None
    }
}

/// The live-in sets recorded so far, as values
pub open spec fn live_in_view(li: Seq<(Ident, Vec<Register>)>) -> Seq<(Ident, Seq<Register>)> {
    Seq::new(li.len(), |i: int| (li[i].0, li[i].1@))
}

/// The first position from `i` on of the live-in set of `label`
pub open spec fn live_in_index(li: Seq<(Ident, Seq<Register>)>, label: Ident, i: int) -> Option<int>
    decreases li.len() - i,
{
    if 0 <= i < li.len() {
        if li[i].0 == label { Some(i) } else { live_in_index(li, label, i + 1) }
    } else {
        None
    }
}

/// The first position from `i` on of the block with `label`
pub open spec fn block_index(blocks: Seq<Block>, label: Ident, i: int) -> Option<int>
    decreases blocks.len() - i,
{
    if 0 <= i < blocks.len() {
        if blocks[i].label == label { Some(i) } else { block_index(blocks, label, i + 1) }
    } else {
        None
    }
}

/// `acc` followed by the live-in sets of the successors from the `s`-th on
pub open spec fn successors_live(acc: Seq<Register>, li: Seq<(Ident, Seq<Register>)>, succs: Seq<Ident>, s: int) -> Seq<Register>
    decreases succs.len() - s,
{
    if 0 <= s < succs.len() {
        successors_live(
            match live_in_index(li, succs[s], 0) {
                Some(k) => acc + li[k].1,
                None => acc,
            },
            li,
            succs,
            s + 1,
        )
    } else {
        acc
    }
}

/// The register a phi function's source names (`None` for other values)
pub open spec fn phi_source(v: ir::Value) -> Option<Register> {
    match v {
        ir::Value::Register(ir::Register::Local(id)) => Some(Register::Virtual(id)),
        ir::Value::Register(ir::Register::Stack(id)) => Some(Register::Virtual(id)),
        _ => None,
    }
}

/// `acc` followed by the registers of the sources from the `q`-th on
pub open spec fn sources_regs(acc: Seq<Register>, srcs: Seq<(ir::Value, ir::Label)>, q: int) -> Option<Seq<Register>>
    decreases srcs.len() - q,
{
    if 0 <= q < srcs.len() {
        match phi_source(srcs[q].0) {
            Some(reg) => sources_regs(acc.push(reg), srcs, q + 1),
            None => None,
        }
    } else {
        Some(acc)
    }
}

/// `acc` followed by the sources of the phi functions from the `p`-th on
pub open spec fn phis_regs(acc: Seq<Register>, phis: Seq<ir::Phi>, p: int) -> Option<Seq<Register>>
    decreases phis.len() - p,
{
    if 0 <= p < phis.len() {
        match sources_regs(acc, phis[p].srcs@, 0) {
            Some(a) => phis_regs(a, phis, p + 1),
            None => None,
        }
    } else {
        Some(acc)
    }
}

/// `acc` followed by the phi sources of the successors from the `s`-th on
pub open spec fn successors_phis(acc: Seq<Register>, blocks: Seq<Block>, succs: Seq<Ident>, s: int) -> Option<Seq<Register>>
    decreases succs.len() - s,
{
    if 0 <= s < succs.len() {
        match block_index(blocks, succs[s], 0) {
            Some(b) => match phis_regs(acc, blocks[b].phis@, 0) {
                Some(a) => successors_phis(a, blocks, succs, s + 1),
                None => None,
            },
            None => successors_phis(acc, blocks, succs, s + 1),
        }
    } else {
        Some(acc)
    }
}

/// The registers live at the end of a block
pub open spec fn live_out_spec(blocks: Seq<Block>, block: Block, li: Seq<(Ident, Seq<Register>)>) -> Option<Seq<Register>> {
    match successors_phis(successors_live(Seq::empty(), li, block.successors@, 0), blocks, block.successors@, 0) {
        Some(l) => Some(deduped(l)),
        None => None,
    }
}

/// The intervals after adding `0..=to` for the live registers from the `k`-th on
pub open spec fn merges(m: Map<(Ident, Register), Seq<Interval>>, label: Ident, live: Seq<Register>, k: int, to: usize)
    -> Map<(Ident, Register), Seq<Interval>>
    decreases live.len() - k,
{
    if 0 <= k < live.len() {
        merges(merge_spec(m, (label, live[k]), 0, to), label, live, k + 1, to)
    } else {
        m
    }
}

/// The outputs from the `o`-th on of an instruction at line `i`: each
/// virtual one starts its last interval there and is no longer live
pub open spec fn outputs_step(
    m: Map<(Ident, Register), Seq<Interval>>,
    live: Seq<Register>,
    label: Ident,
    outs: Seq<Register>,
    o: int,
    i: usize,
) -> Option<(Map<(Ident, Register), Seq<Interval>>, Seq<Register>)>
    decreases outs.len() - o,
{
    if 0 <= o < outs.len() {
        if outs[o] is Virtual {
            match shorten_spec(m, (label, outs[o]), i) {
                Some(m2) => match remove_first_spec(live, outs[o]) {
                    Some(l2) => outputs_step(m2, l2, label, outs, o + 1, i),
                    None => None,
                },
                None => None,
            }
        } else {
            outputs_step(m, live, label, outs, o + 1, i)
        }
    } else {
        Some((m, live))
    }
}

/// The inputs from the `j`-th on of an instruction at line `i`: each virtual
/// one is live from the start of the block to there
pub open spec fn inputs_step(
    m: Map<(Ident, Register), Seq<Interval>>,
    live: Seq<Register>,
    label: Ident,
    ins: Seq<Register>,
    j: int,
    i: usize,
) -> (Map<(Ident, Register), Seq<Interval>>, Seq<Register>)
    decreases ins.len() - j,
{
    if 0 <= j < ins.len() {
        if ins[j] is Virtual {
            inputs_step(merge_spec(m, (label, ins[j]), 0, i), live.push(ins[j]), label, ins, j + 1, i)
        } else {
            inputs_step(m, live, label, ins, j + 1, i)
        }
    } else {
        (m, live)
    }
}

/// Line `i` of a block: an instruction's outputs, then its inputs
pub open spec fn line_step(
    m: Map<(Ident, Register), Seq<Interval>>,
    live: Seq<Register>,
    label: Ident,
    line: AssemblyLine,
    i: usize,
) -> Option<(Map<(Ident, Register), Seq<Interval>>, Seq<Register>)> {
    match line {
        AssemblyLine::Instruction(ins) => match outputs_step(m, live, label, outputs_of(ins), 0, i) {
            Some((m2, l2)) => Some(inputs_step(m2, l2, label, inputs_of(ins), 0, i)),
            None => None,
        },
        AssemblyLine::Directive(_) => Some((m, live)),
    }
}

/// The lines of a block below the `i`-th, last one first
pub open spec fn lines_down(
    m: Map<(Ident, Register), Seq<Interval>>,
    live: Seq<Register>,
    label: Ident,
    lines: Seq<AssemblyLine>,
    i: int,
) -> Option<(Map<(Ident, Register), Seq<Interval>>, Seq<Register>)>
    decreases i,
{
    if 0 < i <= lines.len() {
        match line_step(m, live, label, lines[i - 1], (i - 1) as usize) {
            Some((m2, l2)) => lines_down(m2, l2, label, lines, i - 1),
            None => None,
        }
    } else {
        Some((m, live))
    }
}

/// The register a phi function defines
pub open spec fn phi_output(dst: ir::Register) -> Register {
    match dst {
        ir::Register::Local(id) => Register::Virtual(id),
        ir::Register::Stack(id) => Register::Virtual(id),
    }
}

/// The live registers without the outputs of the phi functions from the
/// `p`-th on (`None` if one is not live)
pub open spec fn phis_out(live: Seq<Register>, phis: Seq<ir::Phi>, p: int) -> Option<Seq<Register>>
    decreases phis.len() - p,
{
    if 0 <= p < phis.len() {
        match remove_first_spec(live, phi_output(phis[p].dst)) {
            Some(l) => phis_out(l, phis, p + 1),
            None => None,
        }
    } else {
        Some(live)
    }
}

/// The live-in sets after recording a block's (an empty set is not recorded)
pub open spec fn record_live_in(li: Seq<(Ident, Seq<Register>)>, label: Ident, live: Seq<Register>) -> Seq<(Ident, Seq<Register>)> {
    if live.len() > 0 {
        match live_in_index(li, label, 0) {
            Some(e) => li.update(e, (label, live)),
            None => li.push((label, live)),
        }
    } else {
        li
    }
}

/// The `b`-th block of a function
pub open spec fn block_step(
    m: Map<(Ident, Register), Seq<Interval>>,
    li: Seq<(Ident, Seq<Register>)>,
    blocks: Seq<Block>,
    b: int,
) -> Option<(Map<(Ident, Register), Seq<Interval>>, Seq<(Ident, Seq<Register>)>)> {
    let block = blocks[b];
    let n = block.code@.len();
    match live_out_spec(blocks, block, li) {
        Some(live) => if n == 0 {
            None
        } else {
            match lines_down(merges(m, block.label, live, 0, (n - 1) as usize), live, block.label, block.code@, n as int) {
                Some((m2, l2)) => match phis_out(l2, block.phis@, 0) {
                    Some(l3) => Some((m2, record_live_in(li, block.label, l3))),
                    None => None,
                },
                None => None,
            }
        },
        None => None,
    }
}

/// The blocks of a function below the `b`-th, last one first
pub open spec fn blocks_down(
    m: Map<(Ident, Register), Seq<Interval>>,
    li: Seq<(Ident, Seq<Register>)>,
    blocks: Seq<Block>,
    b: int,
) -> Option<(Map<(Ident, Register), Seq<Interval>>, Seq<(Ident, Seq<Register>)>)>
    decreases b,
{
    if 0 < b <= blocks.len() {
        match block_step(m, li, blocks, b - 1) {
            Some((m2, li2)) => blocks_down(m2, li2, blocks, b - 1),
            None => None,
        }
    } else {
        Some((m, li))
    }
}

/// The functions from the `f`-th on
pub open spec fn functions_step(
    m: Map<(Ident, Register), Seq<Interval>>,
    li: Seq<(Ident, Seq<Register>)>,
    fns: Seq<crate::back::machine::assembly::Function>,
    f: int,
) -> Option<(Map<(Ident, Register), Seq<Interval>>, Seq<(Ident, Seq<Register>)>)>
    decreases fns.len() - f,
{
    if 0 <= f < fns.len() {
        match blocks_down(m, li, fns[f].code@, fns[f].code@.len() as int) {
            Some((m2, li2)) => functions_step(m2, li2, fns, f + 1),
            None => None,
        }
    } else {
        Some((m, li))
    }
}

/// The lifetime intervals of the virtual registers of an assembly program
/// (`None` where the analysis fails)
pub open spec fn lifetimes_spec(code: Assembly) -> Option<Map<(Ident, Register), Seq<Interval>>> {
    match functions_step(Map::empty(), Seq::empty(), code.fns@, 0) {
        Some((m, _)) => Some(m),
        None => None,
    }
}

// --- The analysis -------------------------------------------------------------

/// The position of the live-in set of a block, if recorded
fn live_in_of(live_in: &Vec<(Ident, Vec<Register>)>, label: Ident) -> (r: Option<usize>)
    ensures
        r matches Some(k) ==> live_in_index(live_in_view(live_in@), label, 0) == Some(k as int),
        r is None ==> live_in_index(live_in_view(live_in@), label, 0) is None,
        r matches Some(k) ==> k < live_in@.len() && live_in@[k as int].0 == label,
{
    let ghost li = live_in_view(live_in@);
    let mut i: usize = 0;
    while i < live_in.len()
        invariant
            i <= live_in@.len(),
            li == live_in_view(live_in@),
            live_in_index(li, label, 0) == live_in_index(li, label, i as int),
        decreases live_in@.len() - i,
    {
        if live_in[i].0 == label {
            return Some(i);
        }
        i = i + 1;
    }
    None
}

/// The position of the block with a label in a function
fn block_of(func: &crate::back::machine::assembly::Function, label: Ident) -> (r: Option<usize>)
    ensures
        r matches Some(k) ==> block_index(func.code@, label, 0) == Some(k as int),
        r is None ==> block_index(func.code@, label, 0) is None,
        r matches Some(k) ==> k < func.code@.len() && func.code@[k as int].label == label,
{
    let mut i: usize = 0;
    while i < func.code.len()
        invariant
            i <= func.code@.len(),
            block_index(func.code@, label, 0) == block_index(func.code@, label, i as int),
        decreases func.code@.len() - i,
    {
        if func.code[i].label == label {
            return Some(i);
        }
        i = i + 1;
    }
    None
}

/// Append the registers of phi function sources; fails on a source that is
/// no register
fn push_sources(live: &mut Vec<Register>, srcs: &Vec<(ir::Value, ir::Label)>) -> (r: Result<(), Diagnostic>)
    requires
        all_virtual(old(live)@),
    ensures
        all_virtual(final(live)@),
        r is Ok <==> sources_regs(old(live)@, srcs@, 0) is Some,
        r is Ok ==> sources_regs(old(live)@, srcs@, 0) == Some(final(live)@),
{
    let mut q: usize = 0;
    while q < srcs.len()
        invariant
            q <= srcs@.len(),
            all_virtual(live@),
            sources_regs(old(live)@, srcs@, 0) == sources_regs(live@, srcs@, q as int),
        decreases srcs@.len() - q,
    {
        match srcs[q].0 {
            ir::Value::Register(ir::Register::Local(id)) => live.push(Register::Virtual(id)),
            ir::Value::Register(ir::Register::Stack(id)) => live.push(Register::Virtual(id)),
            _ => return Err(Diagnostic::general(string_of("phi input is not a register"))),
        }
        q = q + 1;
    }
    Ok(())
}

/// Append the sources of phi functions
fn push_phi_sources(live: &mut Vec<Register>, phis: &Vec<ir::Phi>) -> (r: Result<(), Diagnostic>)
    requires
        all_virtual(old(live)@),
    ensures
        all_virtual(final(live)@),
        r is Ok <==> phis_regs(old(live)@, phis@, 0) is Some,
        r is Ok ==> phis_regs(old(live)@, phis@, 0) == Some(final(live)@),
{
    let mut p: usize = 0;
    while p < phis.len()
        invariant
            p <= phis@.len(),
            all_virtual(live@),
            phis_regs(old(live)@, phis@, 0) == phis_regs(live@, phis@, p as int),
        decreases phis@.len() - p,
    {
        push_sources(live, &phis[p].srcs)?;
        p = p + 1;
    }
    Ok(())
}

/// The registers live at the end of a block: those live at the start of its
/// successors, and the inputs of the successors' phi functions
fn live_out(func: &crate::back::machine::assembly::Function, block: &Block, live_in: &Vec<(Ident, Vec<Register>)>) -> (r: Result<Vec<Register>, Diagnostic>)
    requires
        forall|i: int| 0 <= i < live_in@.len() ==> all_virtual(#[trigger] live_in@[i].1@),
    ensures
        r is Ok <==> live_out_spec(func.code@, *block, live_in_view(live_in@)) is Some,
        r matches Ok(v) ==> Some(v@) == live_out_spec(func.code@, *block, live_in_view(live_in@)) && all_virtual(v@),
{
    let ghost li = live_in_view(live_in@);
    let ghost succs = block.successors@;
    let mut live: Vec<Register> = Vec::new();
    let mut s: usize = 0;
    while s < block.successors.len()
        invariant
            s <= succs.len(),
            succs == block.successors@,
            li == live_in_view(live_in@),
            all_virtual(live@),
            forall|i: int| 0 <= i < live_in@.len() ==> all_virtual(#[trigger] live_in@[i].1@),
            successors_live(Seq::empty(), li, succs, 0) == successors_live(live@, li, succs, s as int),
        decreases succs.len() - s,
    {
        let ghost before = live@;
        proof { lemma_live_in_index(li, succs[s as int], 0); }
        if let Some(k) = live_in_of(live_in, block.successors[s]) {
            let regs = &live_in[k].1;
            assert(li[k as int].1 == regs@);
            let mut j: usize = 0;
            while j < regs.len()
                invariant
                    j <= regs@.len(),
                    all_virtual(regs@),
                    all_virtual(live@),
                    live@ == before + regs@.subrange(0, j as int),
                decreases regs@.len() - j,
            {
                live.push(regs[j]);
                j = j + 1;
                assert(live@ =~= before + regs@.subrange(0, j as int));
            }
            assert(regs@.subrange(0, regs@.len() as int) =~= regs@);
            assert(live@ =~= before + li[k as int].1);
        }
        proof {
            let nxt = match live_in_index(li, succs[s as int], 0) {
                Some(k) => before + li[k].1,
                None => before,
            };
            assert(nxt =~= live@);
            assert(successors_live(before, li, succs, s as int) == successors_live(nxt, li, succs, s + 1));
        }
        s = s + 1;
    }
    let ghost start = live@;
    assert(start == successors_live(Seq::empty(), li, succs, 0));
    let mut s: usize = 0;
    while s < block.successors.len()
        invariant
            s <= succs.len(),
            succs == block.successors@,
            li == live_in_view(live_in@),
            start == successors_live(Seq::<Register>::empty(), li, succs, 0),
            all_virtual(live@),
            successors_phis(start, func.code@, succs, 0) == successors_phis(live@, func.code@, succs, s as int),
        decreases succs.len() - s,
    {
        let ghost before = live@;
        proof { lemma_block_index(func.code@, succs[s as int], 0); }
        if let Some(b) = block_of(func, block.successors[s]) {
            if let Err(e) = push_phi_sources(&mut live, &func.code[b].phis) {
                assert(successors_phis(before, func.code@, succs, s as int) is None);
                assert(successors_phis(start, func.code@, succs, 0) is None);
                assert(start == successors_live(Seq::<Register>::empty(), li, block.successors@, 0));
                assert(successors_phis(successors_live(Seq::<Register>::empty(), li, block.successors@, 0), func.code@, block.successors@, 0) is None);
                assert(live_out_spec(func.code@, *block, li) is None);
                return Err(e);
            }
        }
        assert(successors_phis(before, func.code@, succs, s as int) == successors_phis(live@, func.code@, succs, s + 1));
        s = s + 1;
    }
    proof { lemma_deduped_virtual(live@); }
    Ok(dedup(&live))
}

/// Process the outputs of an instruction at line `i`: each virtual one starts
/// its last interval there and is no longer live
fn process_outputs(
    lifetimes: &mut LifetimeIntervals,
    live: &mut Vec<Register>,
    label: Ident,
    outs: &Vec<Register>,
    i: usize,
    code: &Assembly,
) -> (r: Result<(), Diagnostic>)
    requires
        old(lifetimes).wf(),
        keys_in(old(lifetimes).view(), *code),
        all_virtual(old(live)@),
    ensures
        final(lifetimes).wf(),
        keys_in(final(lifetimes).view(), *code),
        all_virtual(final(live)@),
        r is Ok <==> outputs_step(old(lifetimes).view(), old(live)@, label, outs@, 0, i) is Some,
        r is Ok ==> outputs_step(old(lifetimes).view(), old(live)@, label, outs@, 0, i)
            == Some((final(lifetimes).view(), final(live)@)),
{
    let mut o: usize = 0;
    while o < outs.len()
        invariant
            o <= outs@.len(),
            lifetimes.wf(),
            keys_in(lifetimes.view(), *code),
            all_virtual(live@),
            outputs_step(old(lifetimes).view(), old(live)@, label, outs@, 0, i)
                == outputs_step(lifetimes.view(), live@, label, outs@, o as int, i),
        decreases outs@.len() - o,
    {
        let reg = outs[o];
        if let Register::Virtual(_) = reg {
            shorten_interval(lifetimes, (label, reg), i)?;
            let ghost before_live = live@;
            if !remove_first(live, reg) {
                return Err(Diagnostic::general(string_of("a written register is not live")));
            }
            proof { lemma_remove_first_virtual(before_live, reg); }
        }
        o = o + 1;
    }
    Ok(())
}


/// Where the search for a live-in set finds one
proof fn lemma_live_in_index(li: Seq<(Ident, Seq<Register>)>, label: Ident, i: int)
    requires
        0 <= i,
    ensures
        live_in_index(li, label, i) matches Some(k) ==> i <= k < li.len() && li[k].0 == label,
    decreases li.len() - i,
{
    if i < li.len() && li[i].0 != label {
        lemma_live_in_index(li, label, i + 1);
    }
}

/// Where the search for a block finds one
proof fn lemma_block_index(blocks: Seq<Block>, label: Ident, i: int)
    requires
        0 <= i,
    ensures
        block_index(blocks, label, i) matches Some(k) ==> i <= k < blocks.len() && blocks[k].label == label,
    decreases blocks.len() - i,
{
    if i < blocks.len() && blocks[i].label != label {
        lemma_block_index(blocks, label, i + 1);
    }
}

/// Where the first occurrence search finds a register
proof fn lemma_reg_index(s: Seq<Register>, x: Register, i: int)
    requires
        0 <= i,
    ensures
        reg_index(s, x, i) matches Some(k) ==> i <= k < s.len() && s[k] == x,
    decreases s.len() - i,
{
    if i < s.len() && s[i] != x {
        lemma_reg_index(s, x, i + 1);
    }
}

/// Removing a register keeps the others virtual
proof fn lemma_remove_first_virtual(s: Seq<Register>, x: Register)
    requires
        all_virtual(s),
    ensures
        remove_first_spec(s, x) matches Some(t) ==> all_virtual(t),
{
    lemma_reg_index(s, x, 0);
    if let Some(k) = reg_index(s, x, 0) {
        let t = s.remove(k);
        assert forall|j: int| 0 <= j < t.len() implies (#[trigger] t[j]) is Virtual by {
            if j < k {
                assert(t[j] == s[j]);
            } else {
                assert(t[j] == s[j + 1]);
            }
        }
    }
}

/// Process the inputs of an instruction at line `i`: each virtual one is
/// live from the start of the block to there
fn process_inputs(
    lifetimes: &mut LifetimeIntervals,
    live: &mut Vec<Register>,
    label: Ident,
    ins: &Vec<Register>,
    i: usize,
    code: &Assembly,
)
    requires
        old(lifetimes).wf(),
        keys_in(old(lifetimes).view(), *code),
        all_virtual(old(live)@),
        has_block(*code, label),
    ensures
        final(lifetimes).wf(),
        keys_in(final(lifetimes).view(), *code),
        all_virtual(final(live)@),
        inputs_step(old(lifetimes).view(), old(live)@, label, ins@, 0, i) == (final(lifetimes).view(), final(live)@),
{
    let mut j: usize = 0;
    while j < ins.len()
        invariant
            j <= ins@.len(),
            lifetimes.wf(),
            keys_in(lifetimes.view(), *code),
            all_virtual(live@),
            has_block(*code, label),
            inputs_step(old(lifetimes).view(), old(live)@, label, ins@, 0, i)
                == inputs_step(lifetimes.view(), live@, label, ins@, j as int, i),
        decreases ins@.len() - j,
    {
        let reg = ins[j];
        if let Register::Virtual(_) = reg {
            merge_or_create_interval(lifetimes, (label, reg), 0, i);
            live.push(reg);
        }
        j = j + 1;
    }
}

/// Process line `i` of a block
fn process_line(
    lifetimes: &mut LifetimeIntervals,
    live: &mut Vec<Register>,
    label: Ident,
    line: &AssemblyLine,
    i: usize,
    code: &Assembly,
) -> (r: Result<(), Diagnostic>)
    requires
        old(lifetimes).wf(),
        keys_in(old(lifetimes).view(), *code),
        all_virtual(old(live)@),
        has_block(*code, label),
    ensures
        final(lifetimes).wf(),
        keys_in(final(lifetimes).view(), *code),
        all_virtual(final(live)@),
        r is Ok <==> line_step(old(lifetimes).view(), old(live)@, label, *line, i) is Some,
        r is Ok ==> line_step(old(lifetimes).view(), old(live)@, label, *line, i) == Some((final(lifetimes).view(), final(live)@)),
{
    if let AssemblyLine::Instruction(instruction) = line {
        let outs = outputs(instruction);
        process_outputs(lifetimes, live, label, &outs, i, code)?;
        let ins = inputs(instruction);
        process_inputs(lifetimes, live, label, &ins, i, code);
    }
    Ok(())
}

/// Remove the outputs of a block's phi functions from the live registers
fn remove_phi_outputs(live: &mut Vec<Register>, phis: &Vec<ir::Phi>) -> (r: Result<(), Diagnostic>)
    requires
        all_virtual(old(live)@),
    ensures
        all_virtual(final(live)@),
        r is Ok <==> phis_out(old(live)@, phis@, 0) is Some,
        r is Ok ==> phis_out(old(live)@, phis@, 0) == Some(final(live)@),
{
    let mut p: usize = 0;
    while p < phis.len()
        invariant
            p <= phis@.len(),
            all_virtual(live@),
            phis_out(old(live)@, phis@, 0) == phis_out(live@, phis@, p as int),
        decreases phis@.len() - p,
    {
        let reg = match phis[p].dst {
            ir::Register::Local(id) => Register::Virtual(id),
            ir::Register::Stack(id) => Register::Virtual(id),
        };
        let ghost before = live@;
        if !remove_first(live, reg) {
            return Err(Diagnostic::general(string_of("a phi output is not live")));
        }
        proof { lemma_remove_first_virtual(before, reg); }
        p = p + 1;
    }
    Ok(())
}

/// Record the live-in set of a block (an empty set is not recorded)
fn record_live_in_set(live_in: &mut Vec<(Ident, Vec<Register>)>, label: Ident, live: Vec<Register>)
    requires
        forall|i: int| 0 <= i < old(live_in)@.len() ==> all_virtual(#[trigger] old(live_in)@[i].1@),
        all_virtual(live@),
    ensures
        forall|i: int| 0 <= i < final(live_in)@.len() ==> all_virtual(#[trigger] final(live_in)@[i].1@),
        live_in_view(final(live_in)@) == record_live_in(live_in_view(old(live_in)@), label, live@),
{
    let ghost l = live@;
    proof { lemma_live_in_index(live_in_view(old(live_in)@), label, 0); }
    if live.len() > 0 {
        match live_in_of(live_in, label) {
            Some(e) => {
                live_in.set(e, (label, live));
                assert(live_in_view(live_in@) =~= live_in_view(old(live_in)@).update(e as int, (label, l)));
            },
            None => {
                live_in.push((label, live));
                assert(live_in_view(live_in@) =~= live_in_view(old(live_in)@).push((label, l)));
            },
        }
    }
}

/// Build the lifetime intervals of the virtual registers, walking the
/// functions in order, each function's blocks and each block's lines
/// backwards (see the paper); fails where a written register is not live
/// afterwards, a phi function's input is not a register or a block is empty
pub fn build_intervals(code: &Assembly) -> (r: Result<LifetimeIntervals, Diagnostic>)
    ensures
        r is Ok <==> lifetimes_spec(*code) is Some,
        r matches Ok(l) ==> l.wf() && keys_in(l.view(), *code) && Some(l.view()) == lifetimes_spec(*code),
{
    let mut lifetimes = LifetimeIntervals::new();
    let mut live_in: Vec<(Ident, Vec<Register>)> = Vec::new();
    let ghost whole = functions_step(Map::empty(), Seq::empty(), code.fns@, 0);
    assert(live_in_view(live_in@) =~= Seq::<(Ident, Seq<Register>)>::empty());
    let mut f: usize = 0;
    while f < code.fns.len()
        invariant
            f <= code.fns@.len(),
            lifetimes.wf(),
            keys_in(lifetimes.view(), *code),
            forall|i: int| 0 <= i < live_in@.len() ==> all_virtual(#[trigger] live_in@[i].1@),
            whole == functions_step(Map::empty(), Seq::empty(), code.fns@, 0),
            whole == functions_step(lifetimes.view(), live_in_view(live_in@), code.fns@, f as int),
        decreases code.fns@.len() - f,
    {
        let func = &code.fns[f];
        let ghost blocks = func.code@;
        let mut b: usize = func.code.len();
        while b > 0
            invariant
                f < code.fns@.len(),
                func == &code.fns@[f as int],
                blocks == func.code@,
                b <= blocks.len(),
                lifetimes.wf(),
                keys_in(lifetimes.view(), *code),
                forall|i: int| 0 <= i < live_in@.len() ==> all_virtual(#[trigger] live_in@[i].1@),
                whole == functions_step(Map::empty(), Seq::empty(), code.fns@, 0),
                whole == match blocks_down(lifetimes.view(), live_in_view(live_in@), blocks, b as int) {
                    Some((m2, li2)) => functions_step(m2, li2, code.fns@, f + 1),
                    None => None,
                },
            decreases b,
        {
            b = b - 1;
            let block = &func.code[b];
            let label = block.label;
            let ghost m0 = lifetimes.view();
            let ghost li0 = live_in_view(live_in@);
            proof {
                assert(code.fns@[f as int].code@[b as int].label == label);
                assert(has_block(*code, label));
            }
            assert(*block == blocks[b as int]);
            let mut live = match live_out(func, block, &live_in) {
                Ok(l) => l,
                Err(e) => {
                    assert(block_step(m0, li0, blocks, b as int) is None);
                    assert(blocks_down(m0, li0, blocks, b + 1) is None);
                    return Err(e);
                },
            };
            let ghost live0 = live@;
            assert(live_out_spec(blocks, blocks[b as int], li0) == Some(live0));
            let n = block.code.len();
            if n == 0 {
                assert(block_step(m0, li0, blocks, b as int) is None);
                assert(blocks_down(m0, li0, blocks, b + 1) is None);
                return Err(Diagnostic::general(string_of("empty block")));
            }
            let mut k: usize = 0;
            while k < live.len()
                invariant
                    k <= live@.len(),
                    live@ == live0,
                    all_virtual(live@),
                    has_block(*code, label),
                    n > 0,
                    lifetimes.wf(),
                    keys_in(lifetimes.view(), *code),
                    merges(m0, label, live0, 0, (n - 1) as usize) == merges(lifetimes.view(), label, live0, k as int, (n - 1) as usize),
                decreases live@.len() - k,
            {
                merge_or_create_interval(&mut lifetimes, (label, live[k]), 0, n - 1);
                k = k + 1;
            }
            let ghost m1 = lifetimes.view();
            assert(merges(m0, label, live0, 0, (n - 1) as usize) == m1);
            // The lines in reverse order
            let mut i: usize = n;
            while i > 0
                invariant
                    i <= n,
                    n == block.code@.len(),
                    all_virtual(live@),
                    has_block(*code, label),
                    lifetimes.wf(),
                    keys_in(lifetimes.view(), *code),
                    lines_down(m1, live0, label, block.code@, n as int)
                        == lines_down(lifetimes.view(), live@, label, block.code@, i as int),
                    b < blocks.len(),
                    *block == blocks[b as int],
                    label == block.label,
                    live_out_spec(blocks, blocks[b as int], li0) == Some(live0),
                    merges(m0, label, live0, 0, (n - 1) as usize) == m1,
                    whole == functions_step(Map::empty(), Seq::empty(), code.fns@, 0),
                    whole == match blocks_down(m0, li0, blocks, b + 1) {
                        Some((m2, li2)) => functions_step(m2, li2, code.fns@, f + 1),
                        None => None,
                    },
                decreases i,
            {
                i = i - 1;
                if let Err(e) = process_line(&mut lifetimes, &mut live, label, &block.code[i], i, code) {
                    assert(lines_down(m1, live0, label, block.code@, n as int) is None);
                    assert(block_step(m0, li0, blocks, b as int) is None);
                    assert(blocks_down(m0, li0, blocks, b + 1) is None);
                    return Err(e);
                }
            }
            let ghost l2 = live@;
            // The outputs of the block's phi functions are not live before it
            if let Err(e) = remove_phi_outputs(&mut live, &block.phis) {
                assert(block_step(m0, li0, blocks, b as int) is None);
                assert(blocks_down(m0, li0, blocks, b + 1) is None);
                return Err(e);
            }
            record_live_in_set(&mut live_in, label, live);
            assert(block_step(m0, li0, blocks, b as int) == Some((lifetimes.view(), live_in_view(live_in@))));
        }
        f = f + 1;
    }
    Ok(lifetimes)
}


// --- What the intervals promise -------------------------------------------------

/// Some interval of an entry contains line `i`
pub open spec fn covers(m: Map<(Ident, Register), Seq<Interval>>, key: (Ident, Register), i: int) -> bool {
    exists|j: int| #![trigger intervals_of(m, key)[j]]
        0 <= j < intervals_of(m, key).len() && intervals_of(m, key)[j].0 <= i <= intervals_of(m, key)[j].1
}

/// No two blocks of the program have the same label
pub open spec fn distinct_labels(code: Assembly) -> bool {
    forall|f1: int, b1: int, f2: int, b2: int|
        0 <= f1 < code.fns@.len() && 0 <= b1 < code.fns@[f1].code@.len()
        && 0 <= f2 < code.fns@.len() && 0 <= b2 < code.fns@[f2].code@.len() && (f1 != f2 || b1 != b2)
        ==> #[trigger] code.fns@[f1].code@[b1].label != #[trigger] code.fns@[f2].code@[b2].label
}

/// Adding `0..=x` keeps every covered line covered, and covers the lines up to `x`
proof fn lemma_merge_covers(m: Map<(Ident, Register), Seq<Interval>>, key: (Ident, Register), x: usize, key2: (Ident, Register), i: int)
    ensures
        covers(m, key2, i) ==> covers(merge_spec(m, key, 0, x), key2, i),
        key2 == key && 0 <= i <= x ==> covers(merge_spec(m, key, 0, x), key2, i),
{
    let m2 = merge_spec(m, key, 0, x);
    let ivs = intervals_of(m, key);
    assert(intervals_of(m2, key) == merged(ivs, 0, x));
    if key2 != key {
        assert(intervals_of(m2, key2) == intervals_of(m, key2));
        if covers(m, key2, i) {
            let j = choose|j: int| #![trigger intervals_of(m, key2)[j]]
                0 <= j < intervals_of(m, key2).len() && intervals_of(m, key2)[j].0 <= i <= intervals_of(m, key2)[j].1;
            assert(intervals_of(m2, key2)[j] == intervals_of(m, key2)[j]);
        }
    } else {
        let r = merged(ivs, 0, x);
        if ivs.len() == 0 {
            assert(r == seq![(0usize, x)]);
            if 0 <= i <= x {
                assert(r[0].0 <= i <= r[0].1);
            }
        } else if ivs[0].0 <= 0 && ivs[0].1 >= x {
            assert(r == ivs);
            if covers(m, key2, i) {
                let j = choose|j: int| #![trigger intervals_of(m, key2)[j]]
                    0 <= j < intervals_of(m, key2).len() && intervals_of(m, key2)[j].0 <= i <= intervals_of(m, key2)[j].1;
                assert(r[j].0 <= i <= r[j].1);
            }
            if 0 <= i <= x {
                assert(r[0].0 <= i <= r[0].1);
            }
        } else {
            let lo: usize = if 0 < ivs[0].0 { 0 } else { ivs[0].0 };
            let hi: usize = if x > ivs[0].1 { x } else { ivs[0].1 };
            assert(r == ivs.update(0, (lo, hi)));
            if covers(m, key2, i) {
                let j = choose|j: int| #![trigger intervals_of(m, key2)[j]]
                    0 <= j < intervals_of(m, key2).len() && intervals_of(m, key2)[j].0 <= i <= intervals_of(m, key2)[j].1;
                assert(r[j].0 <= i <= r[j].1);
            }
            if 0 <= i <= x {
                assert(r[0].0 <= i <= r[0].1);
            }
        }
    }
}

/// Moving the start of an entry's last interval to a line not after `i`
/// keeps `i` covered
proof fn lemma_shorten_covers(m: Map<(Ident, Register), Seq<Interval>>, key: (Ident, Register), s: usize, key2: (Ident, Register), i: int)
    requires
        shorten_spec(m, key, s) is Some,
        covers(m, key2, i),
        key2 == key ==> s <= i,
    ensures
        covers(shorten_spec(m, key, s).unwrap(), key2, i),
{
    let m2 = shorten_spec(m, key, s).unwrap();
    let j = choose|j: int| #![trigger intervals_of(m, key2)[j]]
        0 <= j < intervals_of(m, key2).len() && intervals_of(m, key2)[j].0 <= i <= intervals_of(m, key2)[j].1;
    if key2 != key {
        assert(intervals_of(m2, key2) == intervals_of(m, key2));
        assert(intervals_of(m2, key2)[j] == intervals_of(m, key2)[j]);
    } else {
        let ivs = intervals_of(m, key);
        assert(intervals_of(m2, key) == ivs.update(ivs.len() - 1, (s, ivs.last().1)));
        assert(intervals_of(m2, key2)[j].0 <= i <= intervals_of(m2, key2)[j].1);
    }
}

proof fn lemma_outputs_covers(
    m: Map<(Ident, Register), Seq<Interval>>,
    live: Seq<Register>,
    label: Ident,
    outs: Seq<Register>,
    o: int,
    i: usize,
    key2: (Ident, Register),
    i2: int,
)
    requires
        0 <= o,
        outputs_step(m, live, label, outs, o, i) is Some,
        covers(m, key2, i2),
        key2.0 == label ==> i <= i2,
    ensures
        covers(outputs_step(m, live, label, outs, o, i).unwrap().0, key2, i2),
    decreases outs.len() - o,
{
    if o < outs.len() {
        if outs[o] is Virtual {
            let m2 = shorten_spec(m, (label, outs[o]), i).unwrap();
            let l2 = remove_first_spec(live, outs[o]).unwrap();
            lemma_shorten_covers(m, (label, outs[o]), i, key2, i2);
            lemma_outputs_covers(m2, l2, label, outs, o + 1, i, key2, i2);
        } else {
            lemma_outputs_covers(m, live, label, outs, o + 1, i, key2, i2);
        }
    }
}

proof fn lemma_inputs_keep(
    m: Map<(Ident, Register), Seq<Interval>>,
    live: Seq<Register>,
    label: Ident,
    ins: Seq<Register>,
    j: int,
    i: usize,
    key2: (Ident, Register),
    i2: int,
)
    requires
        0 <= j,
        covers(m, key2, i2),
    ensures
        covers(inputs_step(m, live, label, ins, j, i).0, key2, i2),
    decreases ins.len() - j,
{
    if j < ins.len() {
        if ins[j] is Virtual {
            lemma_merge_covers(m, (label, ins[j]), i, key2, i2);
            lemma_inputs_keep(merge_spec(m, (label, ins[j]), 0, i), live.push(ins[j]), label, ins, j + 1, i, key2, i2);
        } else {
            lemma_inputs_keep(m, live, label, ins, j + 1, i, key2, i2);
        }
    }
}

proof fn lemma_inputs_establish(
    m: Map<(Ident, Register), Seq<Interval>>,
    live: Seq<Register>,
    label: Ident,
    ins: Seq<Register>,
    j: int,
    i: usize,
    k: int,
)
    requires
        0 <= j <= k < ins.len(),
        ins[k] is Virtual,
    ensures
        covers(inputs_step(m, live, label, ins, j, i).0, (label, ins[k]), i as int),
    decreases ins.len() - j,
{
    if ins[j] is Virtual {
        let m1 = merge_spec(m, (label, ins[j]), 0, i);
        if k == j {
            lemma_merge_covers(m, (label, ins[j]), i, (label, ins[j]), i as int);
            lemma_inputs_keep(m1, live.push(ins[j]), label, ins, j + 1, i, (label, ins[k]), i as int);
        } else {
            lemma_inputs_establish(m1, live.push(ins[j]), label, ins, j + 1, i, k);
        }
    } else {
        lemma_inputs_establish(m, live, label, ins, j + 1, i, k);
    }
}

proof fn lemma_lines_keep(
    m: Map<(Ident, Register), Seq<Interval>>,
    live: Seq<Register>,
    label: Ident,
    lines: Seq<AssemblyLine>,
    c: int,
    key2: (Ident, Register),
    i2: int,
)
    requires
        0 <= c <= lines.len(),
        lines_down(m, live, label, lines, c) is Some,
        covers(m, key2, i2),
        key2.0 == label ==> c <= i2,
    ensures
        covers(lines_down(m, live, label, lines, c).unwrap().0, key2, i2),
    decreases c,
{
    if c > 0 {
        let (m1, l1) = line_step(m, live, label, lines[c - 1], (c - 1) as usize).unwrap();
        if let AssemblyLine::Instruction(ins) = lines[c - 1] {
            let (m0, l0) = outputs_step(m, live, label, outputs_of(ins), 0, (c - 1) as usize).unwrap();
            lemma_outputs_covers(m, live, label, outputs_of(ins), 0, (c - 1) as usize, key2, i2);
            lemma_inputs_keep(m0, l0, label, inputs_of(ins), 0, (c - 1) as usize, key2, i2);
        }
        lemma_lines_keep(m1, l1, label, lines, c - 1, key2, i2);
    }
}

proof fn lemma_lines_establish(
    m: Map<(Ident, Register), Seq<Interval>>,
    live: Seq<Register>,
    label: Ident,
    lines: Seq<AssemblyLine>,
    c: int,
    i: int,
    k: int,
)
    requires
        0 <= i < c <= lines.len(),
        lines.len() <= usize::MAX,
        lines_down(m, live, label, lines, c) is Some,
        lines[i] is Instruction,
        0 <= k < inputs_of(lines[i]->Instruction_0).len(),
        inputs_of(lines[i]->Instruction_0)[k] is Virtual,
    ensures
        covers(lines_down(m, live, label, lines, c).unwrap().0, (label, inputs_of(lines[i]->Instruction_0)[k]), i),
    decreases c,
{
    let (m1, l1) = line_step(m, live, label, lines[c - 1], (c - 1) as usize).unwrap();
    if i == c - 1 {
        let ins = lines[i]->Instruction_0;
        let (m0, l0) = outputs_step(m, live, label, outputs_of(ins), 0, (c - 1) as usize).unwrap();
        lemma_inputs_establish(m0, l0, label, inputs_of(ins), 0, (c - 1) as usize, k);
        lemma_lines_keep(m1, l1, label, lines, c - 1, (label, inputs_of(ins)[k]), i);
    } else {
        lemma_lines_establish(m1, l1, label, lines, c - 1, i, k);
    }
}

proof fn lemma_merges_keep(
    m: Map<(Ident, Register), Seq<Interval>>,
    label: Ident,
    live: Seq<Register>,
    k: int,
    to: usize,
    key2: (Ident, Register),
    i2: int,
)
    requires
        0 <= k,
        covers(m, key2, i2),
    ensures
        covers(merges(m, label, live, k, to), key2, i2),
    decreases live.len() - k,
{
    if k < live.len() {
        lemma_merge_covers(m, (label, live[k]), to, key2, i2);
        lemma_merges_keep(merge_spec(m, (label, live[k]), 0, to), label, live, k + 1, to, key2, i2);
    }
}

proof fn lemma_block_keep(
    m: Map<(Ident, Register), Seq<Interval>>,
    li: Seq<(Ident, Seq<Register>)>,
    blocks: Seq<Block>,
    b: int,
    key2: (Ident, Register),
    i2: int,
)
    requires
        0 <= b < blocks.len(),
        block_step(m, li, blocks, b) is Some,
        covers(m, key2, i2),
        key2.0 != blocks[b].label,
    ensures
        covers(block_step(m, li, blocks, b).unwrap().0, key2, i2),
{
    let block = blocks[b];
    let n = block.code@.len();
    let live = live_out_spec(blocks, block, li).unwrap();
    let m1 = merges(m, block.label, live, 0, (n - 1) as usize);
    lemma_merges_keep(m, block.label, live, 0, (n - 1) as usize, key2, i2);
    lemma_lines_keep(m1, live, block.label, block.code@, n as int, key2, i2);
}

proof fn lemma_block_establish(
    m: Map<(Ident, Register), Seq<Interval>>,
    li: Seq<(Ident, Seq<Register>)>,
    blocks: Seq<Block>,
    b: int,
    i: int,
    k: int,
)
    requires
        0 <= b < blocks.len(),
        block_step(m, li, blocks, b) is Some,
        0 <= i < blocks[b].code@.len(),
        blocks[b].code@[i] is Instruction,
        0 <= k < inputs_of(blocks[b].code@[i]->Instruction_0).len(),
        inputs_of(blocks[b].code@[i]->Instruction_0)[k] is Virtual,
    ensures
        covers(block_step(m, li, blocks, b).unwrap().0, (blocks[b].label, inputs_of(blocks[b].code@[i]->Instruction_0)[k]), i),
{
    let block = blocks[b];
    let n = block.code@.len();
    let live = live_out_spec(blocks, block, li).unwrap();
    let m1 = merges(m, block.label, live, 0, (n - 1) as usize);
    broadcast use vstd::std_specs::vec::axiom_spec_len;
    assert(block.code.len() == n);
    lemma_lines_establish(m1, live, block.label, block.code@, n as int, i, k);
}

proof fn lemma_blocks_keep(
    m: Map<(Ident, Register), Seq<Interval>>,
    li: Seq<(Ident, Seq<Register>)>,
    blocks: Seq<Block>,
    b: int,
    key2: (Ident, Register),
    i2: int,
)
    requires
        0 <= b <= blocks.len(),
        blocks_down(m, li, blocks, b) is Some,
        covers(m, key2, i2),
        forall|x: int| 0 <= x < b ==> #[trigger] blocks[x].label != key2.0,
    ensures
        covers(blocks_down(m, li, blocks, b).unwrap().0, key2, i2),
    decreases b,
{
    if b > 0 {
        let (m1, li1) = block_step(m, li, blocks, b - 1).unwrap();
        lemma_block_keep(m, li, blocks, b - 1, key2, i2);
        lemma_blocks_keep(m1, li1, blocks, b - 1, key2, i2);
    }
}

proof fn lemma_blocks_establish(
    m: Map<(Ident, Register), Seq<Interval>>,
    li: Seq<(Ident, Seq<Register>)>,
    blocks: Seq<Block>,
    b: int,
    b0: int,
    i: int,
    k: int,
)
    requires
        0 <= b0 < b <= blocks.len(),
        blocks_down(m, li, blocks, b) is Some,
        forall|x: int, y: int| 0 <= x < blocks.len() && 0 <= y < blocks.len() && x != y
            ==> #[trigger] blocks[x].label != #[trigger] blocks[y].label,
        0 <= i < blocks[b0].code@.len(),
        blocks[b0].code@[i] is Instruction,
        0 <= k < inputs_of(blocks[b0].code@[i]->Instruction_0).len(),
        inputs_of(blocks[b0].code@[i]->Instruction_0)[k] is Virtual,
    ensures
        covers(blocks_down(m, li, blocks, b).unwrap().0, (blocks[b0].label, inputs_of(blocks[b0].code@[i]->Instruction_0)[k]), i),
    decreases b,
{
    let (m1, li1) = block_step(m, li, blocks, b - 1).unwrap();
    if b0 == b - 1 {
        lemma_block_establish(m, li, blocks, b0, i, k);
        let key = (blocks[b0].label, inputs_of(blocks[b0].code@[i]->Instruction_0)[k]);
        assert forall|x: int| 0 <= x < b - 1 implies #[trigger] blocks[x].label != key.0 by {
            assert(blocks[x].label != blocks[b0].label);
        }
        lemma_blocks_keep(m1, li1, blocks, b - 1, key, i);
    } else {
        lemma_blocks_establish(m1, li1, blocks, b - 1, b0, i, k);
    }
}

proof fn lemma_functions_keep(
    m: Map<(Ident, Register), Seq<Interval>>,
    li: Seq<(Ident, Seq<Register>)>,
    fns: Seq<crate::back::machine::assembly::Function>,
    f: int,
    key2: (Ident, Register),
    i2: int,
)
    requires
        0 <= f,
        functions_step(m, li, fns, f) is Some,
        covers(m, key2, i2),
        forall|x: int, y: int| f <= x < fns.len() && 0 <= y < fns[x].code@.len() ==> #[trigger] fns[x].code@[y].label != key2.0,
    ensures
        covers(functions_step(m, li, fns, f).unwrap().0, key2, i2),
    decreases fns.len() - f,
{
    if f < fns.len() {
        let blocks = fns[f].code@;
        let (m1, li1) = blocks_down(m, li, blocks, blocks.len() as int).unwrap();
        assert forall|x: int| 0 <= x < blocks.len() implies #[trigger] blocks[x].label != key2.0 by {
            assert(fns[f].code@[x].label != key2.0);
        }
        lemma_blocks_keep(m, li, blocks, blocks.len() as int, key2, i2);
        lemma_functions_keep(m1, li1, fns, f + 1, key2, i2);
    }
}

proof fn lemma_functions_establish(
    m: Map<(Ident, Register), Seq<Interval>>,
    li: Seq<(Ident, Seq<Register>)>,
    code: Assembly,
    f: int,
    f0: int,
    b0: int,
    i: int,
    k: int,
)
    requires
        0 <= f <= f0 < code.fns@.len(),
        functions_step(m, li, code.fns@, f) is Some,
        distinct_labels(code),
        0 <= b0 < code.fns@[f0].code@.len(),
        0 <= i < code.fns@[f0].code@[b0].code@.len(),
        code.fns@[f0].code@[b0].code@[i] is Instruction,
        0 <= k < inputs_of(code.fns@[f0].code@[b0].code@[i]->Instruction_0).len(),
        inputs_of(code.fns@[f0].code@[b0].code@[i]->Instruction_0)[k] is Virtual,
    ensures
        covers(functions_step(m, li, code.fns@, f).unwrap().0,
            (code.fns@[f0].code@[b0].label, inputs_of(code.fns@[f0].code@[b0].code@[i]->Instruction_0)[k]), i),
    decreases code.fns@.len() - f,
{
    let fns = code.fns@;
    let blocks = fns[f].code@;
    let (m1, li1) = blocks_down(m, li, blocks, blocks.len() as int).unwrap();
    if f0 == f {
        assert forall|x: int, y: int| 0 <= x < blocks.len() && 0 <= y < blocks.len() && x != y
            implies #[trigger] blocks[x].label != #[trigger] blocks[y].label by {
            assert(code.fns@[f].code@[x].label != code.fns@[f].code@[y].label);
        }
        lemma_blocks_establish(m, li, blocks, blocks.len() as int, b0, i, k);
        let key = (blocks[b0].label, inputs_of(blocks[b0].code@[i]->Instruction_0)[k]);
        assert forall|x: int, y: int| f + 1 <= x < fns.len() && 0 <= y < fns[x].code@.len()
            implies #[trigger] fns[x].code@[y].label != key.0 by {
            assert(code.fns@[x].code@[y].label != code.fns@[f].code@[b0].label);
        }
        lemma_functions_keep(m1, li1, fns, f + 1, key, i);
    } else {
        lemma_functions_establish(m1, li1, code, f + 1, f0, b0, i, k);
    }
}

/// Every virtual register an instruction reads is alive at that line: an
/// interval of its entry for the instruction's block contains the line
/// (the blocks of the program having distinct labels)
pub proof fn lemma_inputs_are_live(code: Assembly, f: int, b: int, i: int, k: int)
    requires
        lifetimes_spec(code) is Some,
        distinct_labels(code),
        0 <= f < code.fns@.len(),
        0 <= b < code.fns@[f].code@.len(),
        0 <= i < code.fns@[f].code@[b].code@.len(),
        code.fns@[f].code@[b].code@[i] is Instruction,
        0 <= k < inputs_of(code.fns@[f].code@[b].code@[i]->Instruction_0).len(),
        inputs_of(code.fns@[f].code@[b].code@[i]->Instruction_0)[k] is Virtual,
    ensures
        covers(lifetimes_spec(code).unwrap(),
            (code.fns@[f].code@[b].label, inputs_of(code.fns@[f].code@[b].code@[i]->Instruction_0)[k]), i),
{
    lemma_functions_establish(Map::empty(), Seq::empty(), code, 0, f, b, i, k);
}

} // verus!
