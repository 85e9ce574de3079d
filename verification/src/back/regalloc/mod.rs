//! Register allocation
//!
//! For now, the allocator determines the lifetime intervals of the virtual
//! registers (see `lifetime_intervals`) and leaves the code unchanged:
//! every virtual register is still to be spilled on use.

pub mod lifetime_intervals;

use vstd::prelude::*;
use crate::back::machine::assembly::Assembly;
use crate::driver::session::Diagnostic;
use self::lifetime_intervals::{LifetimeIntervals, build_intervals, keys_in, lifetimes_spec};

verus! {

/// Allocate registers: the code comes back unchanged, with the lifetime
/// intervals of its virtual registers
pub fn allocate_regs(code: Assembly) -> (r: Result<(Assembly, LifetimeIntervals), Diagnostic>)
    ensures
        r is Ok <==> lifetimes_spec(code) is Some,
        r matches Ok((c, l)) ==> c == code && l.wf() && keys_in(l.view(), code) && Some(l.view()) == lifetimes_spec(code),
{
    let lifetimes = build_intervals(&code)?;
    Ok((code, lifetimes))
}

} // verus!
