//! The `RusTiny` machine description

pub mod assembly;
pub mod cconv;

use vstd::prelude::*;

verus! {

/// A machine word
pub type Word = u64;

#[derive(Clone, Copy, Debug, PartialEq, Eq, Structural)]
pub enum MachineRegister {
    // General purpose registers
    RAX,
    RBX,
    RCX,
    RDX,
    RSI,
    RDI,
    R8,
    R9,
    R10,
    R11,
    R12,
    R13,
    R14,
    R15,
    // Stack management registers
    RSP,
    RBP,
    // Needed for artithmetic left shift
    CL,
}

/// The assembler name of a machine register
pub open spec fn machine_register_text(r: MachineRegister) -> Seq<char> {
    match r {
        MachineRegister::RAX => "rax"@,
        MachineRegister::RBX => "rbx"@,
        MachineRegister::RCX => "rcx"@,
        MachineRegister::RDX => "rdx"@,
        MachineRegister::RSI => "rsi"@,
        MachineRegister::RDI => "rdi"@,
        MachineRegister::R8 => "r8"@,
        MachineRegister::R9 => "r9"@,
        MachineRegister::R10 => "r10"@,
        MachineRegister::R11 => "r11"@,
        MachineRegister::R12 => "r12"@,
        MachineRegister::R13 => "r13"@,
        MachineRegister::R14 => "r14"@,
        MachineRegister::R15 => "r15"@,
        MachineRegister::RSP => "rsp"@,
        MachineRegister::RBP => "rbp"@,
        MachineRegister::CL => "cl"@,
    }
}

impl MachineRegister {
    /// The assembler name of the register
    pub fn name(&self) -> (r: &'static str)
        ensures
            r@ == machine_register_text(*self),
    {
        match self {
            MachineRegister::RAX => "rax",
            MachineRegister::RBX => "rbx",
            MachineRegister::RCX => "rcx",
            MachineRegister::RDX => "rdx",
            MachineRegister::RSI => "rsi",
            MachineRegister::RDI => "rdi",
            MachineRegister::R8 => "r8",
            MachineRegister::R9 => "r9",
            MachineRegister::R10 => "r10",
            MachineRegister::R11 => "r11",
            MachineRegister::R12 => "r12",
            MachineRegister::R13 => "r13",
            MachineRegister::R14 => "r14",
            MachineRegister::R15 => "r15",
            MachineRegister::RSP => "rsp",
            MachineRegister::RBP => "rbp",
            MachineRegister::CL => "cl",
        }
    }
}

} // verus!
