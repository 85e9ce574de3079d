//! The supported target machines

pub mod x86;
