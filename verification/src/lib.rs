//! RusTiny: a compiler for a tiny subset of Rust

pub mod back;
pub mod driver;
pub mod front;
pub mod middle;
pub mod util;
