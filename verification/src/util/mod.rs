//! Helpers shared by all compiler phases: characters and text output.

pub mod chars;
pub mod pretty;
pub mod text;
pub mod visit;
