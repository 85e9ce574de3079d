//! The back end: instruction selection and register allocation

pub mod instsel;
pub mod interface;
pub mod machine;
pub mod regalloc;
pub mod targets;
