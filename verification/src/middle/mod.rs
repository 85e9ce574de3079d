//! The middle end: the intermediate representation and its analyses

pub mod ir;
pub mod liveness;
