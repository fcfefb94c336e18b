//! Rule files: their grammar, the settings they produce and how settings combine.

pub mod ip;
pub mod manager;
pub mod merge;
pub mod native;
pub mod scan;
pub mod tree;
pub mod types;
pub mod veysrule;
