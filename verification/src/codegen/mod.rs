//! The target-independent part of code generation: the generic instances
//! resolved to concrete functions, and the types of values and structs.
pub mod blocks;
pub mod generic_resolution;
pub mod mono_compile;
pub mod select;
pub mod types;
