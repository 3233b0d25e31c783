use vstd::prelude::*;

pub mod ast;
pub mod bir;
pub mod cli;
pub mod codegen;
pub mod error;
pub mod exports;
pub mod interface;
pub mod lexer;
pub mod mangle;
pub mod monomorphize;
pub mod package;
pub mod semantic;
pub mod text;

verus! {

} // verus!
