use vstd::prelude::*;

pub mod analysis;
pub mod ast;
pub mod compiler;
pub mod completion;
pub mod entries;
pub mod errors;
pub mod explorer;
pub mod lexer;
pub mod navigation;
pub mod numbers;
pub mod operators;
pub mod parser;
pub mod positions;
pub mod programs;
pub mod resolvers;
pub mod text;
pub mod translator;
pub mod type_checker;
pub mod type_resolver;
pub mod types;

verus! {
} // verus!
