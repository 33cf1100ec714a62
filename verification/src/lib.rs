//! Two verified execution engines for a small dynamically typed scripting
//! language: a tree-walking interpreter (scanner, recursive-descent parser,
//! lexical resolver, evaluator over shared environments) and a single-pass
//! bytecode compiler with a stack virtual machine.
use vstd::prelude::*;

pub mod ast;
pub mod bytecode;
pub mod chunk;
pub mod compiler;
pub mod environment;
pub mod interpreter;
pub mod location;
pub mod number;
pub mod parser;
pub mod resolver;
pub mod scan;
pub mod scanner;
pub mod text;
pub mod token;
pub mod tree;
pub mod value;
pub mod vm;

verus! {

broadcast use vstd::string::group_string_axioms;

} // verus!
