//! A bytecode compiler and stack virtual machine for a small dynamically typed
//! scripting language. `ast` parses a token stream into a program tree,
//! `compiler` lowers the tree to a `chunk`, and `vm` runs the chunk. Float
//! arithmetic is handed back to the caller as a `vm::FloatRequest`.
pub mod ast;
pub mod chunk;
pub mod compiler;
pub mod evaluation;
pub mod interner;
pub mod scanner;
pub mod value;
pub mod vm;
