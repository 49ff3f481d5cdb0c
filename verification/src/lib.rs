//! An interpreter for the MoSa scripting language.
//!
//! The evaluator is the heart of it: the runtime values, the structural
//! types, the scope graph with its closures, layouts and enums, the call
//! protocol and the module store. Around it stand the lexer and the parser
//! that make a syntax tree of a text, and the options of the command line.
//!
//! The library reads no file and prints nothing, and it does no
//! floating-point arithmetic of its own: the embedding program supplies
//! the native functions and the four operations that round.

pub mod collections;
pub mod global;
pub mod interpreter;
pub mod jni;
pub mod lexer;
pub mod modules;
pub mod mosa_fs;
pub mod number;
pub mod opts;
pub mod parser;
mod util;
