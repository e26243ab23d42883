//! A small bytecode virtual machine core: a slot arena for IR nodes, the
//! opcode encoding, the versioned bytecode header, the byte image of an
//! executable region with the native sequences written into it, and the
//! front end's pieces: a byte tokenizer, a character lexer and the parser's
//! entry point.
pub mod error;
pub mod bytecode;
pub mod ast;
pub mod jit;
pub mod vm;
pub mod syntax;
pub mod tokenizer;
pub mod token;
pub mod lexer;
pub mod parser;
