//! A small stack-based bytecode machine: values, opcodes, a tokenizer and
//! parser for the textual function format, and the interpreter itself.
pub mod stack;
pub mod value;
pub mod text;
pub mod tokenizer;
pub mod numeric;
pub mod parser;
pub mod machine;
pub mod vm;
pub mod interp;
pub mod laws;
pub mod mnemonics;
