//! An assembler and interpreter for a small mailbox-machine language:
//! one accumulator, a sparse memory of numbered tiles, an input queue and
//! an output sequence.
pub mod assembler;
pub mod error;
pub mod grammar;
pub mod lex;
pub mod machine;
pub mod op;
pub mod parser;
pub mod text;
