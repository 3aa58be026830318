//! A bytecode compiler and stack virtual machine for a small expression
//! language: numbers, parentheses, unary `-` and the binary `+ - * /`.
//!
//! Source text is scanned into tokens ([`scanner`]) and compiled in a
//! single pass ([`compiler`]) into a [`chunk::Chunk`]: bytecode, the source
//! line of each byte, and a pool of constants. A stack machine ([`vm`])
//! executes the chunk, and the disassembler ([`disassembler`]) shows it as
//! text.
//!
//! [`grammar`] says what the compiler finds in a source and which code it
//! writes for it. [`parsing`] proves that it finds exactly the expressions
//! that are written in the source, grouped as precedence and associativity
//! ask; [`laws`] proves that running the code gives the value of the
//! expression.
//!
//! The library moves numbers around but never computes on them. A number is
//! carried as the bit pattern of a double ([`value::Value`]); the caller
//! hands in the functions that read a literal, do the arithmetic and show a
//! value. The contracts say what the library does with whatever these
//! functions return.
pub mod value;
pub mod text;
pub mod chunk;
pub mod scanner;
pub mod grammar;
pub mod parsing;
pub mod compiler;
pub mod vm;
pub mod laws;
pub mod disassembler;
pub mod utils;
