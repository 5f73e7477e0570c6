//! A single-pass bytecode compiler and stack machine for a small expression
//! language: numbers, booleans, `nil`, strings, and the usual arithmetic,
//! comparison and equality operators.
//!
//! The library neither reads nor prints, and it holds no floating-point code.
//! A number is carried as the bit pattern of an IEEE-754 binary64 value.
//! Where a program needs a numeric literal converted or two numbers added,
//! subtracted, multiplied or divided, the machine stops and asks its host
//! (see [`vm::Pause`]); the host answers with [`vm::VM::resume`].

pub mod binary;
pub mod chunk;
pub mod compiler;
pub mod debug;
pub mod memory;
pub mod object;
pub mod scanner;
pub mod text;
pub mod value;
pub mod vm;
