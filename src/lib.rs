//! A compiler from a small line-structured imperative language to Little Man
//! Computer assembly.
//!
//! Source text is split into tokens (`lexer`), grouped into logical lines, and
//! each line is compiled in one pass (`emitter`) against the meaning given in
//! `semantics`; `compile` is the entry point. Choices this library makes:
//! - the data section lists variables in order of declaration and constants in
//!   order of first reference, `0` first;
//! - reassigning a variable keeps the initial value it was declared with;
//! - `while true` opens a loop with no condition and no body label, and
//!   `endwhile` closes it as any other loop;
//! - a construct still open at the end of the input is an error.
//!
//! `laws` and `lexer_laws` state and prove properties of the compiler.

pub mod text;
pub mod lexer;
pub mod semantics;
pub mod emitter;
pub mod compiler;
pub mod laws;
pub mod lexer_laws;

pub use compiler::compile;
