//! An interpreter for Intcode programs and a generator of standalone Rust
//! programs that resume a checkpointed run.
pub mod text;
pub mod error;
pub mod interpreter;
pub mod parser;
pub mod transpiler;
