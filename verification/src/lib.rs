//! A Brainfuck front end and tape machine.
//!
//! [`parse`] turns source text into a run-length-encoded instruction list
//! whose brackets are linked by index. A [`Machine`] executes such a list one
//! instruction at a time and tells its caller what to write and when to
//! read, so that the caller owns the streams and the loop around the steps.

pub mod error;
pub mod inst;
pub mod laws;
pub mod machine;
pub mod nesting;
pub mod parser;

pub use error::Error;
pub use inst::{Inst, InstKind, ARRAY_LEN, EOF, NEWLINE};
pub use machine::{Action, Machine};
pub use parser::parse;
