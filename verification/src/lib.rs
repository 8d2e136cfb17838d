//! A line-oriented translator from a small cursor-and-cell instruction language
//! to the eight-character tape language.
//!
//! [`transpiler::Transpiler`] owns the cursor and the growing output text;
//! [`parser::Parser`] reads one source line at a time and drives it.

pub mod command;
pub mod machine;
pub mod parser;
pub mod text;
pub mod transpiler;
