//! A small stack-based (postfix) scripting language: source text is
//! tokenized, parsed into a nested block structure, and executed against a
//! mutable operand stack and a mutable method table.
//!
//! The pipeline is `lex` (source to tokens), `parse` (tokens to a [`item::Block`]
//! tree) and `vm` (a [`vm::Vm`] that runs a block against its stack and method
//! table). `builtin` installs the standard method set. Numbers are machine
//! integers (`i64`); a numeric literal with a decimal point is tokenized but
//! rejected at parse time, since this build evaluates integers only.

pub mod builtin;
pub mod item;
pub mod lex;
pub mod parse;
pub mod text;
pub mod vm;
