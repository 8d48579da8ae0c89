//! The logic behind a small family of code-generating macros, stated over
//! plain token values so that it can be proved.
//!
//! Most of the crate is the engine of a repetition macro. An invocation
//! `N in 0..3 { ... }` binds a name to a range of integers and expands its
//! body once per value. In the body the bound name stands for the value,
//! `prefix ~ N` pastes the value onto an identifier, and `#( ... )*` marks a
//! section that is repeated on its own while the rest of the body appears
//! once.
//!
//! - [`token`]: tokens and their models.
//! - [`error`]: the errors that end an invocation.
//! - [`parse`]: the cursor over a token sequence and the parser into the
//!   structured form of [`tree`].
//! - [`range`]: the range of integers.
//! - [`literal`]: the shape and the value of an integer literal.
//! - [`instantiate`]: substitution of the bound name.
//! - [`invocation`]: the head of an invocation and the expansion as a whole.
//! - [`laws`]: what holds of every parse and of every expansion.
//! - [`builder`]: how a derived builder treats each field of a struct.

pub mod builder;
pub mod error;
pub mod instantiate;
pub mod invocation;
pub mod laws;
pub mod literal;
pub mod parse;
pub mod range;
pub mod token;
pub mod tree;
