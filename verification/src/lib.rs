//! A small virtual machine for an eight-instruction tape language.
//!
//! Source text is tokenized into a program, checked for bracket balance, and
//! run on a sparse tape of wrapping 8-bit cells that is unbounded in both
//! directions. Every executable function carries a contract over the
//! mathematical model in [`machine`].

pub mod token;
pub mod nesting;
pub mod tape;
pub mod machine;
pub mod program;
