//! Grammar-driven command-line argument parsing.
//!
//! A command-line interface is described once as a [`grammar::Grammar`]: a
//! tree of commands, each with its switches and positional arguments.  The
//! matcher walks an argument list against that grammar and yields either a
//! structured [`matcher::ParseOutcome`] or a structured
//! [`error::ParseError`], which the reporter turns into one caller-facing
//! [`error::Error`]; the same grammar drives a deterministic help renderer.
//!
//! All textual data is carried as byte strings (`Vec<u8>`): arguments that
//! arrived as valid text and arguments that are opaque bytes are kept apart
//! by [`token::Arg`], so non-textual values survive unchanged on their way
//! into raw-typed slots.

pub mod bytes;
pub mod error;
pub mod grammar;
pub mod token;
pub mod value;
pub mod matcher;
pub mod help;
pub mod report;
pub mod laws;
