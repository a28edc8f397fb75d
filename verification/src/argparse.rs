//! Parsing of command lines: argument lists are turned into a structured
//! [`command::Command`] by recursive descent over the arguments, each
//! parser's accepted language and produced value stated over the argument
//! strings' characters.

pub mod args;
pub mod command;
pub mod filter;
pub mod modification;
pub mod report;
pub mod subcommand;
