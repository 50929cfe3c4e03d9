//! A contact store kept in a flat, comma-delimited text file: the record
//! format, the in-memory store with its lookups, the mutations of the file's
//! lines, and the decisions that turn a command into an effect.
//!
//! The library computes on plain values. Reading and writing files, parsing
//! the command line and drawing tables are left to the program around it.
pub mod config;
pub mod errors;
pub mod text;
pub mod fields;
pub mod number;
pub mod parser;
pub mod store;
pub mod mutator;
pub mod command;

pub use crate::command::run;
pub use crate::errors::ProgramError;
