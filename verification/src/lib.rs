//! Core of an interactive command-line shell.
//!
//! A raw input line is tokenized, classified into a closed set of command
//! variants, and executed against an explicit model of the session: the
//! working directory is state owned by the shell value, and the environment
//! and the filesystem answers a command depends on are handed in as plain
//! values.  Every function here is verified; the surrounding program does
//! the reading, printing and process control.

pub mod command;
pub mod numbers;
pub mod paths;
pub mod shell;
pub mod text;
pub mod tokenizer;
