//! An alternate help printer for command-line programs: command metadata
//! and a set of markdown-like templates become readable terminal output,
//! with repeated rows for options and positionals and, optionally, every
//! section re-rendered at one shared content width.
pub mod expander;
pub mod meta;
pub mod printer;
pub mod term;
