//! wux: a personal command toolkit. This crate holds its decisions, parsers and
//! text builders; the program around it performs the file, process and terminal
//! work and hands the results in as plain values.
pub mod cli;
pub mod commands;
pub mod config;
pub mod platform;
pub mod prompt;
pub mod text;
