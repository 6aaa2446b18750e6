//! Command-line normalisation, pipeline splitting and job bookkeeping for a
//! small interactive shell.

pub mod text;
pub mod command;
pub mod jobs;
pub mod env;
