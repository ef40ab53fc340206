//! The command line.

pub mod app;
