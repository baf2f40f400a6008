//! Slipbridge: an agent-first library for thermal receipt printers.
//!
//! The crate turns images into ESC/POS raster jobs, resolves printer
//! selectors, and holds the decisions of the command-line front end.

pub mod error;
pub mod escpos;
pub mod render;
pub mod text;
pub mod transport;
pub mod send;
pub mod cli;
pub mod profiles;
pub mod input;
pub mod diagnostics;
pub mod output;
pub mod commands;
