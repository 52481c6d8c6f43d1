//! Directory listing: collecting entries, ordering them and rendering them as text.
//!
//! The library works on plain values. Reading directories, asking the clock and writing
//! to the terminal are left to the program around it.

pub mod cli;
pub mod display;
pub mod entry;
pub mod merge;
pub mod sort;
pub mod text;
