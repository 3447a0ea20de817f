//! A small calculator for byte quantities.
//!
//! The library turns free-form text such as `"12 GiB + 14MiB * 2"` into a
//! sequence of symbols, reduces that sequence strictly left to right with no
//! operator precedence, and renders the resulting byte count with the
//! best-fitting binary unit.

pub mod calculate;
pub mod format;
pub mod parser;
