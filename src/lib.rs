//! A JSON text engine: parsing with exact error positions, pretty and compact
//! printing, structural statistics, and string-literal escaping.
//!
//! `value` holds the value model and what printing and the statistics mean on
//! it; `grammar` says what a text parses to or where it fails. The executable
//! parser in `parser` reads a text once and, as it goes, writes the printed form
//! and counts keys and depth; its contracts tie each step to `grammar`. `json`
//! offers the operations on text, and `laws` proves how they relate.
pub mod value;
pub mod grammar;
pub mod text;
pub mod scan;
pub mod emit;
pub mod parser;
pub mod error;
pub mod json;
pub mod path;
pub mod laws;
