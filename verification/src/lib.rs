//! Extraction of structured line items (date, item name, exact price) from
//! position-annotated invoice documents.
//!
//! Documents arrive as flat lists of text fragments carrying absolute pixel
//! coordinates.  The library linearizes them into reading order, locates the
//! item table between literal header and terminator tokens, reconstructs
//! columns from x-coordinates, rebuilds rows, and normalizes prices into
//! exact cent values; extracted records are aggregated into a per-item,
//! per-date price history.

pub mod columns;
pub mod coords;
pub mod digits;
pub mod errors;
pub mod extract;
pub mod fragments;
pub mod history;
pub mod names;
pub mod price;
pub mod rows;
pub mod scanner;
pub mod text;
