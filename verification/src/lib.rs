//! Decoding of spreadsheet packages into rows of text cells.

pub mod cell;
pub mod error;
pub mod output;
pub mod package;
pub mod select;
pub mod shared;
pub mod sheet;
pub mod text;
pub mod value;
pub mod xml;
