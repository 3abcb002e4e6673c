//! Parsing of CSS colour expressions into 8-bit RGB triples.
//!
//! The entry point is [`parse_color`]; every function of the crate is stated
//! over the characters of its input and proved against that statement.

pub mod color;
pub mod error;
pub mod hex;
pub mod hsl;
pub mod laws;
pub mod named;
pub mod number;
pub mod parse;
pub mod rgb;
pub mod text;

pub use color::Color;
pub use error::ColorParseError;
pub use number::HexError;
pub use parse::parse_color;
