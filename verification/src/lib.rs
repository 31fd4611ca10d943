//! A tokenizer and serializer for color literals embedded in text.
//!
//! The library splits a text buffer into an ordered sequence of literal-text
//! spans and recognized-color spans, lets a caller replace the value of a
//! color span, and renders the sequence back to text, preserving every byte
//! that was not a recognized color.

pub mod color;
pub mod color_file;
pub mod editor;
pub mod laws;
pub mod matcher;
pub mod parse_options;
pub mod spans;

pub use color::Rgb;
pub use color_file::{ColorFile, ColorKind, Token};
pub use editor::ColorEditor;
pub use matcher::ColorKindDiscriminants;
pub use parse_options::ParseOptions;
