//! Resolves `<tag>` markup inside text into terminal escape sequences and glyphs.

pub mod ansi;
pub mod color;
pub mod custom;
pub mod formatter;
pub mod icons;
pub mod key;
pub mod key_list;
pub mod laws;
pub mod parser;
pub mod style;
pub mod text;
pub mod timestamp;

pub use formatter::{colorize_string, Formatter};
pub use icons::LogIcon;
