//! The plain entry point: tags resolved by the built-in tables only.
use crate::formatter::{colorize_string, colorized};
use vstd::prelude::*;

verus! {

/// Resolves the tags of a text without custom styles.
pub struct Parser {}

impl Parser {
    /// `string` with every tag that the built-in tables know replaced.
    pub fn parse_color_string(string: &str) -> (r: String)
        ensures
            r@ == colorized(string@, Seq::empty()),
    {
        colorize_string(string)
    }
}

} // verus!
