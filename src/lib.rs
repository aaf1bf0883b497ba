//! Builds a parallel text out of two books: segments each into chapters,
//! decodes chapter numbers, finds the main run of chapters and merges the two
//! runs under one of several interleaving strategies.

pub mod align;
pub mod data;
pub mod merge;
pub mod numeral;
pub mod parse;
pub mod render;

use vstd::prelude::*;

verus! {

/// The command kept for trying things out during development; it does nothing.
pub fn debug() -> (r: Result<(), parse::ParseError>)
    ensures
        r == Ok::<(), parse::ParseError>(()),
{
    Ok(())
}

} // verus!
