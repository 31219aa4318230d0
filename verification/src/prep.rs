//! A source program as it was loaded.

use vstd::prelude::*;

verus! {

/// A source program: where it came from and its whole text.
pub struct Preprocessor {
    /// The path of the file that holds the program.
    pub path: String,
    /// The text of the program.
    pub content: String,
}

} // verus!
