//! The options of a parse.

use vstd::prelude::*;

verus! {

/// How leading whitespace is weighted into `TextLine::indent`.
#[derive(Debug, Clone, Copy, PartialEq, Eq, PartialOrd, Ord, Hash)]
pub struct ParseOptions {
    /// Weight of one leading space.
    pub space_width: usize,
    /// Weight of one leading tab.
    pub tab_width: usize,
}

impl ParseOptions {
    /// The defaults: a space weighs 1, a tab 2.
    pub open spec fn standard() -> ParseOptions {
        ParseOptions { space_width: 1, tab_width: 2 }
    }
}

impl Default for ParseOptions {
    fn default() -> (r: ParseOptions)
        ensures
            r == ParseOptions::standard(),
    {
        ParseOptions { space_width: 1, tab_width: 2 }
    }
}

} // verus!
