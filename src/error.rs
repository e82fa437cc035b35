//! The error that a page whose structure is not the expected one gives.

use vstd::prelude::*;
use vstd::string::StringExecFns;

verus! {

/// The page's elements no longer match the chain of selectors that locates
/// the data: the site's layout has changed.
#[derive(Debug, Clone, Copy, PartialEq, Eq)]
pub struct HtmlParsingError;

impl HtmlParsingError {
    /// A sentence that describes the error to a reader.
    pub fn message(&self) -> (r: String)
        ensures
            r@ == "found unexpected HTML structure. Page HTML may have changed"@,
    {
        String::from_str("found unexpected HTML structure. Page HTML may have changed")
    }
}

} // verus!
