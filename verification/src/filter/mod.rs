//! Content filters: which comments are kept out by their text.

mod merge;
mod pattern;
mod simple;

pub use merge::MergeFilter;
pub use pattern::{regex_matches, RegexFilter};
pub use simple::{occurs_in, SimpleFilter};

use vstd::prelude::*;

verus! {

/// Decides from the text of a comment whether it is kept out.
pub trait DanmakuFilter {
    /// The comments that this filter keeps out.
    spec fn filters(&self, content: Seq<char>) -> bool;

    fn is_filtered(&self, content: &str) -> (filtered: bool)
        ensures
            filtered == self.filters(content@),
    ;
}

} // verus!
