//! The filter for a keyword.

use super::DanmakuFilter;
use vstd::prelude::*;

verus! {

/// Whether `needle` occurs in `haystack` as a run of consecutive characters.
pub open spec fn occurs_in(haystack: Seq<char>, needle: Seq<char>) -> bool {
    exists|at: int|
        0 <= at && at + needle.len() <= haystack.len() && #[trigger] haystack.subrange(
            at,
            at + needle.len(),
        ) == needle
}

/// `str::contains` with a string as the pattern: true exactly when the pattern
/// matches a sub-slice of the text.
#[verifier::external_body]
fn str_contains(haystack: &str, needle: &str) -> (found: bool)
    ensures
        found == occurs_in(haystack@, needle@),
{
    haystack.contains(needle)
}

/// Keeps out every comment that contains a keyword.
pub struct SimpleFilter {
    keyword: String,
}

impl SimpleFilter {
    pub closed spec fn keyword(&self) -> Seq<char> {
        self.keyword@
    }

    pub fn new(keyword: String) -> (filter: Self)
        ensures
            filter.keyword() == keyword@,
    {
        SimpleFilter { keyword }
    }
}

impl DanmakuFilter for SimpleFilter {
    open spec fn filters(&self, content: Seq<char>) -> bool {
        occurs_in(content, self.keyword())
    }

    fn is_filtered(&self, content: &str) -> (filtered: bool) {
        str_contains(content, self.keyword.as_str())
    }
}

} // verus!
