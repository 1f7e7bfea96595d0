//! The filter for a regular expression.

use super::DanmakuFilter;
use regex::Regex;
use vstd::prelude::*;

verus! {

/// Makes `Regex` known to the verifier, which sees nothing of what a value holds.
#[verifier::external_type_specification]
#[verifier::external_body]
pub struct ExRegex(Regex);

/// Whether the compiled expression has a match anywhere in `content`.
pub uninterp spec fn regex_matches(regex: Regex, content: Seq<char>) -> bool;

/// `Regex::is_match`: true if and only if there is a match for the expression
/// anywhere in the text.
pub assume_specification[ Regex::is_match ](regex: &Regex, haystack: &str) -> (found: bool)
    ensures
        found == regex_matches(*regex, haystack@),
;

/// Keeps out every comment in which a regular expression has a match.
pub struct RegexFilter {
    regex: Regex,
}

impl RegexFilter {
    pub closed spec fn regex(&self) -> Regex {
        self.regex
    }

    pub fn new(regex: Regex) -> (filter: Self)
        ensures
            filter.regex() == regex,
    {
        RegexFilter { regex }
    }
}

impl DanmakuFilter for RegexFilter {
    open spec fn filters(&self, content: Seq<char>) -> bool {
        regex_matches(self.regex(), content)
    }

    fn is_filtered(&self, content: &str) -> (filtered: bool) {
        self.regex.is_match(content)
    }
}

} // verus!
