//! Several filters as one.

use super::DanmakuFilter;
use vstd::prelude::*;

verus! {

/// Keeps out what any of its filters keeps out.
pub struct MergeFilter {
    filters: Vec<Box<dyn DanmakuFilter>>,
}

impl MergeFilter {
    /// The filters, in the order in which they are asked.
    pub closed spec fn parts(&self) -> Seq<Box<dyn DanmakuFilter>> {
        self.filters@
    }

    pub fn new(filters: Vec<Box<dyn DanmakuFilter>>) -> (filter: Self)
        ensures
            filter.parts() == filters@,
    {
        MergeFilter { filters }
    }
}

impl DanmakuFilter for MergeFilter {
    open spec fn filters(&self, content: Seq<char>) -> bool {
        exists|i: int| 0 <= i < self.parts().len() && (#[trigger] self.parts()[i]).filters(content)
    }

    fn is_filtered(&self, content: &str) -> (filtered: bool) {
        let mut i: usize = 0;
        while i < self.filters.len()
            invariant
                i <= self.filters@.len(),
                forall|j: int| 0 <= j < i ==> !(#[trigger] self.filters@[j]).filters(content@),
            decreases self.filters@.len() - i,
        {
            if self.filters[i].is_filtered(content) {
                assert(self.parts()[i as int].filters(content@));
                return true;
            }
            i += 1;
        }
        false
    }
}

} // verus!
