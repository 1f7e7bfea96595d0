//! The cache of a back-end that needs none.

use vstd::prelude::*;

verus! {

/// The cache of a back-end that draws from the chunks themselves: it keeps nothing.
#[derive(Debug)]
pub struct NoopRenderCache;

impl Default for NoopRenderCache {
    fn default() -> (cache: Self)
        ensures
            cache == NoopRenderCache,
    {
        NoopRenderCache
    }
}

} // verus!
