//! A source seen through a filter.

use super::{borrowed, comments_ordered, DanmakuSource};
use crate::danmaku::{Danmaku, DanmakuTime};
use crate::filter::DanmakuFilter;
use vstd::prelude::*;

verus! {

/// A source seen through a filter: it yields what the filter lets pass.
pub struct FilteredDanmakuSource<Source: DanmakuSource, Filter: DanmakuFilter> {
    source: Source,
    filter: Filter,
}

/// The test that a filter puts to a comment, turned round: what passes.
pub open spec fn passes<Filter: DanmakuFilter>(filter: Filter) -> spec_fn(Danmaku) -> bool {
    |item: Danmaku| !filter.filters(item.content@)
}

impl<Source: DanmakuSource, Filter: DanmakuFilter> FilteredDanmakuSource<Source, Filter> {
    pub closed spec fn source(&self) -> Source {
        self.source
    }

    pub closed spec fn filter(&self) -> Filter {
        self.filter
    }

    pub fn new(source: Source, filter: Filter) -> (filtered: Self)
        ensures
            filtered.source() == source,
            filtered.filter() == filter,
    {
        FilteredDanmakuSource { source, filter }
    }
}

/// Walks over comments and skips those that the filter keeps out.
struct FilteredDanmakuSourceIterator<'a, Filter: DanmakuFilter> {
    iterator: Vec<&'a Danmaku>,
    position: usize,
    is_ended: bool,
    filter: &'a Filter,
}

impl<'a, Filter: DanmakuFilter> FilteredDanmakuSourceIterator<'a, Filter> {
    spec fn wf(&self) -> bool {
        &&& self.position <= self.iterator@.len()
        &&& self.is_ended ==> self.position == self.iterator@.len()
    }

    fn new(iterator: Vec<&'a Danmaku>, filter: &'a Filter) -> (iter: Self)
        ensures
            iter.wf(),
            iter.iterator == iterator,
            iter.position == 0,
            iter.filter == filter,
    {
        FilteredDanmakuSourceIterator { iterator, position: 0, is_ended: false, filter }
    }

    /// The next comment that passes; the comments between the old and the new
    /// position do not pass.
    fn next(&mut self) -> (item: Option<&'a Danmaku>)
        requires
            old(self).wf(),
        ensures
            final(self).wf(),
            final(self).iterator == old(self).iterator,
            final(self).filter == old(self).filter,
            old(self).position <= final(self).position,
            match item {
                Some(item) => {
                    &&& final(self).position > old(self).position
                    &&& *item == *old(self).iterator@[final(self).position - 1]
                    &&& passes(*old(self).filter)(*item)
                    &&& forall|i: int|
                        old(self).position <= i < final(self).position - 1 ==> !passes(
                            *old(self).filter,
                        )(*#[trigger] old(self).iterator@[i])
                },
                None => {
                    &&& final(self).position == old(self).iterator@.len()
                    &&& forall|i: int|
                        old(self).position <= i < final(self).position ==> !passes(
                            *old(self).filter,
                        )(*#[trigger] old(self).iterator@[i])
                },
            },
    {
        loop
            invariant
                self.wf(),
                self.iterator == old(self).iterator,
                self.filter == old(self).filter,
                old(self).position <= self.position,
                forall|i: int|
                    old(self).position <= i < self.position ==> !passes(*old(self).filter)(
                        *#[trigger] old(self).iterator@[i],
                    ),
            decreases self.iterator@.len() - self.position, if self.is_ended { 0int } else { 1int },
        {
            if self.is_ended {
                return None;
            }
            if self.position < self.iterator.len() {
                let item: &'a Danmaku = self.iterator[self.position];
                self.position += 1;
                if self.filter.is_filtered(item.content.as_str()) {
                    continue ;
                } else {
                    return Some(item);
                }
            } else {
                self.is_ended = true;
                return None;
            }
        }
    }
}

/// Two filters applied one after the other may change places.
proof fn lemma_filters_commute(items: Seq<Danmaku>, first: spec_fn(Danmaku) -> bool, second: spec_fn(Danmaku) -> bool)
    ensures
        items.filter(first).filter(second) == items.filter(second).filter(first),
    decreases items.len(),
{
    reveal(Seq::filter);
    if items.len() > 0 {
        let rest = items.drop_last();
        let last = items.last();
        lemma_filters_commute(rest, first, second);
        if first(last) {
            assert(rest.filter(first).push(last).drop_last() =~= rest.filter(first));
        }
        if second(last) {
            assert(rest.filter(second).push(last).drop_last() =~= rest.filter(second));
        }
    }
}

/// What is left of ordered comments is ordered.
pub proof fn lemma_filter_keeps_order(items: Seq<Danmaku>, kept: spec_fn(Danmaku) -> bool)
    requires
        comments_ordered(items),
    ensures
        comments_ordered(items.filter(kept)),
        forall|i: int|
            0 <= i < items.filter(kept).len() ==> items.contains(#[trigger] items.filter(kept)[i]),
    decreases items.len(),
{
    reveal(Seq::filter);
    if items.len() > 0 {
        let rest = items.drop_last();
        let last = items.last();
        lemma_filter_keeps_order(rest, kept);
        let left = rest.filter(kept);
        assert forall|i: int| 0 <= i < left.len() implies (#[trigger] left[i]).time@ <= last.time@
            && items.contains(left[i]) by {
            let k = choose|k: int| 0 <= k < rest.len() && rest[k] == left[i];
            assert(items[k] == left[i]);
        }
        if kept(last) {
            assert(items[items.len() - 1] == last);
        }
    }
}

/// Filtering a sequence one more element at a time.
pub proof fn lemma_filter_step(items: Seq<Danmaku>, kept: spec_fn(Danmaku) -> bool, n: int)
    requires
        0 <= n < items.len(),
    ensures
        items.take(n + 1).filter(kept) == if kept(items[n]) {
            items.take(n).filter(kept).push(items[n])
        } else {
            items.take(n).filter(kept)
        },
{
    reveal(Seq::filter);
    assert(items.take(n + 1).drop_last() =~= items.take(n));
}

/// Elements that do not pass leave no trace.
proof fn lemma_filter_skip(items: Seq<Danmaku>, kept: spec_fn(Danmaku) -> bool, from: int, to: int)
    requires
        0 <= from <= to <= items.len(),
        forall|i: int| from <= i < to ==> !kept(#[trigger] items[i]),
    ensures
        items.take(to).filter(kept) == items.take(from).filter(kept),
    decreases to - from,
{
    if from < to {
        lemma_filter_skip(items, kept, from, to - 1);
        lemma_filter_step(items, kept, to - 1);
    }
}

impl<Source: DanmakuSource, Filter: DanmakuFilter> FilteredDanmakuSource<Source, Filter> {
    /// Hands on what passes the filter, in order.
    fn sift<'a>(&'a self, inner: Vec<&'a Danmaku>) -> (found: Vec<&'a Danmaku>)
        ensures
            borrowed(found@) == borrowed(inner@).filter(passes(self.filter)),
    {
        let ghost all = borrowed(inner@);
        let ghost kept = passes(self.filter);
        let mut iter = FilteredDanmakuSourceIterator::new(inner, &self.filter);
        let mut found: Vec<&'a Danmaku> = Vec::new();
        assert(all.take(0) =~= Seq::<Danmaku>::empty());
        assert(borrowed(found@) =~= all.take(0).filter(kept)) by {
            reveal(Seq::filter);
        }
        loop
            invariant
                iter.wf(),
                iter.iterator@ == inner@,
                iter.filter == &self.filter,
                all == borrowed(inner@),
                kept == passes(self.filter),
                borrowed(found@) == all.take(iter.position as int).filter(kept),
            ensures
                iter.position == inner@.len(),
                borrowed(found@) == all.take(iter.position as int).filter(kept),
            decreases inner@.len() - iter.position, if iter.is_ended { 0int } else { 1int },
        {
            let ghost before = iter.position;
            let ghost found_before = borrowed(found@);
            let next = iter.next();
            proof {
                let stop: int = if next is Some {
                    iter.position - 1
                } else {
                    iter.position as int
                };
                assert(all.len() == inner@.len());
                assert forall|i: int| before <= i < stop implies !kept(#[trigger] all[i]) by {
                    assert(all[i] == *inner@[i]);
                }
                lemma_filter_skip(all, kept, before as int, stop);
            }
            match next {
                Some(item) => {
                    found.push(item);
                    proof {
                        lemma_filter_step(all, kept, iter.position - 1);
                        assert(borrowed(found@) =~= found_before.push(*item));
                    }
                },
                None => {
                    break ;
                },
            }
        }
        assert(all.take(inner@.len() as int) =~= all);
        found
    }
}

impl<Source: DanmakuSource, Filter: DanmakuFilter> DanmakuSource for FilteredDanmakuSource<
    Source,
    Filter,
> {
    open spec fn comments(&self) -> Seq<Danmaku> {
        self.source().comments().filter(passes(self.filter()))
    }

    fn get_range<'a>(&'a self, start_included: DanmakuTime, end_excluded: DanmakuTime) -> (found: Vec<
        &'a Danmaku,
    >) {
        let inner = self.source.get_range(start_included, end_excluded);
        proof {
            lemma_filters_commute(
                self.source.comments(),
                passes(self.filter),
                |item: Danmaku| start_included@ <= item.time@ < end_excluded@,
            );
            lemma_filter_keeps_order(self.source.comments(), passes(self.filter));
        }
        self.sift(inner)
    }

    fn get_all(&self) -> (found: Vec<&Danmaku>) {
        let inner = self.source.get_all();
        proof {
            lemma_filter_keeps_order(self.source.comments(), passes(self.filter));
        }
        self.sift(inner)
    }

    fn into_all(self) -> (all: Vec<Danmaku>) {
        let ghost whole = self.source.comments();
        let ghost kept = passes(self.filter);
        let filter = self.filter;
        let mut inner = self.source.into_all();
        proof {
            lemma_filter_keeps_order(whole, kept);
            assert(whole.take(whole.len() as int) =~= whole);
        }
        // Taken from the end, so what passes comes out last first.
        let mut backwards: Vec<Danmaku> = Vec::new();
        while inner.len() > 0
            invariant
                inner@.len() <= whole.len(),
                inner@ == whole.take(inner@.len() as int),
                kept == passes(filter),
                whole.filter(kept) == inner@.filter(kept) + backwards@.reverse(),
            decreases inner@.len(),
        {
            let ghost n = inner@.len() - 1;
            let item = inner.pop().unwrap();
            proof {
                lemma_filter_step(whole, kept, n);
                assert(whole.take(n + 1).take(n) =~= whole.take(n));
                assert(inner@ =~= whole.take(n));
            }
            if !filter.is_filtered(item.content.as_str()) {
                proof {
                    assert(backwards@.push(item).reverse() =~= seq![item] + backwards@.reverse());
                    assert(whole.take(n).filter(kept).push(item) + backwards@.reverse()
                        =~= whole.take(n).filter(kept) + (seq![item] + backwards@.reverse()));
                }
                backwards.push(item);
            }
        }
        assert(inner@.filter(kept) =~= Seq::<Danmaku>::empty()) by {
            reveal(Seq::filter);
        }
        let mut all: Vec<Danmaku> = Vec::new();
        let ghost target = backwards@.reverse();
        while backwards.len() > 0
            invariant
                backwards@.len() <= target.len(),
                all@ + backwards@.reverse() == target,
            decreases backwards@.len(),
        {
            let ghost left = backwards@;
            let item = backwards.pop().unwrap();
            proof {
                assert(left =~= backwards@.push(item));
                assert(left.reverse() =~= seq![item] + backwards@.reverse());
                assert(all@.push(item) + backwards@.reverse() =~= all@ + (seq![item]
                    + backwards@.reverse()));
            }
            all.push(item);
        }
        assert(backwards@.reverse() =~= Seq::<Danmaku>::empty());
        assert(all@ =~= target);
        all
    }
}

} // verus!
