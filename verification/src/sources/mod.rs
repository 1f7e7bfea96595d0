//! Where comments come from.

pub mod bilibili;
pub mod documents;
pub mod fields;
pub mod filtered;

use crate::danmaku::{Danmaku, DanmakuTime};
use vstd::prelude::*;

verus! {

/// Comments come in the order of their timestamps.
pub open spec fn comments_ordered(items: Seq<Danmaku>) -> bool {
    forall|a: int, b: int| 0 <= a <= b < items.len() ==> items[a].time@ <= items[b].time@
}

/// The comments of `items` whose timestamp lies in `[start, end)`, in their order.
pub open spec fn within(items: Seq<Danmaku>, start: DanmakuTime, end: DanmakuTime) -> Seq<Danmaku> {
    items.filter(|item: Danmaku| start@ <= item.time@ < end@)
}

/// The comments behind a sequence of references.
pub open spec fn borrowed(found: Seq<&Danmaku>) -> Seq<Danmaku> {
    found.map_values(|item: &Danmaku| *item)
}

/// A supply of comments, ordered by time.
pub trait DanmakuSource {
    /// Every comment of the source, in the order in which it is handed out.
    spec fn comments(&self) -> Seq<Danmaku>;

    /// The comments with `start_included <= time < end_excluded`.
    fn get_range<'a>(&'a self, start_included: DanmakuTime, end_excluded: DanmakuTime) -> (found: Vec<
        &'a Danmaku,
    >)
        ensures
            borrowed(found@) == within(self.comments(), start_included, end_excluded),
            comments_ordered(self.comments()),
    ;

    fn get_all(&self) -> (found: Vec<&Danmaku>)
        ensures
            borrowed(found@) == self.comments(),
            comments_ordered(self.comments()),
    ;

    fn into_all(self) -> (all: Vec<Danmaku>) where Self: Sized
        ensures
            all@ == self.comments(),
            comments_ordered(self.comments()),
    ;
}

/// `sorted` with `item` put behind the last comment that is not later than it.
pub open spec fn inserted_by_time(sorted: Seq<Danmaku>, item: Danmaku) -> Seq<Danmaku>
    decreases sorted.len(),
{
    if sorted.len() == 0 || sorted.last().time@ <= item.time@ {
        sorted.push(item)
    } else {
        inserted_by_time(sorted.drop_last(), item).push(sorted.last())
    }
}

/// The comments in the order of their timestamps; comments with the same
/// timestamp keep the order they had.
pub open spec fn sorted_by_time(items: Seq<Danmaku>) -> Seq<Danmaku>
    decreases items.len(),
{
    if items.len() == 0 {
        items
    } else {
        inserted_by_time(sorted_by_time(items.drop_last()), items.last())
    }
}

proof fn lemma_inserted(sorted: Seq<Danmaku>, item: Danmaku)
    requires
        comments_ordered(sorted),
    ensures
        comments_ordered(inserted_by_time(sorted, item)),
        inserted_by_time(sorted, item).len() == sorted.len() + 1,
        inserted_by_time(sorted, item).to_multiset() == sorted.to_multiset().insert(item),
        forall|i: int|
            0 <= i < sorted.len() + 1 ==> (#[trigger] inserted_by_time(sorted, item)[i]) == item
                || sorted.contains(inserted_by_time(sorted, item)[i]),
    decreases sorted.len(),
{
    broadcast use vstd::seq_lib::group_to_multiset_ensures;

    if sorted.len() == 0 || sorted.last().time@ <= item.time@ {
        let merged = sorted.push(item);
        assert forall|i: int| 0 <= i < sorted.len() + 1 implies (#[trigger] merged[i]) == item
            || sorted.contains(merged[i]) by {
            if i < sorted.len() {
                assert(merged[i] == sorted[i]);
            }
        }
    } else {
        let rest = sorted.drop_last();
        let last = sorted.last();
        lemma_inserted(rest, item);
        let merged = inserted_by_time(rest, item);
        assert forall|i: int| 0 <= i < merged.len() implies (#[trigger] merged[i]).time@ <= last.time@ by {
            if merged[i] != item {
                let k = choose|k: int| 0 <= k < rest.len() && rest[k] == merged[i];
                assert(rest[k] == sorted[k]);
            }
        }
        assert(sorted =~= rest.push(last));
        assert(rest.push(last).to_multiset() == rest.to_multiset().insert(last));
        assert(merged.push(last).to_multiset() =~= sorted.to_multiset().insert(item));
        let whole = merged.push(last);
        assert forall|i: int| 0 <= i < sorted.len() + 1 implies (#[trigger] whole[i]) == item
            || sorted.contains(whole[i]) by {
            if i < merged.len() {
                if merged[i] != item {
                    let k = choose|k: int| 0 <= k < rest.len() && rest[k] == merged[i];
                    assert(sorted[k] == merged[i]);
                }
            } else {
                assert(sorted[sorted.len() - 1] == last);
            }
        }
    }
}

/// Sorting yields the same comments, ordered.
pub proof fn lemma_sorted_by_time(items: Seq<Danmaku>)
    ensures
        comments_ordered(sorted_by_time(items)),
        sorted_by_time(items).len() == items.len(),
        sorted_by_time(items).to_multiset() == items.to_multiset(),
    decreases items.len(),
{
    broadcast use vstd::seq_lib::group_to_multiset_ensures;

    if items.len() > 0 {
        lemma_sorted_by_time(items.drop_last());
        lemma_inserted(sorted_by_time(items.drop_last()), items.last());
        assert(items =~= items.drop_last().push(items.last()));
    }
}

/// `slice::sort_by_key` with the timestamp as the key: the sort is stable, so
/// the comments end up in the order of their timestamps and those with equal
/// timestamps keep their order.
#[verifier::external_body]
fn sort_by_time(items: &mut Vec<Danmaku>)
    ensures
        final(items)@ == sorted_by_time(old(items)@),
{
    items.sort_by_key(|item| item.time.as_millis());
}

/// A source that holds its comments in memory.
pub struct VecDanmakuSource(Vec<Danmaku>);

struct VecDanmakuSourceIterator<'a> {
    source: &'a Vec<Danmaku>,
    index: usize,
    end_excluded: DanmakuTime,
}

impl<'a> VecDanmakuSourceIterator<'a> {
    fn new(source: &'a Vec<Danmaku>, index: usize, end_excluded: DanmakuTime) -> (iter: Self)
        ensures
            iter.source == source,
            iter.index == index,
            iter.end_excluded == end_excluded,
    {
        VecDanmakuSourceIterator { source, index, end_excluded }
    }

    /// The comment at the cursor, unless the source is exhausted or the comment
    /// lies at or past the end of the range.
    fn next(&mut self) -> (item: Option<&'a Danmaku>)
        ensures
            final(self).source == old(self).source,
            final(self).end_excluded == old(self).end_excluded,
            match item {
                Some(item) => {
                    &&& old(self).index < old(self).source@.len()
                    &&& *item == old(self).source@[old(self).index as int]
                    &&& item.time@ < old(self).end_excluded@
                    &&& final(self).index == old(self).index + 1
                },
                None => {
                    &&& final(self).index == old(self).index
                    &&& old(self).index < old(self).source@.len() ==> old(self).source@[old(
                        self,
                    ).index as int].time@ >= old(self).end_excluded@
                },
            },
    {
        if self.index >= self.source.len() {
            return None;
        }
        let item = &self.source[self.index];
        if item.time.as_millis() >= self.end_excluded.as_millis() {
            None
        } else {
            self.index += 1;
            Some(item)
        }
    }
}

/// In an ordered sequence the comments of a time range are one stretch.
proof fn lemma_within_is_stretch(items: Seq<Danmaku>, start: DanmakuTime, end: DanmakuTime, low: int, high: int)
    requires
        comments_ordered(items),
        0 <= low <= high <= items.len(),
        forall|i: int| 0 <= i < low ==> items[i].time@ < start@,
        forall|i: int| low <= i < high ==> start@ <= (#[trigger] items[i]).time@ < end@,
        high < items.len() ==> items[high].time@ >= end@,
    ensures
        within(items, start, end) == items.subrange(low, high),
    decreases items.len(),
{
    reveal(Seq::filter);
    let pred = |item: Danmaku| start@ <= item.time@ < end@;
    if items.len() == 0 {
        assert(items.subrange(low, high) =~= items);
    } else {
        let rest = items.drop_last();
        let last = items.last();
        if high == items.len() {
            if low < high {
                lemma_within_is_stretch(rest, start, end, low, high - 1);
                assert(pred(last));
                assert(items.subrange(low, high) =~= rest.subrange(low, high - 1).push(last));
            } else {
                lemma_within_is_stretch(rest, start, end, low - 1, low - 1);
                assert(!pred(last));
                assert(items.subrange(low, high) =~= rest.subrange(low - 1, low - 1));
            }
        } else {
            assert(items[high].time@ <= last.time@);
            lemma_within_is_stretch(rest, start, end, low, high);
            assert(!pred(last));
            assert(items.subrange(low, high) =~= rest.subrange(low, high));
        }
    }
}

impl VecDanmakuSource {
    #[verifier::type_invariant]
    spec fn ordered(self) -> bool {
        comments_ordered(self.0@)
    }

    /// Takes the comments in any order and keeps them sorted by time.
    pub fn new(vec: Vec<Danmaku>) -> (source: Self)
        ensures
            source.comments() == sorted_by_time(vec@),
    {
        let mut sorted = vec;
        proof {
            lemma_sorted_by_time(sorted@);
        }
        sort_by_time(&mut sorted);
        VecDanmakuSource(sorted)
    }

    /// Where the comments at or after `time` begin: `Ok` when the first of
    /// them bears exactly that timestamp, `Err` when none does.
    fn find_index(&self, time: DanmakuTime) -> (found: Result<usize, usize>)
        ensures
            ({
                let at = match found {
                    Ok(at) => at,
                    Err(at) => at,
                };
                &&& at <= self.comments().len()
                &&& forall|i: int| 0 <= i < at ==> self.comments()[i].time@ < time@
                &&& forall|i: int| at <= i < self.comments().len() ==> self.comments()[i].time@ >= time@
                &&& found is Ok <==> at < self.comments().len() && self.comments()[at as int].time == time
            }),
    {
        proof {
            use_type_invariant(self);
        }
        let mut low: usize = 0;
        let mut high: usize = self.0.len();
        while low < high
            invariant
                low <= high <= self.0@.len(),
                comments_ordered(self.0@),
                forall|i: int| 0 <= i < low ==> self.0@[i].time@ < time@,
                forall|i: int| high <= i < self.0@.len() ==> self.0@[i].time@ >= time@,
            decreases high - low,
        {
            let middle: usize = low + (high - low) / 2;
            if self.0[middle].time.as_millis() < time.as_millis() {
                low = middle + 1;
            } else {
                high = middle;
            }
        }
        if low < self.0.len() && self.0[low].time.as_millis() == time.as_millis() {
            Ok(low)
        } else {
            Err(low)
        }
    }
}

impl DanmakuSource for VecDanmakuSource {
    closed spec fn comments(&self) -> Seq<Danmaku> {
        self.0@
    }

    fn get_range<'a>(&'a self, start_included: DanmakuTime, end_excluded: DanmakuTime) -> (found: Vec<
        &'a Danmaku,
    >) {
        proof {
            use_type_invariant(self);
        }
        let start: usize = match self.find_index(start_included) {
            Ok(index) => index,
            Err(index) => index,
        };
        let mut iter = VecDanmakuSourceIterator::new(&self.0, start, end_excluded);
        let mut found: Vec<&'a Danmaku> = Vec::new();
        loop
            invariant
                iter.source == &self.0,
                iter.end_excluded == end_excluded,
                start <= iter.index <= self.0@.len(),
                found@.len() == iter.index - start,
                forall|i: int| 0 <= i < found@.len() ==> *found@[i] == self.0@[start + i],
                forall|i: int| start <= i < iter.index ==> self.0@[i].time@ < end_excluded@,
            ensures
                iter.index < self.0@.len() ==> self.0@[iter.index as int].time@ >= end_excluded@,
            decreases self.0@.len() - iter.index,
        {
            match iter.next() {
                Some(item) => {
                    found.push(item);
                },
                None => {
                    break ;
                },
            }
        }
        proof {
            lemma_within_is_stretch(
                self.0@,
                start_included,
                end_excluded,
                start as int,
                iter.index as int,
            );
            assert(borrowed(found@) =~= self.0@.subrange(start as int, iter.index as int));
        }
        found
    }

    fn get_all(&self) -> (found: Vec<&Danmaku>) {
        proof {
            use_type_invariant(self);
        }
        let mut found: Vec<&Danmaku> = Vec::new();
        let mut i: usize = 0;
        while i < self.0.len()
            invariant
                i <= self.0@.len(),
                found@.len() == i,
                forall|j: int| 0 <= j < i ==> *found@[j] == self.0@[j],
            decreases self.0@.len() - i,
        {
            found.push(&self.0[i]);
            i += 1;
        }
        assert(borrowed(found@) =~= self.0@);
        found
    }

    fn into_all(self) -> (all: Vec<Danmaku>) {
        proof {
            use_type_invariant(&self);
        }
        self.0
    }
}

} // verus!
