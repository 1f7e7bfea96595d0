//! What holds of every provider of chunks.

use crate::danmaku::Danmaku;
use crate::layout::{scroll_lanes, DanmakuItem, DanmakuPosition, TrackLayout};
use crate::layout_laws::{
    boxes_meet, lemma_after_step, lemma_scroll_lane_never_overlaps, time_ordered,
};
use crate::manager::{
    arrange, chunk_comments, in_chunk, laid_out, ChunkView, LaidOut, Placed, ProviderView,
    ShapedLineView,
};
use crate::sources::comments_ordered;
use crate::sources::filtered::lemma_filter_keeps_order;
use vstd::prelude::*;

verus! {

/// Laying out in two goes, the second from the state that the first left
/// behind, is laying out in one go.
pub proof fn lemma_arrange_concat(start: TrackLayout, first: Seq<LaidOut>, second: Seq<LaidOut>)
    ensures
        arrange(start, first + second).0 == arrange(arrange(start, first).0, second).0,
        arrange(start, first + second).1 == arrange(start, first).1 + arrange(
            arrange(start, first).0,
            second,
        ).1,
    decreases second.len(),
{
    let middle = arrange(start, first).0;
    if second.len() == 0 {
        assert(first + second =~= first);
        assert(arrange(start, first).1 + arrange(middle, second).1 =~= arrange(start, first).1);
    } else {
        lemma_arrange_concat(start, first, second.drop_last());
        assert((first + second).drop_last() =~= first + second.drop_last());
        assert((first + second).last() == second.last());
        let (state, placed) = arrange(middle, second.drop_last());
        let position = state.insert(second.last().item()).1;
        if position is Some {
            let item = Placed { item: second.last(), position: position.unwrap() };
            assert((arrange(start, first).1 + placed).push(item) =~= arrange(start, first).1
                + placed.push(item));
        }
    }
}

/// What the layout engine is told of each line.
pub open spec fn items_of(lines: Seq<LaidOut>) -> Seq<DanmakuItem> {
    lines.map_values(|line: LaidOut| line.item())
}

/// The lines that were given a lane, each with its lane.
pub open spec fn placed_of(lines: Seq<LaidOut>, lanes: Seq<Option<DanmakuPosition>>) -> Seq<Placed>
    decreases lines.len(),
{
    if lines.len() == 0 {
        Seq::empty()
    } else {
        let before = placed_of(lines.drop_last(), lanes);
        match lanes[lines.len() - 1] {
            Some(position) => before.push(Placed { item: lines.last(), position }),
            None => before,
        }
    }
}

/// The items of a chunk are the lines to which a run of the layout engine gave
/// a lane, with those lanes; so what holds of all runs of the engine holds of
/// the items of chunks.
pub proof fn lemma_arrange_is_run(start: TrackLayout, lines: Seq<LaidOut>)
    ensures
        arrange(start, lines).0 == start.after(items_of(lines)),
        arrange(start, lines).1 == placed_of(lines, start.placements(items_of(lines))),
    decreases lines.len(),
{
    let items = items_of(lines);
    if lines.len() == 0 {
        assert(items =~= Seq::<DanmakuItem>::empty());
    } else {
        let shorter = lines.drop_last();
        lemma_arrange_is_run(start, shorter);
        assert(items.drop_last() =~= items_of(shorter));
        assert(items.last() == lines.last().item());
        assert(items.take(items.len() - 1) =~= items.drop_last());
        lemma_after_step(start, items, items.len() - 1);
        assert forall|i: int| 0 <= i < shorter.len() implies start.placements(items_of(shorter))[i]
            == start.placements(items)[i] by {
            assert(items_of(shorter).take(i) =~= items.take(i));
            assert(items_of(shorter)[i] == items[i]);
        }
        lemma_placed_prefix(shorter, start.placements(items_of(shorter)), start.placements(items));
    }
}

/// Only the lanes of the lines themselves matter.
proof fn lemma_placed_prefix(lines: Seq<LaidOut>, first: Seq<Option<DanmakuPosition>>, second: Seq<Option<DanmakuPosition>>)
    requires
        forall|i: int| 0 <= i < lines.len() ==> first[i] == second[i],
    ensures
        placed_of(lines, first) == placed_of(lines, second),
    decreases lines.len(),
{
    if lines.len() > 0 {
        lemma_placed_prefix(lines.drop_last(), first, second);
    }
}

/// A request leaves the chunks and the saved states of a provider together.
pub proof fn lemma_get_chunk_keeps_coherent(
    provider: ProviderView,
    shaped: Seq<Option<ShapedLineView>>,
    hint: Option<u32>,
    index: u32,
)
    requires
        provider.coherent(),
    ensures
        provider.get_chunk(shaped, hint, index).0.coherent(),
        provider.get_chunk(shaped, hint, index).0.chunks.contains_key(index),
        provider.get_chunk(shaped, hint, index).0.chunks[index] == provider.get_chunk(
            shaped,
            hint,
            index,
        ).1,
{
}

/// Asking twice gives the same chunk, and the second request changes nothing.
/// This holds whenever the first request does not use up a saved state that
/// was started elsewhere than the hint says: when the request is answered from
/// the chunks already made, when no hint is given, when there is no state of
/// the chunk before, or when that state was started where the hint says.
pub proof fn lemma_get_chunk_twice(
    provider: ProviderView,
    shaped: Seq<Option<ShapedLineView>>,
    hint: Option<u32>,
    index: u32,
)
    requires
        provider.hit(hint, index) || hint is None || index == 0 || !provider.states.contains_key(
            (index - 1) as u32,
        ) || provider.states[(index - 1) as u32].0 == hint.unwrap(),
    ensures
        provider.get_chunk(shaped, hint, index).0.get_chunk(shaped, hint, index).1
            == provider.get_chunk(shaped, hint, index).1,
        provider.get_chunk(shaped, hint, index).0.get_chunk(shaped, hint, index).0
            == provider.get_chunk(shaped, hint, index).0,
{
    let (once, chunk) = provider.get_chunk(shaped, hint, index);
    if !provider.hit(hint, index) && !once.hit(hint, index) {
        // Made anew both times: there was no state of the chunk before, and
        // there is none now.
        assert(provider.seed(index) == (index, provider.fresh()));
        assert(once.seed(index) == (index, once.fresh()));
        let twice = once.get_chunk(shaped, hint, index).0;
        assert(twice.states =~= once.states);
        assert(twice.chunks =~= once.chunks);
    }
}

/// The chunks `first`, `first + 1`, ... requested one after the other, each
/// with `first` as the hint and with its own lines: the provider afterwards,
/// and the chunks that answered.
pub open spec fn replay(provider: ProviderView, first: u32, batches: Seq<Seq<Option<ShapedLineView>>>) -> (
    ProviderView,
    Seq<ChunkView>,
)
    decreases batches.len(),
{
    if batches.len() == 0 {
        (provider, Seq::empty())
    } else {
        let (before, chunks) = replay(provider, first, batches.drop_last());
        let index = (first + batches.len() - 1) as u32;
        let (after, chunk) = before.get_chunk(batches.last(), Some(first), index);
        (after, chunks.push(chunk))
    }
}

/// The lines that enter the layout of the chunks `first`, `first + 1`, ..., one
/// chunk after the other.
pub open spec fn joined_inputs(provider: ProviderView, first: u32, batches: Seq<Seq<Option<ShapedLineView>>>) -> Seq<
    LaidOut,
>
    decreases batches.len(),
{
    if batches.len() == 0 {
        Seq::empty()
    } else {
        joined_inputs(provider, first, batches.drop_last()) + provider.inputs(
            (first + batches.len() - 1) as u32,
            batches.last(),
        )
    }
}

/// The items of several chunks, one chunk after the other.
pub open spec fn joined_items(chunks: Seq<ChunkView>) -> Seq<Placed>
    decreases chunks.len(),
{
    if chunks.len() == 0 {
        Seq::empty()
    } else {
        joined_items(chunks.drop_last()) + chunks.last().items
    }
}

/// State continuity. A run of chunks that is made one after the other, from
/// a chunk at which the layout starts afresh, bears the index of that chunk
/// as its base, and reports exactly what one layout of all its lines from a
/// fresh state gives: the same items in the same lanes, the same lines left
/// out, and the same state saved at the end.
pub proof fn lemma_replay_continuity(
    provider: ProviderView,
    first: u32,
    batches: Seq<Seq<Option<ShapedLineView>>>,
)
    requires
        first + batches.len() <= u32::MAX + 1,
        first == 0 || !provider.states.contains_key((first - 1) as u32),
        forall|index: u32| first <= index < first + batches.len() ==> !provider.hit(Some(first), index),
    ensures
        replay(provider, first, batches).1.len() == batches.len(),
        forall|i: int|
            0 <= i < batches.len() ==> (#[trigger] replay(provider, first, batches).1[i]).base_state_index
                == first && replay(provider, first, batches).1[i].index == first + i,
        joined_items(replay(provider, first, batches).1) == arrange(
            provider.fresh(),
            joined_inputs(provider, first, batches),
        ).1,
        batches.len() > 0 ==> replay(provider, first, batches).0.states.contains_key(
            (first + batches.len() - 1) as u32,
        ) && replay(provider, first, batches).0.states[(first + batches.len() - 1) as u32] == (
            first,
            arrange(provider.fresh(), joined_inputs(provider, first, batches)).0,
        ),
{
    lemma_replay(provider, first, batches);
}

/// The induction behind [`lemma_replay_continuity`], with what it needs to
/// know of the provider on the way.
proof fn lemma_replay(provider: ProviderView, first: u32, batches: Seq<Seq<Option<ShapedLineView>>>)
    requires
        first + batches.len() <= u32::MAX + 1,
        first == 0 || !provider.states.contains_key((first - 1) as u32),
        forall|index: u32| first <= index < first + batches.len() ==> !provider.hit(Some(first), index),
    ensures
        replay(provider, first, batches).1.len() == batches.len(),
        replay(provider, first, batches).0.comments == provider.comments,
        replay(provider, first, batches).0.lifetime == provider.lifetime,
        replay(provider, first, batches).0.screen_size == provider.screen_size,
        replay(provider, first, batches).0.line_height == provider.line_height,
        replay(provider, first, batches).0.layout_mode == provider.layout_mode,
        forall|index: u32|
            index >= first + batches.len() ==> (#[trigger] replay(
                provider,
                first,
                batches,
            ).0.chunks.contains_key(index)) == provider.chunks.contains_key(index),
        forall|index: u32|
            index >= first + batches.len() && provider.chunks.contains_key(index) ==> (#[trigger] replay(
                provider,
                first,
                batches,
            ).0.chunks[index]) == provider.chunks[index],
        forall|i: int|
            0 <= i < batches.len() ==> (#[trigger] replay(provider, first, batches).1[i]).base_state_index
                == first && replay(provider, first, batches).1[i].index == first + i,
        joined_items(replay(provider, first, batches).1) == arrange(
            provider.fresh(),
            joined_inputs(provider, first, batches),
        ).1,
        batches.len() > 0 ==> replay(provider, first, batches).0.states.contains_key(
            (first + batches.len() - 1) as u32,
        ) && replay(provider, first, batches).0.states[(first + batches.len() - 1) as u32] == (
            first,
            arrange(provider.fresh(), joined_inputs(provider, first, batches)).0,
        ),
        batches.len() == 0 ==> replay(provider, first, batches).0 == provider,
    decreases batches.len(),
{
    if batches.len() > 0 {
        let shorter = batches.drop_last();
        lemma_replay(provider, first, shorter);
        let (before, chunks) = replay(provider, first, shorter);
        let index = (first + batches.len() - 1) as u32;
        let earlier = joined_inputs(provider, first, shorter);
        let inputs = provider.inputs(index, batches.last());
        assert(before.fresh() == provider.fresh());
        assert(before.inputs(index, batches.last()) == inputs);
        assert(!before.hit(Some(first), index)) by {
            assert(!provider.hit(Some(first), index));
        }
        let seed = before.seed(index);
        assert(seed == (first, arrange(provider.fresh(), earlier).0)) by {
            if shorter.len() == 0 {
                assert(index == first);
                assert(earlier =~= Seq::<LaidOut>::empty());
            }
        }
        lemma_arrange_concat(provider.fresh(), earlier, inputs);
        let (after, chunk) = before.get_chunk(batches.last(), Some(first), index);
        let all = chunks.push(chunk);
        assert(all.drop_last() =~= chunks);
        assert forall|i: int| 0 <= i < batches.len() implies (#[trigger] all[i]).base_state_index
            == first && all[i].index == first + i by {
            if i < chunks.len() {
                assert(all[i] == chunks[i]);
            }
        }
    }
}

/// The provider with nothing made yet.
pub open spec fn emptied(provider: ProviderView) -> ProviderView {
    ProviderView { states: Map::empty(), chunks: Map::empty(), ..provider }
}

/// The lines of `count` chunks from `first` on, where `lines` gives the lines
/// of each chunk.
pub open spec fn batches_of(
    lines: spec_fn(u32) -> Seq<Option<ShapedLineView>>,
    first: u32,
    count: nat,
) -> Seq<Seq<Option<ShapedLineView>>> {
    Seq::new(count, |i: int| lines((first + i) as u32))
}

/// The run of chunks that starts afresh at `base` and ends with chunk `index`,
/// made by a provider that has made nothing yet: the provider afterwards, and
/// the chunks.
pub open spec fn run_to(
    provider: ProviderView,
    lines: spec_fn(u32) -> Seq<Option<ShapedLineView>>,
    base: u32,
    index: u32,
) -> (ProviderView, Seq<ChunkView>) {
    replay(emptied(provider), base, batches_of(lines, base, (index - base + 1) as nat))
}

/// Every chunk that the provider holds is the last chunk of the run that
/// starts afresh at the chunk's base, and every state that it holds is the
/// state that such a run leaves behind.
pub open spec fn accounted(provider: ProviderView, lines: spec_fn(u32) -> Seq<Option<ShapedLineView>>) -> bool {
    &&& forall|index: u32| #[trigger]
        provider.chunks.contains_key(index) ==> provider.chunks[index].base_state_index <= index
            && provider.chunks[index] == run_to(
            provider,
            lines,
            provider.chunks[index].base_state_index,
            index,
        ).1.last()
    &&& forall|index: u32| #[trigger]
        provider.states.contains_key(index) ==> provider.states[index].0 <= index
            && provider.states[index] == run_to(
            provider,
            lines,
            provider.states[index].0,
            index,
        ).0.states[index]
}

/// The provider after a row of requests, each answered with the lines of the
/// chunk that it asks for.
pub open spec fn served(
    provider: ProviderView,
    requests: Seq<(Option<u32>, u32)>,
    lines: spec_fn(u32) -> Seq<Option<ShapedLineView>>,
) -> ProviderView
    decreases requests.len(),
{
    if requests.len() == 0 {
        provider
    } else {
        served(provider, requests.drop_last(), lines).get_chunk(
            lines(requests.last().1),
            requests.last().0,
            requests.last().1,
        ).0
    }
}

/// A provider that has made nothing has nothing to account for.
pub proof fn lemma_emptied_is_accounted(
    provider: ProviderView,
    lines: spec_fn(u32) -> Seq<Option<ShapedLineView>>,
)
    ensures
        accounted(emptied(provider), lines),
{
}

/// A request that is answered with the lines of its chunk leaves every chunk
/// and every state of the provider accounted for.
pub proof fn lemma_request_keeps_account(
    provider: ProviderView,
    lines: spec_fn(u32) -> Seq<Option<ShapedLineView>>,
    hint: Option<u32>,
    index: u32,
)
    requires
        accounted(provider, lines),
    ensures
        accounted(provider.get_chunk(lines(index), hint, index).0, lines),
{
    let (after, chunk) = provider.get_chunk(lines(index), hint, index);
    let bare = emptied(provider);
    assert(emptied(after) == bare);
    if !provider.hit(hint, index) {
        let base = provider.seed(index).0;
        assert(base <= index);
        let count = (index - base) as nat;
        let shorter = batches_of(lines, base, count);
        let longer = batches_of(lines, base, count + 1);
        assert(longer.drop_last() =~= shorter);
        assert(longer.last() == lines(index));
        lemma_replay(bare, base, shorter);
        lemma_replay(bare, base, longer);
        let (before, chunks) = replay(bare, base, shorter);
        assert(!before.hit(Some(base), index));
        if base < index {
            assert(provider.states.contains_key((index - 1) as u32));
            assert(shorter =~= batches_of(lines, base, ((index - 1) - base + 1) as nat));
            assert(provider.states[(index - 1) as u32] == before.states[(index - 1) as u32]);
        }
        assert(provider.seed(index) == before.seed(index));
        assert(provider.inputs(index, lines(index)) == before.inputs(index, lines(index)));
        assert(chunk == before.get_chunk(lines(index), Some(base), index).1);
        assert(run_to(after, lines, base, index).1.last() == chunk);
        assert(after.states[index] == run_to(after, lines, base, index).0.states[index]);
        assert forall|other: u32| #[trigger] after.chunks.contains_key(other) implies after.chunks[other].base_state_index
            <= other && after.chunks[other] == run_to(
            after,
            lines,
            after.chunks[other].base_state_index,
            other,
        ).1.last() by {
            if other != index {
                assert(provider.chunks.contains_key(other));
            }
        }
        assert forall|other: u32| #[trigger] after.states.contains_key(other) implies after.states[other].0
            <= other && after.states[other] == run_to(
            after,
            lines,
            after.states[other].0,
            other,
        ).0.states[other] by {
            if other != index {
                assert(provider.states.contains_key(other));
            }
        }
    }
}

/// Whatever a provider was asked since it had made nothing, as long as each
/// request was answered with the lines of its chunk, every chunk and every
/// state that it holds is accounted for.
pub proof fn lemma_served_is_accounted(
    provider: ProviderView,
    requests: Seq<(Option<u32>, u32)>,
    lines: spec_fn(u32) -> Seq<Option<ShapedLineView>>,
)
    requires
        accounted(provider, lines),
    ensures
        accounted(served(provider, requests, lines), lines),
    decreases requests.len(),
{
    if requests.len() > 0 {
        lemma_served_is_accounted(provider, requests.drop_last(), lines);
        lemma_request_keeps_account(
            served(provider, requests.drop_last(), lines),
            lines,
            requests.last().0,
            requests.last().1,
        );
    }
}

/// A run is the beginning of every longer run from the same base.
proof fn lemma_run_prefix(provider: ProviderView, first: u32, batches: Seq<Seq<Option<ShapedLineView>>>, n: int)
    requires
        0 <= n <= batches.len(),
    ensures
        replay(provider, first, batches).1.len() == batches.len(),
        replay(provider, first, batches.take(n)).1 == replay(provider, first, batches).1.take(n),
    decreases batches.len(),
{
    if batches.len() == 0 {
        assert(batches.take(n) =~= batches);
        assert(replay(provider, first, batches).1.take(n) =~= replay(provider, first, batches).1);
    } else if n == batches.len() {
        lemma_run_prefix(provider, first, batches.drop_last(), n - 1);
        assert(batches.take(n) =~= batches);
        assert(replay(provider, first, batches).1.take(n) =~= replay(provider, first, batches).1);
    } else {
        lemma_run_prefix(provider, first, batches.drop_last(), n);
        assert(batches.drop_last().take(n) =~= batches.take(n));
        assert(replay(provider, first, batches).1.take(n) =~= replay(
            provider,
            first,
            batches.drop_last(),
        ).1.take(n));
    }
}

/// State continuity, of every provider whose chunks are accounted for. A
/// chunk that the provider holds, with base `b` and index `k`, closes a run of
/// the chunks `b` to `k`. The chunks of that run bear the base `b`, and they
/// report exactly what one layout of all their lines from a fresh state gives:
/// the same items in the same lanes, and the same lines left out. Every chunk
/// between `b` and `k` that the provider holds with the same base is the chunk
/// of that run.
pub proof fn lemma_state_continuity(
    provider: ProviderView,
    lines: spec_fn(u32) -> Seq<Option<ShapedLineView>>,
    index: u32,
    between: u32,
)
    requires
        accounted(provider, lines),
        provider.chunks.contains_key(index),
    ensures
        ({
            let base = provider.chunks[index].base_state_index;
            let batches = batches_of(lines, base, (index - base + 1) as nat);
            let run = run_to(provider, lines, base, index).1;
            &&& base <= index
            &&& run.len() == index - base + 1
            &&& run.last() == provider.chunks[index]
            &&& forall|i: int|
                0 <= i < run.len() ==> (#[trigger] run[i]).base_state_index == base && run[i].index
                    == base + i
            &&& joined_items(run) == arrange(
                provider.fresh(),
                joined_inputs(emptied(provider), base, batches),
            ).1
            &&& base <= between <= index && provider.chunks.contains_key(between)
                && provider.chunks[between].base_state_index == base ==> provider.chunks[between]
                == run[between - base]
        }),
{
    let base = provider.chunks[index].base_state_index;
    let bare = emptied(provider);
    let batches = batches_of(lines, base, (index - base + 1) as nat);
    lemma_replay_continuity(bare, base, batches);
    if base <= between <= index && provider.chunks.contains_key(between) && provider.chunks[between].base_state_index
        == base {
        let n = between - base + 1;
        lemma_run_prefix(bare, base, batches, n);
        assert(batches.take(n) =~= batches_of(lines, base, n as nat));
        let run = replay(bare, base, batches).1;
        assert(run.take(n).last() == run[between - base]);
    }
}

/// Every line that is laid out belongs to one of the comments, and the
/// lines come in the order of the comments.
proof fn lemma_laid_out(comments: Seq<Danmaku>, shaped: Seq<Option<ShapedLineView>>)
    requires
        comments_ordered(comments),
    ensures
        time_ordered(items_of(laid_out(comments, shaped))),
        forall|i: int|
            0 <= i < laid_out(comments, shaped).len() ==> exists|k: int|
                0 <= k < comments.len() && comments[k].time == (#[trigger] laid_out(
                    comments,
                    shaped,
                )[i]).time,
    decreases comments.len(),
{
    let lines = laid_out(comments, shaped);
    if comments.len() > 0 {
        let shorter = comments.drop_last();
        lemma_laid_out(shorter, shaped);
        let before = laid_out(shorter, shaped);
        assert forall|i: int| 0 <= i < before.len() implies (#[trigger] before[i]).time@
            <= comments.last().time@ && exists|k: int|
            0 <= k < comments.len() && comments[k].time == before[i].time by {
            let k = choose|k: int| 0 <= k < shorter.len() && shorter[k].time == before[i].time;
            assert(comments[k] == shorter[k]);
        }
        assert forall|i: int| 0 <= i < lines.len() implies exists|k: int|
            0 <= k < comments.len() && comments[k].time == (#[trigger] lines[i]).time by {
            if i < before.len() {
                assert(lines[i] == before[i]);
            } else {
                assert(comments[comments.len() - 1].time == lines[i].time);
            }
        }
        assert forall|a: int, b: int| 0 <= a <= b < items_of(lines).len() implies items_of(lines)[a].time@
            <= items_of(lines)[b].time@ by {
            if b < before.len() {
                assert(items_of(before)[a] == items_of(lines)[a]);
                assert(items_of(before)[b] == items_of(lines)[b]);
            } else if a < before.len() {
                assert(lines[a] == before[a]);
            }
        }
    } else {
        assert(items_of(lines) =~= Seq::<DanmakuItem>::empty());
    }
}

/// What enters the layout of a chunk comes in the order of its timestamps,
/// and bears timestamps of the chunk.
pub proof fn lemma_inputs_ordered(provider: ProviderView, index: u32, shaped: Seq<Option<ShapedLineView>>)
    requires
        comments_ordered(provider.comments),
    ensures
        time_ordered(items_of(provider.inputs(index, shaped))),
        forall|i: int|
            0 <= i < provider.inputs(index, shaped).len() ==> in_chunk(
                (#[trigger] provider.inputs(index, shaped)[i]).time,
                index,
                provider.lifetime,
            ),
{
    let wanted = |item: Danmaku| in_chunk(item.time, index, provider.lifetime);
    let comments = chunk_comments(provider.comments, index, provider.lifetime);
    lemma_filter_keeps_order(provider.comments, wanted);
    lemma_laid_out(comments, shaped);
    let lines = provider.inputs(index, shaped);
    assert forall|i: int| 0 <= i < lines.len() implies in_chunk(
        (#[trigger] lines[i]).time,
        index,
        provider.lifetime,
    ) by {
        let k = choose|k: int| 0 <= k < comments.len() && comments[k].time == lines[i].time;
        provider.comments.lemma_filter_pred(wanted, k);
    }
}

/// What enters the layout of a run of chunks comes in the order of its
/// timestamps, and none of it lies past the last chunk of the run.
proof fn lemma_joined_inputs_ordered(
    provider: ProviderView,
    first: u32,
    batches: Seq<Seq<Option<ShapedLineView>>>,
)
    requires
        comments_ordered(provider.comments),
        first + batches.len() <= u32::MAX + 1,
    ensures
        time_ordered(items_of(joined_inputs(provider, first, batches))),
        forall|i: int|
            0 <= i < joined_inputs(provider, first, batches).len() ==> (#[trigger] joined_inputs(
                provider,
                first,
                batches,
            )[i]).time@ < (first + batches.len()) * provider.lifetime,
    decreases batches.len(),
{
    let all = joined_inputs(provider, first, batches);
    if batches.len() == 0 {
        assert(items_of(all) =~= Seq::<DanmakuItem>::empty());
    } else {
        let shorter = batches.drop_last();
        let index = (first + batches.len() - 1) as u32;
        lemma_joined_inputs_ordered(provider, first, shorter);
        lemma_inputs_ordered(provider, index, batches.last());
        let before = joined_inputs(provider, first, shorter);
        let last = provider.inputs(index, batches.last());
        let life = provider.lifetime as int;
        assert((first + shorter.len()) * life == index * life);
        assert((index + 1) * life == (first + batches.len()) * life);
        assert(index * life <= (index + 1) * life) by (nonlinear_arith)
            requires
                life >= 0,
        ;
        assert forall|i: int| 0 <= i < all.len() implies (#[trigger] all[i]).time@ < (first
            + batches.len()) * provider.lifetime by {
            if i < before.len() {
                assert(all[i] == before[i]);
            } else {
                assert(all[i] == last[i - before.len()]);
            }
        }
        assert forall|a: int, b: int| 0 <= a <= b < items_of(all).len() implies items_of(all)[a].time@
            <= items_of(all)[b].time@ by {
            if b < before.len() {
                assert(items_of(before)[a] == items_of(all)[a]);
                assert(items_of(before)[b] == items_of(all)[b]);
            } else if a < before.len() {
                assert(all[a] == before[a]);
                assert(all[b] == last[b - before.len()]);
            } else {
                assert(items_of(last)[a - before.len()] == items_of(all)[a]);
                assert(items_of(last)[b - before.len()] == items_of(all)[b]);
            }
        }
    }
}

/// Each item that was given a lane is one of the lines, with the lane that
/// the line was given; and the items come in the order of the lines.
proof fn lemma_placed_of(lines: Seq<LaidOut>, lanes: Seq<Option<DanmakuPosition>>)
    ensures
        forall|p: int|
            0 <= p < placed_of(lines, lanes).len() ==> exists|i: int|
                0 <= i < lines.len() && lanes[i] == Some((#[trigger] placed_of(lines, lanes)[p]).position)
                    && lines[i] == placed_of(lines, lanes)[p].item,
        forall|p: int, q: int|
            0 <= p < q < placed_of(lines, lanes).len() ==> exists|i: int, j: int|
                0 <= i < j < lines.len() && lanes[i] == Some(
                    (#[trigger] placed_of(lines, lanes)[p]).position,
                ) && lines[i] == placed_of(lines, lanes)[p].item && lanes[j] == Some(
                    (#[trigger] placed_of(lines, lanes)[q]).position,
                ) && lines[j] == placed_of(lines, lanes)[q].item,
    decreases lines.len(),
{
    let placed = placed_of(lines, lanes);
    if lines.len() > 0 {
        let shorter = lines.drop_last();
        let before = placed_of(shorter, lanes);
        let n = lines.len() - 1;
        lemma_placed_of(shorter, lanes);
        assert forall|p: int| 0 <= p < placed.len() implies exists|i: int|
            0 <= i < lines.len() && lanes[i] == Some((#[trigger] placed[p]).position) && lines[i]
                == placed[p].item by {
            if p < before.len() {
                assert(placed[p] == before[p]);
                let i = choose|i: int|
                    0 <= i < shorter.len() && lanes[i] == Some(before[p].position) && shorter[i]
                        == before[p].item;
                assert(lines[i] == shorter[i]);
            } else {
                assert(lines[n] == placed[p].item);
            }
        }
        assert forall|p: int, q: int| 0 <= p < q < placed.len() implies exists|i: int, j: int|
            0 <= i < j < lines.len() && lanes[i] == Some((#[trigger] placed[p]).position)
                && lines[i] == placed[p].item && lanes[j] == Some((#[trigger] placed[q]).position)
                && lines[j] == placed[q].item by {
            assert(placed[p] == before[p]);
            if q < before.len() {
                assert(placed[q] == before[q]);
                let (i, j) = choose|i: int, j: int|
                    0 <= i < j < shorter.len() && lanes[i] == Some(before[p].position) && shorter[i]
                        == before[p].item && lanes[j] == Some(before[q].position) && shorter[j]
                        == before[q].item;
                assert(lines[i] == shorter[i] && lines[j] == shorter[j]);
            } else {
                let i = choose|i: int|
                    0 <= i < shorter.len() && lanes[i] == Some(before[p].position) && shorter[i]
                        == before[p].item;
                assert(lines[i] == shorter[i]);
                assert(lines[n] == placed[q].item);
            }
        }
    }
}

/// The chunks of a run show no overlap. When the provider rejects what does
/// not fit and its source is ordered, then in a run of chunks that is made one
/// after the other from a chunk at which the layout starts afresh, any two
/// items with the same scroll lane share no pixel at any time at which both
/// are on screen.
pub proof fn lemma_run_of_chunks_never_overlaps(
    provider: ProviderView,
    first: u32,
    batches: Seq<Seq<Option<ShapedLineView>>>,
    p: int,
    q: int,
    lane: usize,
    t: int,
)
    requires
        provider.layout_mode is NoOverlap,
        comments_ordered(provider.comments),
        scroll_lanes(provider.layout_mode, provider.screen_size.1, provider.line_height)
            <= usize::MAX,
        first + batches.len() <= u32::MAX + 1,
        first == 0 || !provider.states.contains_key((first - 1) as u32),
        forall|index: u32| first <= index < first + batches.len() ==> !provider.hit(Some(first), index),
        0 <= p < q < joined_items(replay(provider, first, batches).1).len(),
        joined_items(replay(provider, first, batches).1)[p].position == DanmakuPosition::Scroll(lane),
        joined_items(replay(provider, first, batches).1)[q].position == DanmakuPosition::Scroll(lane),
        joined_items(replay(provider, first, batches).1)[q].item.time@ <= t <= joined_items(
            replay(provider, first, batches).1,
        )[p].item.time@ + provider.lifetime,
    ensures
        !boxes_meet(
            joined_items(replay(provider, first, batches).1)[p].item.item(),
            joined_items(replay(provider, first, batches).1)[q].item.item(),
            provider.screen_size.0 as nat,
            provider.lifetime,
            t,
        ),
{
    let placed = joined_items(replay(provider, first, batches).1);
    let lines = joined_inputs(provider, first, batches);
    let start = provider.fresh();
    lemma_replay_continuity(provider, first, batches);
    lemma_arrange_is_run(start, lines);
    lemma_joined_inputs_ordered(provider, first, batches);
    let lanes = start.placements(items_of(lines));
    lemma_placed_of(lines, lanes);
    let (i, j) = choose|i: int, j: int|
        0 <= i < j < lines.len() && lanes[i] == Some(placed[p].position) && lines[i] == placed[p].item
            && lanes[j] == Some(placed[q].position) && lines[j] == placed[q].item;
    assert(items_of(lines)[i] == placed[p].item.item());
    assert(items_of(lines)[j] == placed[q].item.item());
    lemma_scroll_lane_never_overlaps(start, items_of(lines), i, j, lane, t);
}

} // verus!
