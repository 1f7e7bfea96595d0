//! Cuts the timeline into chunks of one lifetime and lays each chunk out.

use crate::danmaku::{duration_millis, Danmaku, DanmakuColor, DanmakuSize, DanmakuTime, DanmakuType};
use crate::layout::{
    scroll_lanes, DanmakuItem, DanmakuPosition, DanmakuTrackState, LayoutMode, TrackLayout,
};
use crate::sources::filtered::lemma_filter_step;
use crate::sources::{borrowed, comments_ordered, DanmakuSource};
use crate::store::{add_glyph_id, entry_at, keep_entry, share, take_entry};
use std::collections::{BTreeMap, BTreeSet};
use std::sync::Arc;
use std::time::Duration;
use vstd::prelude::*;
use vstd::std_specs::convert::FromSpecImpl;

verus! {

/// One glyph of a shaped line: which glyph it is, and where it sits relative
/// to the line's origin on the baseline, in whole pixels.
#[derive(PartialEq, Eq, Structural, Clone, Copy, Debug)]
pub struct PhysicalGlyph {
    pub cache_key: u64,
    pub x: i32,
    pub y: i32,
}

/// The measures of a shaped line, in whole pixels.
#[derive(PartialEq, Eq, Structural, Clone, Copy, Debug)]
pub struct LayoutLine {
    /// Width of the line, rounded up.
    pub w: u32,
    /// How far the line reaches below its baseline.
    pub max_descent: i32,
}

/// What shaping a comment's text into a single unwrapped line gives.
#[derive(Debug)]
pub struct ShapedLine {
    pub layout_line: LayoutLine,
    pub physical_glyphs: Vec<PhysicalGlyph>,
}

pub ghost struct ShapedLineView {
    pub layout_line: LayoutLine,
    pub physical_glyphs: Seq<PhysicalGlyph>,
}

impl View for ShapedLine {
    type V = ShapedLineView;

    open spec fn view(&self) -> ShapedLineView {
        ShapedLineView { layout_line: self.layout_line, physical_glyphs: self.physical_glyphs@ }
    }
}

/// The lines handed in for a chunk, one for each comment; `None` where
/// shaping gave no line.
pub open spec fn lines_view(shaped: Seq<Option<ShapedLine>>) -> Seq<Option<ShapedLineView>> {
    shaped.map_values(
        |line: Option<ShapedLine>|
            match line {
                Some(line) => Some(line@),
                None => None,
            },
    )
}

/// A comment together with its shaped line.
#[derive(Debug)]
pub struct LayoutedDanmakuItem {
    pub layout_line: LayoutLine,
    pub physical_glyphs: Vec<PhysicalGlyph>,
    pub time: DanmakuTime,
    pub color: DanmakuColor,
    pub kind: DanmakuType,
    pub size: DanmakuSize,
}

pub ghost struct LaidOut {
    pub layout_line: LayoutLine,
    pub physical_glyphs: Seq<PhysicalGlyph>,
    pub time: DanmakuTime,
    pub color: DanmakuColor,
    pub kind: DanmakuType,
    pub size: DanmakuSize,
}

impl LaidOut {
    pub open spec fn of(danmaku: Danmaku, line: ShapedLineView) -> LaidOut {
        LaidOut {
            layout_line: line.layout_line,
            physical_glyphs: line.physical_glyphs,
            time: danmaku.time,
            color: danmaku.color,
            kind: danmaku.kind,
            size: danmaku.size,
        }
    }

    /// What the layout engine is told of the line.
    pub open spec fn item(self) -> DanmakuItem {
        DanmakuItem { width: self.layout_line.w, time: self.time, kind: self.kind }
    }
}

impl View for LayoutedDanmakuItem {
    type V = LaidOut;

    open spec fn view(&self) -> LaidOut {
        LaidOut {
            layout_line: self.layout_line,
            physical_glyphs: self.physical_glyphs@,
            time: self.time,
            color: self.color,
            kind: self.kind,
            size: self.size,
        }
    }
}

impl LayoutedDanmakuItem {
    /// Joins a comment and the line its text was shaped into.
    pub fn new(line: ShapedLine, danmaku: &Danmaku) -> (item: Self)
        ensures
            item@ == LaidOut::of(*danmaku, line@),
    {
        LayoutedDanmakuItem {
            layout_line: line.layout_line,
            physical_glyphs: line.physical_glyphs,
            time: danmaku.time,
            color: danmaku.color,
            kind: danmaku.kind,
            size: danmaku.size,
        }
    }

    pub fn width(&self) -> (w: u32)
        ensures
            w == self@.layout_line.w,
    {
        self.layout_line.w
    }
}

impl<'a> FromSpecImpl<&'a LayoutedDanmakuItem> for DanmakuItem {
    open spec fn obeys_from_spec() -> bool {
        true
    }

    open spec fn from_spec(value: &'a LayoutedDanmakuItem) -> DanmakuItem {
        value@.item()
    }
}

impl<'a> From<&'a LayoutedDanmakuItem> for DanmakuItem {
    fn from(value: &'a LayoutedDanmakuItem) -> (item: DanmakuItem) {
        DanmakuItem { width: value.width(), time: value.time, kind: value.kind }
    }
}

/// A laid-out comment and the lane it was given.
#[derive(Debug)]
pub struct PositionedDanmakuItem {
    pub item: LayoutedDanmakuItem,
    pub position: DanmakuPosition,
}

pub ghost struct Placed {
    pub item: LaidOut,
    pub position: DanmakuPosition,
}

impl View for PositionedDanmakuItem {
    type V = Placed;

    open spec fn view(&self) -> Placed {
        Placed { item: self.item@, position: self.position }
    }
}

/// The comments of one stretch of the timeline, laid out.
#[derive(Debug)]
pub struct DanmakuTimeChunk {
    pub base_state_index: u32,
    pub index: u32,
    pub items: Vec<PositionedDanmakuItem>,
    glyph_ids: BTreeSet<u64>,
}

pub ghost struct ChunkView {
    /// The chunk at which the layout state that produced this chunk was started afresh.
    pub base_state_index: u32,
    pub index: u32,
    pub items: Seq<Placed>,
    pub glyph_ids: Set<u64>,
}

/// The glyphs that a line refers to.
pub open spec fn line_glyph_ids(glyphs: Seq<PhysicalGlyph>) -> Set<u64>
    decreases glyphs.len(),
{
    if glyphs.len() == 0 {
        Set::empty()
    } else {
        line_glyph_ids(glyphs.drop_last()).insert(glyphs.last().cache_key)
    }
}

/// The glyphs that any of the items refers to.
pub open spec fn glyph_ids_of(items: Seq<Placed>) -> Set<u64>
    decreases items.len(),
{
    if items.len() == 0 {
        Set::empty()
    } else {
        glyph_ids_of(items.drop_last()).union(line_glyph_ids(items.last().item.physical_glyphs))
    }
}

/// Whether a timestamp falls into chunk `index` of a timeline cut every
/// `lifetime` milliseconds.
pub open spec fn in_chunk(time: DanmakuTime, index: u32, lifetime: nat) -> bool {
    index * lifetime <= time@ < (index + 1) * lifetime
}

/// The comments of chunk `index`.
pub open spec fn chunk_comments(comments: Seq<Danmaku>, index: u32, lifetime: nat) -> Seq<Danmaku> {
    comments.filter(|item: Danmaku| in_chunk(item.time, index, lifetime))
}

/// The comments with the lines they were shaped into, in order. A comment
/// without a line, whether shaping gave none or none was handed in, is left out.
pub open spec fn laid_out(comments: Seq<Danmaku>, shaped: Seq<Option<ShapedLineView>>) -> Seq<LaidOut>
    decreases comments.len(),
{
    if comments.len() == 0 {
        Seq::empty()
    } else {
        let before = laid_out(comments.drop_last(), shaped);
        let at = comments.len() - 1;
        if at < shaped.len() && shaped[at] is Some {
            before.push(LaidOut::of(comments.last(), shaped[at].unwrap()))
        } else {
            before
        }
    }
}

/// Runs `lines` through the layout engine: the state it ends in, and the
/// lines that were given a lane, each with its lane.
pub open spec fn arrange(start: TrackLayout, lines: Seq<LaidOut>) -> (TrackLayout, Seq<Placed>)
    decreases lines.len(),
{
    if lines.len() == 0 {
        (start, Seq::empty())
    } else {
        let (state, placed) = arrange(start, lines.drop_last());
        let (next, position) = state.insert(lines.last().item());
        (
            next,
            match position {
                Some(position) => placed.push(Placed { item: lines.last(), position }),
                None => placed,
            },
        )
    }
}

impl View for DanmakuTimeChunk {
    type V = ChunkView;

    closed spec fn view(&self) -> ChunkView {
        ChunkView {
            base_state_index: self.base_state_index,
            index: self.index,
            items: self.items@.map_values(|item: PositionedDanmakuItem| item@),
            glyph_ids: self.glyph_ids@,
        }
    }
}

impl DanmakuTimeChunk {
    /// The glyphs that the chunk's items refer to, each once.
    pub fn glyph_ids(&self) -> (ids: &BTreeSet<u64>)
        ensures
            ids@ == self@.glyph_ids,
    {
        &self.glyph_ids
    }

    pub fn index(&self) -> (index: u32)
        ensures
            index == self@.index,
    {
        self.index
    }

    pub fn base_state_index(&self) -> (index: u32)
        ensures
            index == self@.base_state_index,
    {
        self.base_state_index
    }

    /// The items of the chunk, in the order of their timestamps.
    pub fn items(&self) -> (items: &Vec<PositionedDanmakuItem>)
        ensures
            items@.map_values(|item: PositionedDanmakuItem| item@) == self@.items,
    {
        &self.items
    }
}

/// What a provider holds, seen as plain values.
pub ghost struct ProviderView {
    pub lifetime: nat,
    pub screen_size: (u32, u32),
    pub line_height: u32,
    pub layout_mode: LayoutMode,
    /// The comments of the source.
    pub comments: Seq<Danmaku>,
    /// For a chunk index, the layout state that the chunk left behind and the
    /// index at which that state was started afresh.
    pub states: Map<u32, (u32, TrackLayout)>,
    pub chunks: Map<u32, ChunkView>,
}

impl ProviderView {
    /// A layout state that nothing was placed in.
    pub open spec fn fresh(self) -> TrackLayout {
        TrackLayout::fresh(self.layout_mode, self.screen_size, self.line_height, self.lifetime)
    }

    /// The chunks and the saved states go together: each chunk is held under
    /// its own index and was started at or before it, and a state that is
    /// saved is the state that the chunk of its index left behind.
    pub open spec fn coherent(self) -> bool {
        &&& forall|index: u32| #[trigger]
            self.chunks.contains_key(index) ==> self.chunks[index].index == index
                && self.chunks[index].base_state_index <= index
        &&& forall|index: u32| #[trigger]
            self.states.contains_key(index) ==> self.chunks.contains_key(index)
                && self.chunks[index].base_state_index == self.states[index].0
    }

    /// Whether the request is answered from the chunks already made: there
    /// is one at `index`, and the hint, if given, names the start of its state.
    pub open spec fn hit(self, hint: Option<u32>, index: u32) -> bool {
        self.chunks.contains_key(index) && match hint {
            Some(hint) => self.chunks[index].base_state_index == hint,
            None => true,
        }
    }

    /// Where the layout of chunk `index` starts: at the state that the chunk
    /// before it left behind, or afresh.
    pub open spec fn seed(self, index: u32) -> (u32, TrackLayout) {
        if index != 0 && self.states.contains_key((index - 1) as u32) {
            self.states[(index - 1) as u32]
        } else {
            (index, self.fresh())
        }
    }

    /// The lines that enter the layout of chunk `index`.
    pub open spec fn inputs(self, index: u32, shaped: Seq<Option<ShapedLineView>>) -> Seq<LaidOut> {
        laid_out(chunk_comments(self.comments, index, self.lifetime), shaped)
    }

    /// Chunk `index` as it is made from the lines in `shaped`.
    pub open spec fn generate(self, index: u32, shaped: Seq<Option<ShapedLineView>>) -> ChunkView {
        let items = arrange(self.seed(index).1, self.inputs(index, shaped)).1;
        ChunkView {
            base_state_index: self.seed(index).0,
            index,
            items,
            glyph_ids: glyph_ids_of(items),
        }
    }

    /// The provider after a request, and the chunk that answers it.
    pub open spec fn get_chunk(self, shaped: Seq<Option<ShapedLineView>>, hint: Option<u32>, index: u32) -> (
        ProviderView,
        ChunkView,
    ) {
        if self.hit(hint, index) {
            (self, self.chunks[index])
        } else {
            let chunk = self.generate(index, shaped);
            let state = arrange(self.seed(index).1, self.inputs(index, shaped)).0;
            let states = if index != 0 {
                self.states.remove((index - 1) as u32)
            } else {
                self.states
            };
            (
                ProviderView {
                    states: states.insert(index, (chunk.base_state_index, state)),
                    chunks: self.chunks.insert(index, chunk),
                    ..self
                },
                chunk,
            )
        }
    }
}

/// Every item of the chunk bears a timestamp of the chunk's own stretch.
pub open spec fn chunk_covered(chunk: ChunkView, lifetime: nat) -> bool {
    forall|i: int|
        0 <= i < chunk.items.len() ==> in_chunk((#[trigger] chunk.items[i]).item.time, chunk.index, lifetime)
}

/// Makes chunks on request and remembers them, and the layout state that each
/// left behind, so that the chunk after it can go on from there.
pub struct DanmakuTimeChunkProvider<Source: DanmakuSource> {
    lifetime: Duration,
    lifetime_millis: u128,
    screen_size: (u32, u32),
    line_height: u32,
    layout_mode: LayoutMode,
    source: Source,
    states: BTreeMap<u32, (u32, DanmakuTrackState)>,
    chunks: BTreeMap<u32, Arc<DanmakuTimeChunk>>,
}

impl<Source: DanmakuSource> View for DanmakuTimeChunkProvider<Source> {
    type V = ProviderView;

    closed spec fn view(&self) -> ProviderView {
        ProviderView {
            lifetime: self.lifetime_millis as nat,
            screen_size: self.screen_size,
            line_height: self.line_height,
            layout_mode: self.layout_mode,
            comments: self.source.comments(),
            states: Map::new(
                |index: u32| self.states@.contains_key(index),
                |index: u32| (self.states@[index].0, self.states@[index].1@),
            ),
            chunks: Map::new(
                |index: u32| self.chunks@.contains_key(index),
                |index: u32| (*self.chunks@[index])@,
            ),
        }
    }
}

/// Two tests that agree on every comment pick the same comments.
proof fn lemma_same_filter(items: Seq<Danmaku>, first: spec_fn(Danmaku) -> bool, second: spec_fn(Danmaku) -> bool)
    requires
        forall|item: Danmaku| #[trigger] first(item) == second(item),
    ensures
        items.filter(first) == items.filter(second),
    decreases items.len(),
{
    reveal(Seq::filter);
    if items.len() > 0 {
        lemma_same_filter(items.drop_last(), first, second);
    }
}

/// A vector turned end for end.
pub(crate) fn reversed<T>(items: Vec<T>) -> (turned: Vec<T>)
    ensures
        turned@ == items@.reverse(),
{
    let mut items = items;
    let ghost whole = items@;
    let mut turned: Vec<T> = Vec::new();
    while items.len() > 0
        invariant
            items@.len() <= whole.len(),
            items@ == whole.take(items@.len() as int),
            turned@.len() == whole.len() - items@.len(),
            forall|i: int| 0 <= i < turned@.len() ==> turned@[i] == whole[whole.len() - 1 - i],
        decreases items@.len(),
    {
        let item = items.pop().unwrap();
        turned.push(item);
    }
    assert(turned@ =~= whole.reverse());
    turned
}

impl<Source: DanmakuSource> DanmakuTimeChunkProvider<Source> {
    /// The saved states are sound and belong to this provider's screen, and
    /// each chunk is held under its own index and covers its own stretch.
    pub closed spec fn wf(&self) -> bool {
        &&& self.line_height > 0
        &&& self.lifetime_millis == duration_millis(self.lifetime)
        &&& scroll_lanes(self.layout_mode, self.screen_size.1, self.line_height) <= usize::MAX
        &&& forall|index: u32| #[trigger]
            self.states@.contains_key(index) ==> {
                &&& self.states@[index].1.wf()
                &&& self.states@[index].0 <= index
                &&& self.chunks@.contains_key(index)
                &&& self.chunks@[index].base_state_index == self.states@[index].0
            }
        &&& forall|index: u32| #[trigger]
            self.chunks@.contains_key(index) ==> {
                &&& self.chunks@[index].index == index
                &&& self.chunks@[index].base_state_index <= index
                &&& chunk_covered((*self.chunks@[index])@, self.lifetime_millis as nat)
                &&& (*self.chunks@[index])@.glyph_ids == glyph_ids_of((*self.chunks@[index])@.items)
            }
    }

    pub fn new(
        lifetime: Duration,
        screen_size: (u32, u32),
        line_height: u32,
        layout_mode: LayoutMode,
        source: Source,
    ) -> (provider: Self)
        requires
            line_height > 0,
            scroll_lanes(layout_mode, screen_size.1, line_height) <= usize::MAX,
        ensures
            provider.wf(),
            provider@ == (ProviderView {
                lifetime: duration_millis(lifetime),
                screen_size,
                line_height,
                layout_mode,
                comments: source.comments(),
                states: Map::empty(),
                chunks: Map::empty(),
            }),
    {
        let provider = DanmakuTimeChunkProvider {
            lifetime,
            lifetime_millis: lifetime.as_millis(),
            screen_size,
            line_height,
            layout_mode,
            source,
            states: BTreeMap::new(),
            chunks: BTreeMap::new(),
        };
        assert(provider@.states =~= Map::empty());
        assert(provider@.chunks =~= Map::empty());
        provider
    }

    /// Gives the source back.
    pub fn source(self) -> (source: Source)
        ensures
            source.comments() == self@.comments,
    {
        self.source
    }

    /// The lifetime of a comment, which is the length of a chunk.
    pub fn lifetime(&self) -> (lifetime: Duration)
        requires
            self.wf(),
        ensures
            duration_millis(lifetime) == self@.lifetime,
    {
        self.lifetime
    }

    /// The comments of chunk `index`: those with
    /// `index * lifetime <= time < (index + 1) * lifetime`.
    pub fn chunk_comments(&self, index: u32) -> (found: Vec<&Danmaku>)
        requires
            self.wf(),
        ensures
            borrowed(found@) == chunk_comments(self@.comments, index, self@.lifetime),
            comments_ordered(self@.comments),
    {
        let ghost all = self.source.comments();
        let ghost life = self.lifetime_millis as nat;
        let ghost wanted = |item: Danmaku| in_chunk(item.time, index, life);
        let first: u128 = match (index as u128).checked_mul(self.lifetime_millis) {
            Some(first) => first,
            None => 0x1_0000_0000,
        };
        if first > 0xFFFF_FFFF {
            // The chunk begins past the last timestamp there is.
            let found: Vec<&Danmaku> = self.source.get_range(DanmakuTime::from_millis(0), DanmakuTime::from_millis(0));
            proof {
                lemma_same_filter(all, wanted, |item: Danmaku| 0 <= item.time@ < 0);
            }
            return found;
        }
        assert((index + 1) * life == index * life + life) by (nonlinear_arith);
        let start = DanmakuTime::from_millis(first as u32);
        let fits: bool = match first.checked_add(self.lifetime_millis) {
            Some(end) => end <= 0xFFFF_FFFF,
            None => false,
        };
        if fits {
            let end = DanmakuTime::from_millis((first + self.lifetime_millis) as u32);
            let found = self.source.get_range(start, end);
            proof {
                lemma_same_filter(all, wanted, |item: Danmaku| start@ <= item.time@ < end@);
            }
            found
        } else {
            // The chunk reaches past the last timestamp there is: it holds
            // whatever is not before its start.
            let every = self.source.get_all();
            let mut found: Vec<&Danmaku> = Vec::new();
            let mut i: usize = 0;
            assert(all.take(0) =~= Seq::<Danmaku>::empty());
            assert(borrowed(found@) =~= all.take(0).filter(wanted)) by {
                reveal(Seq::filter);
            }
            while i < every.len()
                invariant
                    i <= every@.len(),
                    borrowed(every@) == all,
                    borrowed(found@) == all.take(i as int).filter(wanted),
                    wanted == |item: Danmaku| in_chunk(item.time, index, life),
                    start@ == index * life,
                    (index + 1) * life > 0xFFFF_FFFF,
                decreases every@.len() - i,
            {
                let item: &Danmaku = every[i];
                proof {
                    lemma_filter_step(all, wanted, i as int);
                    assert(all[i as int] == *every@[i as int]);
                }
                let ghost before = borrowed(found@);
                if item.time.as_millis() >= start.as_millis() {
                    found.push(item);
                    assert(borrowed(found@) =~= before.push(*item));
                }
                i += 1;
            }
            assert(all.take(every@.len() as int) =~= all);
            found
        }
    }

    /// In a provider the chunks and the saved states go together.
    pub proof fn lemma_coherent(&self)
        requires
            self.wf(),
        ensures
            self@.coherent(),
    {
    }

    /// The chunk that answers a request without any work, if there is one.
    pub fn cached_chunk(&self, base_state_index: Option<u32>, index: u32) -> (chunk: Option<
        Arc<DanmakuTimeChunk>,
    >)
        requires
            self.wf(),
        ensures
            match chunk {
                Some(chunk) => self@.hit(base_state_index, index) && chunk@ == self@.chunks[index]
                    && chunk@.index == index && chunk_covered(chunk@, self@.lifetime)
                    && chunk@.glyph_ids == glyph_ids_of(chunk@.items),
                None => !self@.hit(base_state_index, index),
            },
    {
        if let Some(chunk) = entry_at(&self.chunks, index) {
            if let Some(base_state_index) = base_state_index {
                if chunk.base_state_index == base_state_index {
                    return Some(share(chunk));
                }
            } else {
                return Some(share(chunk));
            }
        }
        None
    }

    /// Lays the comments of chunk `index` out, going on from `base_state`.
    fn generate_chunk(
        &self,
        shaped: Vec<Option<ShapedLine>>,
        base_state_index: u32,
        base_state: &mut DanmakuTrackState,
        index: u32,
    ) -> (chunk: DanmakuTimeChunk)
        requires
            self.wf(),
            old(base_state).wf(),
        ensures
            final(base_state).wf(),
            (final(base_state)@, chunk@.items) == arrange(
                old(base_state)@,
                self@.inputs(index, lines_view(shaped@)),
            ),
            chunk@.base_state_index == base_state_index,
            chunk@.index == index,
            chunk@.glyph_ids == glyph_ids_of(chunk@.items),
            chunk_covered(chunk@, self@.lifetime),
    {
        let ghost start = base_state@;
        let ghost lines = lines_view(shaped@);
        let ghost life = self.lifetime_millis as nat;
        let comments = self.chunk_comments(index);
        let ghost wanted = borrowed(comments@);
        let mut pending = reversed(shaped);
        let mut items: Vec<PositionedDanmakuItem> = Vec::new();
        let mut glyph_ids: BTreeSet<u64> = BTreeSet::new();
        let mut i: usize = 0;
        assert(wanted.take(0) =~= Seq::<Danmaku>::empty());
        while i < comments.len()
            invariant
                i <= comments@.len(),
                wanted == borrowed(comments@),
                wanted == chunk_comments(self@.comments, index, life),
                lines == lines_view(shaped@),
                pending@.len() == if i <= shaped@.len() {
                    shaped@.len() - i
                } else {
                    0
                },
                forall|j: int| 0 <= j < pending@.len() ==> pending@[j] == shaped@[shaped@.len() - 1 - j],
                base_state.wf(),
                (base_state@, items@.map_values(|item: PositionedDanmakuItem| item@)) == arrange(
                    start,
                    laid_out(wanted.take(i as int), lines),
                ),
                glyph_ids@ == glyph_ids_of(items@.map_values(|item: PositionedDanmakuItem| item@)),
                forall|j: int| 0 <= j < items@.len() ==> in_chunk((#[trigger] items@[j]).item.time, index, life),
            decreases comments@.len() - i,
        {
            let danmaku: &Danmaku = comments[i];
            let ghost before = laid_out(wanted.take(i as int), lines);
            let ghost placed = items@.map_values(|item: PositionedDanmakuItem| item@);
            proof {
                assert(wanted.take(i + 1).drop_last() =~= wanted.take(i as int));
                assert(wanted.take(i + 1).last() == *danmaku);
                assert(self@.comments.filter(|item: Danmaku| in_chunk(item.time, index, life))
                    == wanted);
                assert(in_chunk(danmaku.time, index, life)) by {
                    self@.comments.lemma_filter_pred(
                        |item: Danmaku| in_chunk(item.time, index, life),
                        i as int,
                    );
                }
            }
            let line: Option<ShapedLine> = if pending.len() > 0 {
                pending.pop().unwrap()
            } else {
                None
            };
            assert(line is Some <==> i < lines.len() && lines[i as int] is Some);
            if let Some(line) = line {
                let layouted = LayoutedDanmakuItem::new(line, danmaku);
                let ghost entered = before.push(layouted@);
                proof {
                    assert(laid_out(wanted.take(i + 1), lines) == entered);
                    assert(entered.drop_last() =~= before);
                }
                if let Some(position) = base_state.insert(DanmakuItem::from(&layouted)) {
                    let mut j: usize = 0;
                    while j < layouted.physical_glyphs.len()
                        invariant
                            j <= layouted.physical_glyphs@.len(),
                            glyph_ids@ == glyph_ids_of(placed).union(
                                line_glyph_ids(layouted.physical_glyphs@.take(j as int)),
                            ),
                        decreases layouted.physical_glyphs@.len() - j,
                    {
                        proof {
                            let glyphs = layouted.physical_glyphs@;
                            assert(glyphs.take(j + 1).drop_last() =~= glyphs.take(j as int));
                        }
                        add_glyph_id(&mut glyph_ids, layouted.physical_glyphs[j].cache_key);
                        j += 1;
                        assert(glyph_ids@ =~= glyph_ids_of(placed).union(
                            line_glyph_ids(layouted.physical_glyphs@.take(j as int)),
                        ));
                    }
                    proof {
                        let glyphs = layouted.physical_glyphs@;
                        assert(glyphs.take(glyphs.len() as int) =~= glyphs);
                    }
                    let item = PositionedDanmakuItem { item: layouted, position };
                    let ghost added = item@;
                    items.push(item);
                    proof {
                        let now = items@.map_values(|item: PositionedDanmakuItem| item@);
                        assert(now =~= placed.push(added));
                        assert(now.drop_last() =~= placed);
                    }
                } else {
                    assert(glyph_ids@ =~= glyph_ids_of(placed).union(
                        line_glyph_ids(layouted.physical_glyphs@.take(0)),
                    )) by {
                        assert(layouted.physical_glyphs@.take(0) =~= Seq::<PhysicalGlyph>::empty());
                    }
                }
            } else {
                assert(laid_out(wanted.take(i + 1), lines) == before);
            }
            i += 1;
        }
        assert(wanted.take(comments@.len() as int) =~= wanted);
        let chunk = DanmakuTimeChunk { base_state_index, index, items, glyph_ids };
        assert forall|j: int| 0 <= j < chunk@.items.len() implies in_chunk(
            (#[trigger] chunk@.items[j]).item.time,
            index,
            life,
        ) by {
            assert(chunk@.items[j] == chunk.items@[j]@);
        }
        chunk
    }

    /// Answers a request for chunk `index`. `base_state_index` is the hint:
    /// the chunk at which the caller's run of chunks began. `shaped` holds,
    /// for each comment of the chunk in order, the line its text was shaped
    /// into; it is looked at only when the chunk has to be made.
    pub fn get_chunk(
        &mut self,
        shaped: Vec<Option<ShapedLine>>,
        base_state_index: Option<u32>,
        index: u32,
    ) -> (chunk: Arc<DanmakuTimeChunk>)
        requires
            old(self).wf(),
        ensures
            final(self).wf(),
            (final(self)@, chunk@) == old(self)@.get_chunk(
                lines_view(shaped@),
                base_state_index,
                index,
            ),
            chunk@.index == index,
            chunk@.base_state_index <= index,
            chunk_covered(chunk@, old(self)@.lifetime),
            chunk@.glyph_ids == glyph_ids_of(chunk@.items),
    {
        if let Some(chunk) = self.cached_chunk(base_state_index, index) {
            return chunk;
        }
        let ghost before = self@;
        let ghost old_states = self.states@;
        let ghost old_chunks = self.chunks@;
        let base_state = if index != 0 {
            take_entry(&mut self.states, index - 1)
        } else {
            None
        };
        let (base, mut base_state_item) = match base_state {
            Some(entry) => entry,
            None => (
                index,
                DanmakuTrackState::new(
                    self.layout_mode,
                    self.screen_size,
                    self.line_height,
                    self.lifetime,
                ),
            ),
        };
        assert(self@.comments == before.comments);
        assert((base, base_state_item@) == before.seed(index));
        let chunk = Arc::new(self.generate_chunk(shaped, base, &mut base_state_item, index));
        keep_entry(&mut self.states, index, (base, base_state_item));
        keep_entry(&mut self.chunks, index, share(&chunk));
        proof {
            let expected = before.get_chunk(lines_view(shaped@), base_state_index, index).0;
            assert(self@.states =~= expected.states);
            assert(self@.chunks =~= expected.chunks);
        }
        chunk
    }
}

} // verus!
