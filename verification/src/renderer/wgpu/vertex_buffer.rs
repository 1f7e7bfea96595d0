//! The vertices of the glyph quads of a chunk, and the tables of them that are kept.

use super::glyph_atlas::GlyphItem;
use super::glyph_manager::GlyphTextureManager;
use crate::danmaku::DanmakuColor;
use crate::layout::DanmakuPosition;
use crate::manager::{DanmakuTimeChunk, PhysicalGlyph, Placed, PositionedDanmakuItem};
use crate::store::share;
use lru::LruCache;
use std::sync::Arc;
use vstd::prelude::*;

verus! {

/// Makes `LruCache<K, V, S>` known to the verifier, which sees nothing of what a value holds.
#[verifier::external_type_specification]
#[verifier::external_body]
#[verifier::reject_recursive_types(K)]
#[verifier::reject_recursive_types(V)]
#[verifier::reject_recursive_types(S)]
pub struct ExLruCache<K, V, S>(LruCache<K, V, S>);

/// Makes `lru::DefaultHasher` known to the verifier, which sees nothing of what a value holds.
#[verifier::external_type_specification]
#[verifier::external_body]
pub struct ExLruHasher(lru::DefaultHasher);

/// One corner of the quad of a glyph. From the time, the lane and the width
/// of the line the vertex shader works out where the comment stands; the
/// offset leads from there to the corner.
#[derive(PartialEq, Eq, Clone, Copy, Debug)]
pub struct Vertex {
    pub time: u32,
    /// 0 for a scrolling comment, 1 for one at the top, 2 for one at the bottom.
    pub track_type: u32,
    pub track: u32,
    pub line_width: u32,
    pub offset: (i32, i32),
    pub tex_coords: (u32, u32),
    pub color: DanmakuColor,
}

/// A number brought into the range of 32-bit signed numbers.
pub open spec fn clamped(number: int) -> i32 {
    if number < i32::MIN {
        i32::MIN
    } else if number > i32::MAX {
        i32::MAX
    } else {
        number as i32
    }
}

/// The lane of a position as the shader takes it: the kind of lane, and its number.
pub open spec fn lane_of(position: DanmakuPosition) -> (u32, u32) {
    let (kind, track): (u32, usize) = match position {
        DanmakuPosition::Scroll(track) => (0u32, track),
        DanmakuPosition::Top(track) => (1u32, track),
        DanmakuPosition::Bottom(track) => (2u32, track),
    };
    (
        kind,
        if track <= u32::MAX {
            track as u32
        } else {
            u32::MAX
        },
    )
}

/// The four corners of a glyph of a comment: top left, top right, bottom
/// left, bottom right. The glyph's bitmap lies at the glyph's place in the
/// line, moved by the bitmap's placement and up by the line's descent.
pub open spec fn glyph_quad(item: Placed, entry: GlyphItem, glyph: PhysicalGlyph) -> Seq<Vertex> {
    let x = clamped(glyph.x + entry.placement.left);
    let y = clamped(glyph.y - entry.placement.top - item.item.layout_line.max_descent);
    let right = clamped(x + entry.placement.width);
    let bottom = clamped(y + entry.placement.height);
    let left_u = entry.tex_coords.0;
    let top_v = entry.tex_coords.1;
    let right_u = (entry.tex_coords.0 + entry.tex_size.0) as u32;
    let bottom_v = (entry.tex_coords.1 + entry.tex_size.1) as u32;
    let corner = |offset: (i32, i32), tex_coords: (u32, u32)|
        Vertex {
            time: item.item.time.0,
            track_type: lane_of(item.position).0,
            track: lane_of(item.position).1,
            line_width: item.item.layout_line.w,
            offset,
            tex_coords,
            color: item.item.color,
        };
    seq![
        corner((x, y), (left_u, top_v)),
        corner((right, y), (right_u, top_v)),
        corner((x, bottom), (left_u, bottom_v)),
        corner((right, bottom), (right_u, bottom_v)),
    ]
}

/// The corners of the first glyphs of a comment that lie in the atlas.
pub open spec fn line_vertices(
    item: Placed,
    glyphs: Seq<PhysicalGlyph>,
    atlas: Map<u64, Option<GlyphItem>>,
) -> Seq<Vertex>
    decreases glyphs.len(),
{
    if glyphs.len() == 0 {
        Seq::empty()
    } else {
        let before = line_vertices(item, glyphs.drop_last(), atlas);
        let glyph = glyphs.last();
        if atlas.contains_key(glyph.cache_key) && atlas[glyph.cache_key] is Some {
            before + glyph_quad(item, atlas[glyph.cache_key].unwrap(), glyph)
        } else {
            before
        }
    }
}

/// The corners of all glyphs of the items that lie in the atlas, item by item
/// and glyph by glyph.
pub open spec fn chunk_vertices(items: Seq<Placed>, atlas: Map<u64, Option<GlyphItem>>) -> Seq<Vertex>
    decreases items.len(),
{
    if items.len() == 0 {
        Seq::empty()
    } else {
        chunk_vertices(items.drop_last(), atlas) + line_vertices(
            items.last(),
            items.last().item.physical_glyphs,
            atlas,
        )
    }
}

/// Brings a number into the range of 32-bit signed numbers.
fn clamp(number: i64) -> (result: i32)
    ensures
        result == clamped(number as int),
{
    if number < -0x8000_0000 {
        -0x8000_0000
    } else if number > 0x7FFF_FFFF {
        0x7FFF_FFFF
    } else {
        number as i32
    }
}

impl Vertex {
    pub fn new(item: &PositionedDanmakuItem, glyph_item: &GlyphItem, glyph: &PhysicalGlyph) -> (quad: [Vertex; 4])
        requires
            glyph_item.tex_coords.0 + glyph_item.tex_size.0 <= u32::MAX,
            glyph_item.tex_coords.1 + glyph_item.tex_size.1 <= u32::MAX,
        ensures
            quad@ == glyph_quad(item@, *glyph_item, *glyph),
    {
        let (track_type, track): (u32, usize) = match item.position {
            DanmakuPosition::Scroll(track) => (0, track),
            DanmakuPosition::Top(track) => (1, track),
            DanmakuPosition::Bottom(track) => (2, track),
        };
        let track: u32 = if track <= 0xFFFF_FFFF {
            track as u32
        } else {
            0xFFFF_FFFF
        };
        let offset_x: i32 = clamp(glyph.x as i64 + glyph_item.placement.left as i64);
        let offset_y: i32 = clamp(
            glyph.y as i64 - glyph_item.placement.top as i64 - item.item.layout_line.max_descent as i64,
        );
        let right: i32 = clamp(offset_x as i64 + glyph_item.placement.width as i64);
        let bottom: i32 = clamp(offset_y as i64 + glyph_item.placement.height as i64);
        let left_u: u32 = glyph_item.tex_coords.0;
        let top_v: u32 = glyph_item.tex_coords.1;
        let right_u: u32 = glyph_item.tex_coords.0 + glyph_item.tex_size.0;
        let bottom_v: u32 = glyph_item.tex_coords.1 + glyph_item.tex_size.1;
        let time: u32 = item.item.time.as_millis();
        let line_width: u32 = item.item.width();
        let color = item.item.color;
        let top_left = Vertex {
            time,
            track_type,
            track,
            line_width,
            offset: (offset_x, offset_y),
            tex_coords: (left_u, top_v),
            color,
        };
        let top_right = Vertex {
            time,
            track_type,
            track,
            line_width,
            offset: (right, offset_y),
            tex_coords: (right_u, top_v),
            color,
        };
        let bottom_left = Vertex {
            time,
            track_type,
            track,
            line_width,
            offset: (offset_x, bottom),
            tex_coords: (left_u, bottom_v),
            color,
        };
        let bottom_right = Vertex {
            time,
            track_type,
            track,
            line_width,
            offset: (right, bottom),
            tex_coords: (right_u, bottom_v),
            color,
        };
        let quad = [top_left, top_right, bottom_left, bottom_right];
        assert(quad@ =~= glyph_quad(item@, *glyph_item, *glyph));
        quad
    }
}

/// The vertices of a chunk.
#[derive(Debug)]
pub struct VertexBuffer {
    index: u32,
    base_state_index: u32,
    glyphs: usize,
    vertexs: Vec<Vertex>,
}

pub ghost struct VertexBufferView {
    pub index: u32,
    pub base_state_index: u32,
    pub vertexs: Seq<Vertex>,
}

impl View for VertexBuffer {
    type V = VertexBufferView;

    closed spec fn view(&self) -> VertexBufferView {
        VertexBufferView {
            index: self.index,
            base_state_index: self.base_state_index,
            vertexs: self.vertexs@,
        }
    }
}

impl VertexBuffer {
    /// There are four vertices for each glyph.
    pub closed spec fn wf(&self) -> bool {
        self.vertexs@.len() == 4 * self.glyphs
    }

    /// The vertices of the glyphs of a chunk that lie in the atlas.
    pub fn new(chunk: &DanmakuTimeChunk, texture_manager: &GlyphTextureManager) -> (buffer: Self)
        requires
            texture_manager.wf(),
        ensures
            buffer.wf(),
            buffer@ == (VertexBufferView {
                index: chunk@.index,
                base_state_index: chunk@.base_state_index,
                vertexs: chunk_vertices(chunk@.items, texture_manager@.glyphs),
            }),
    {
        let items = chunk.items();
        let ghost placed = chunk@.items;
        let ghost atlas = texture_manager@.glyphs;
        let mut vertexs: Vec<Vertex> = Vec::new();
        let ghost mut glyphs: nat = 0;
        let mut i: usize = 0;
        assert(placed.take(0) =~= Seq::<Placed>::empty());
        while i < items.len()
            invariant
                i <= items@.len(),
                texture_manager.wf(),
                atlas == texture_manager@.glyphs,
                placed == items@.map_values(|item: PositionedDanmakuItem| item@),
                vertexs@ == chunk_vertices(placed.take(i as int), atlas),
                vertexs@.len() == 4 * glyphs,
            decreases items@.len() - i,
        {
            let item: &PositionedDanmakuItem = &items[i];
            let ghost line = item@.item.physical_glyphs;
            let ghost before = vertexs@;
            proof {
                assert(placed.take(i + 1).drop_last() =~= placed.take(i as int));
                assert(placed.take(i + 1).last() == item@);
                assert(line.take(0) =~= Seq::<PhysicalGlyph>::empty());
            }
            let mut j: usize = 0;
            while j < item.item.physical_glyphs.len()
                invariant
                    j <= item.item.physical_glyphs@.len(),
                    texture_manager.wf(),
                    atlas == texture_manager@.glyphs,
                    line == item@.item.physical_glyphs,
                    vertexs@ == before + line_vertices(item@, line.take(j as int), atlas),
                    before.len() + line_vertices(item@, line.take(j as int), atlas).len() == 4 * glyphs,
                decreases item.item.physical_glyphs@.len() - j,
            {
                let glyph: &PhysicalGlyph = &item.item.physical_glyphs[j];
                let ghost so_far = line_vertices(item@, line.take(j as int), atlas);
                proof {
                    assert(line.take(j + 1).drop_last() =~= line.take(j as int));
                    assert(line.take(j + 1).last() == *glyph);
                }
                if let Some(glyph_item) = texture_manager.find(glyph.cache_key) {
                    proof {
                        texture_manager.lemma_items_fit(glyph.cache_key);
                    }
                    let quad = Vertex::new(item, glyph_item, glyph);
                    vertexs.push(quad[0]);
                    vertexs.push(quad[1]);
                    vertexs.push(quad[2]);
                    vertexs.push(quad[3]);
                    assert(vertexs@ =~= before + (so_far + quad@));
                    proof {
                        glyphs = glyphs + 1;
                    }
                }
                j += 1;
            }
            proof {
                assert(line.take(line.len() as int) =~= line);
            }
            i += 1;
        }
        assert(placed.take(items@.len() as int) =~= placed);
        VertexBuffer {
            index: chunk.index(),
            base_state_index: chunk.base_state_index(),
            glyphs: vertexs.len() / 4,
            vertexs,
        }
    }

    /// The number of glyphs, or the largest number there is if there are more.
    pub fn glyphs(&self) -> (glyphs: u32)
        requires
            self.wf(),
        ensures
            glyphs == if self@.vertexs.len() / 4 <= u32::MAX {
                self@.vertexs.len() / 4
            } else {
                u32::MAX as nat
            },
    {
        if self.glyphs <= 0xFFFF_FFFF {
            self.glyphs as u32
        } else {
            0xFFFF_FFFF
        }
    }

    /// The index of the chunk that the table was made of.
    pub fn index(&self) -> (index: u32)
        ensures
            index == self@.index,
    {
        self.index
    }

    /// The base state index of the chunk that the table was made of.
    pub fn base_state_index(&self) -> (index: u32)
        ensures
            index == self@.base_state_index,
    {
        self.base_state_index
    }

    /// The vertices, four for each glyph.
    pub fn vertexs(&self) -> (vertexs: &Vec<Vertex>)
        ensures
            vertexs@ == self@.vertexs,
    {
        &self.vertexs
    }
}

/// The vertex tables of the chunks drawn last, each under the base state
/// index and the index of its chunk, most recently used first.
pub uninterp spec fn lru_entries(cache: LruCache<(u32, u32), Arc<VertexBuffer>>) -> Seq<
    ((u32, u32), Arc<VertexBuffer>),
>;

/// How many tables the cache holds at most.
pub uninterp spec fn lru_capacity(cache: LruCache<(u32, u32), Arc<VertexBuffer>>) -> nat;

/// Where `key` stands among the entries, or their number if it is not there.
pub open spec fn position_of(entries: Seq<((u32, u32), Arc<VertexBuffer>)>, key: (u32, u32)) -> int
    decreases entries.len(),
{
    if entries.len() == 0 || entries[0].0 == key {
        0
    } else {
        1 + position_of(entries.skip(1), key)
    }
}

proof fn lemma_position_of(entries: Seq<((u32, u32), Arc<VertexBuffer>)>, key: (u32, u32))
    ensures
        0 <= position_of(entries, key) <= entries.len(),
        position_of(entries, key) < entries.len() ==> entries[position_of(entries, key)].0 == key,
    decreases entries.len(),
{
    if entries.len() > 0 && entries[0].0 != key {
        lemma_position_of(entries.skip(1), key);
        let at = position_of(entries.skip(1), key);
        if at < entries.skip(1).len() {
            assert(entries.skip(1)[at] == entries[at + 1]);
        }
    }
}

/// `LruCache::new`: an empty cache that holds at most `capacity` entries.
#[verifier::external_body]
fn new_cache(capacity: usize) -> (cache: LruCache<(u32, u32), Arc<VertexBuffer>>)
    requires
        capacity > 0,
    ensures
        lru_entries(cache) == Seq::<((u32, u32), Arc<VertexBuffer>)>::empty(),
        lru_capacity(cache) == capacity,
{
    LruCache::new(std::num::NonZeroUsize::new(capacity).unwrap())
}

/// `LruCache::get`: the value under the key, if there is one; the entry
/// becomes the most recently used one.
#[verifier::external_body]
fn cache_get(cache: &mut LruCache<(u32, u32), Arc<VertexBuffer>>, key: (u32, u32)) -> (found: Option<
    Arc<VertexBuffer>,
>)
    ensures
        lru_capacity(*final(cache)) == lru_capacity(*old(cache)),
        ({
            let entries = lru_entries(*old(cache));
            let at = position_of(entries, key);
            match found {
                Some(value) => at < entries.len() && value == entries[at].1 && lru_entries(
                    *final(cache),
                ) == seq![entries[at]] + entries.remove(at),
                None => at == entries.len() && lru_entries(*final(cache)) == entries,
            }
        }),
{
    cache.get(&key).cloned()
}

/// `LruCache::push`: puts the value under the key as the most recently used
/// entry. It takes the place of the entry that was under the key, which is
/// handed back; else, if the cache is full, the least recently used entry
/// gives way and is handed back.
#[verifier::external_body]
fn cache_push(cache: &mut LruCache<(u32, u32), Arc<VertexBuffer>>, key: (u32, u32), value: Arc<
    VertexBuffer,
>) -> (gone: Option<((u32, u32), Arc<VertexBuffer>)>)
    ensures
        lru_capacity(*final(cache)) == lru_capacity(*old(cache)),
        ({
            let entries = lru_entries(*old(cache));
            let at = position_of(entries, key);
            if at < entries.len() {
                gone == Some((key, entries[at].1)) && lru_entries(*final(cache)) == seq![
                    (key, value),
                ] + entries.remove(at)
            } else if entries.len() == lru_capacity(*old(cache)) {
                gone == Some(entries.last()) && lru_entries(*final(cache)) == seq![(key, value)]
                    + entries.drop_last()
            } else {
                gone is None && lru_entries(*final(cache)) == seq![(key, value)] + entries
            }
        }),
{
    cache.push(key, value)
}

/// `LruCache::clear`: the cache holds nothing any more.
#[verifier::external_body]
fn cache_clear(cache: &mut LruCache<(u32, u32), Arc<VertexBuffer>>)
    ensures
        lru_capacity(*final(cache)) == lru_capacity(*old(cache)),
        lru_entries(*final(cache)) == Seq::<((u32, u32), Arc<VertexBuffer>)>::empty(),
{
    cache.clear()
}

/// An entry holds a sound table under the indices of the table's chunk.
pub open spec fn held_right(entry: ((u32, u32), Arc<VertexBuffer>)) -> bool {
    &&& entry.1.wf()
    &&& entry.1@.base_state_index == entry.0.0
    &&& entry.1@.index == entry.0.1
}

/// Keeps the vertex tables of the chunks drawn last.
pub struct VertexBufferManager {
    buffer: LruCache<(u32, u32), Arc<VertexBuffer>>,
}

/// How many vertex tables are kept.
pub const VERTEX_BUFFERS: usize = 8;

impl View for VertexBufferManager {
    type V = Seq<((u32, u32), Arc<VertexBuffer>)>;

    /// The tables, each under the base state index and the index of its chunk,
    /// most recently used first.
    closed spec fn view(&self) -> Seq<((u32, u32), Arc<VertexBuffer>)> {
        lru_entries(self.buffer)
    }
}

impl Default for VertexBufferManager {
    fn default() -> (manager: Self)
        ensures
            manager.wf(),
            manager@ == Seq::<((u32, u32), Arc<VertexBuffer>)>::empty(),
    {
        VertexBufferManager { buffer: new_cache(VERTEX_BUFFERS) }
    }
}

impl VertexBufferManager {
    /// Each table has four vertices for each glyph, and the cache holds eight tables.
    pub closed spec fn wf(&self) -> bool {
        &&& lru_capacity(self.buffer) == VERTEX_BUFFERS
        &&& forall|i: int| 0 <= i < self@.len() ==> held_right(#[trigger] self@[i])
    }

    pub fn clear(&mut self)
        requires
            old(self).wf(),
        ensures
            final(self).wf(),
            final(self)@ == Seq::<((u32, u32), Arc<VertexBuffer>)>::empty(),
    {
        cache_clear(&mut self.buffer)
    }

    /// The vertex table of a chunk: the one that is kept for the chunk's base
    /// state index and index, or else a new one, which is kept from now on.
    /// Either way it is the most recently used one afterwards.
    pub fn get(&mut self, chunk: &DanmakuTimeChunk, glyph_manager: &GlyphTextureManager) -> (buffer: Arc<
        VertexBuffer,
    >)
        requires
            old(self).wf(),
            glyph_manager.wf(),
        ensures
            final(self).wf(),
            buffer.wf(),
            buffer@.index == chunk@.index,
            buffer@.base_state_index == chunk@.base_state_index,
            ({
                let key = (chunk@.base_state_index, chunk@.index);
                let at = position_of(old(self)@, key);
                if at < old(self)@.len() {
                    buffer == old(self)@[at].1 && final(self)@ == seq![old(self)@[at]] + old(
                        self,
                    )@.remove(at)
                } else {
                    &&& buffer@ == (VertexBufferView {
                        index: chunk@.index,
                        base_state_index: chunk@.base_state_index,
                        vertexs: chunk_vertices(chunk@.items, glyph_manager@.glyphs),
                    })
                    &&& final(self)@ == seq![(key, buffer)] + if old(self)@.len() == VERTEX_BUFFERS {
                        old(self)@.drop_last()
                    } else {
                        old(self)@
                    }
                }
            }),
    {
        let key: (u32, u32) = (chunk.base_state_index(), chunk.index());
        let ghost entries = self@;
        match cache_get(&mut self.buffer, key) {
            Some(buffer) => {
                proof {
                    let at = position_of(entries, key);
                    lemma_position_of(entries, key);
                    let rest = entries.remove(at);
                    assert(self@ == seq![entries[at]] + rest);
                    assert forall|i: int| 0 <= i < self@.len() implies held_right(#[trigger] self@[i]) by {
                        if i == 0 {
                            assert(self@[0] == entries[at]);
                        } else {
                            assert(self@[i] == rest[i - 1]);
                            if i - 1 < at {
                                assert(rest[i - 1] == entries[i - 1]);
                            } else {
                                assert(rest[i - 1] == entries[i]);
                            }
                        }
                    }
                    assert(held_right(entries[at]));
                }
                buffer
            },
            None => {
                let buffer = Arc::new(VertexBuffer::new(chunk, glyph_manager));
                cache_push(&mut self.buffer, key, share(&buffer));
                proof {
                    lemma_position_of(entries, key);
                    assert forall|i: int| 0 <= i < self@.len() implies held_right(#[trigger] self@[i]) by {
                        if i > 0 {
                            assert(self@[i] == entries[i - 1]);
                        }
                    }
                }
                buffer
            },
        }
    }
}

} // verus!
