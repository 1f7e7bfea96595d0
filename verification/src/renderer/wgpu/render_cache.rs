//! What the GPU back-end keeps between chunks.

use super::glyph_atlas::{AtlasCall, GlyphItem, GlyphLayer, Placement, MAX_ATLAS_SIDE};
use super::glyph_manager::{doubled, entered, AtlasView, GlyphTextureManager, GlyphUpload};
use super::glyph_shadow::{shadow_corners, Vertex};
use super::index_buffer::{IndexBuffer, MAX_GLYPHS};
use super::vertex_buffer::{VertexBuffer, VertexBufferManager};
use crate::manager::DanmakuTimeChunk;
use crate::store::glyph_ids_of_chunk;
use crate::worker::ChunkBuffer;
use std::sync::Arc;
use vstd::prelude::*;

verus! {

/// What the GPU back-end keeps between chunks: the glyph atlas, the vertex
/// tables of the chunks drawn last, and the index table.
pub struct WgpuRenderCache {
    glyph_texture_manager: GlyphTextureManager,
    vertex_buffer_manager: VertexBufferManager,
    index_buffer: IndexBuffer,
}

/// The quads of the glyphs whose shadow is to be drawn.
pub struct ShadowBatch {
    pub glyphs: u32,
    pub vertexs: Vec<Vertex>,
    /// Whether the index table grew for the batch.
    pub indices_grew: bool,
}

impl WgpuRenderCache {
    /// The atlas, the vertex tables and the index table are each sound.
    pub closed spec fn wf(&self) -> bool {
        &&& self.glyph_texture_manager.wf()
        &&& self.vertex_buffer_manager.wf()
        &&& self.index_buffer.wf()
    }

    /// The glyphs of the atlas.
    pub closed spec fn manager(&self) -> GlyphTextureManager {
        self.glyph_texture_manager
    }

    /// The glyph atlas.
    pub open spec fn atlas(&self) -> AtlasView {
        self.manager()@
    }

    /// The vertex tables that are kept, most recently used first.
    pub closed spec fn tables(&self) -> Seq<((u32, u32), Arc<VertexBuffer>)> {
        self.vertex_buffer_manager@
    }

    /// The index table.
    pub closed spec fn indices(&self) -> Seq<u32> {
        self.index_buffer@
    }

    /// An empty cache for an atlas texture of the given size.
    pub fn new(texture_size: (u32, u32), shadow_size: u32) -> (cache: Self)
        requires
            texture_size.0 <= MAX_ATLAS_SIDE,
            texture_size.1 <= MAX_ATLAS_SIDE,
        ensures
            cache.wf(),
            cache.atlas() == (AtlasView {
                texture_size,
                shadow_width: shadow_size,
                glyphs: Map::empty(),
                pending: Seq::empty(),
            }),
            cache.manager().calls() == seq![
                AtlasCall::Made { width: texture_size.0 as int, height: texture_size.1 as int },
            ],
            cache.tables() == Seq::<((u32, u32), Arc<VertexBuffer>)>::empty(),
            cache.indices() == Seq::<u32>::empty(),
    {
        let cache = WgpuRenderCache {
            glyph_texture_manager: GlyphTextureManager::new(texture_size, shadow_size),
            vertex_buffer_manager: Default::default(),
            index_buffer: Default::default(),
        };
        proof {
            cache.index_buffer.lemma_empty();
        }
        cache
    }

    pub fn glyph_texture_manager(&self) -> (manager: &GlyphTextureManager)
        requires
            self.wf(),
        ensures
            manager.wf(),
            *manager == self.manager(),
    {
        &self.glyph_texture_manager
    }

    pub fn index_buffer(&self) -> (buffer: &IndexBuffer)
        requires
            self.wf(),
        ensures
            buffer.wf(),
            buffer@ == self.indices(),
    {
        &self.index_buffer
    }

    /// Takes new parameters. The vertex tables are dropped. The glyphs are
    /// dropped as well when their look has changed: when the caller says that
    /// the font has, or when the shadow has another width.
    pub fn new_param(&mut self, font_changed: bool, shadow_size: u32)
        requires
            old(self).wf(),
        ensures
            final(self).wf(),
            final(self).tables() == Seq::<((u32, u32), Arc<VertexBuffer>)>::empty(),
            final(self).indices() == old(self).indices(),
            final(self).atlas() == if font_changed || shadow_size != old(self).atlas().shadow_width {
                AtlasView {
                    shadow_width: shadow_size,
                    glyphs: Map::empty(),
                    pending: Seq::empty(),
                    ..old(self).atlas()
                }
            } else {
                old(self).atlas()
            },
            final(self).manager().calls() == if font_changed || shadow_size != old(
                self,
            ).atlas().shadow_width {
                old(self).manager().calls().push(AtlasCall::Cleared)
            } else {
                old(self).manager().calls()
            },
    {
        self.vertex_buffer_manager.clear();
        if font_changed || shadow_size != self.glyph_texture_manager.shadow_width() {
            self.glyph_texture_manager.clear();
            self.glyph_texture_manager.new_param(shadow_size);
        }
    }

    /// The glyphs of the chunk that the atlas does not know yet, each once.
    /// Their bitmaps are to be made and entered before the chunk is drawn.
    pub fn prepare(&self, chunk: &DanmakuTimeChunk) -> (missing: Vec<u64>)
        requires
            self.wf(),
        ensures
            missing@.no_duplicates(),
            forall|glyph: u64|
                missing@.contains(glyph) <==> chunk@.glyph_ids.contains(glyph)
                    && !self.atlas().glyphs.contains_key(glyph),
    {
        let all = glyph_ids_of_chunk(chunk);
        let mut missing: Vec<u64> = Vec::new();
        let mut i: usize = 0;
        while i < all.len()
            invariant
                i <= all@.len(),
                all@.no_duplicates(),
                all@.to_set() == chunk@.glyph_ids,
                missing@.no_duplicates(),
                forall|glyph: u64|
                    missing@.contains(glyph) <==> all@.take(i as int).contains(glyph)
                        && !self.atlas().glyphs.contains_key(glyph),
            decreases all@.len() - i,
        {
            let glyph: u64 = all[i];
            let ghost before = missing@;
            let ghost seen = all@.take(i as int);
            proof {
                assert(all@.take(i + 1) =~= seen.push(glyph));
                assert(!seen.contains(glyph)) by {
                    if seen.contains(glyph) {
                        let at = choose|at: int| 0 <= at < seen.len() && seen[at] == glyph;
                        assert(all@[at] == all@[i as int]);
                    }
                }
            }
            if !self.glyph_texture_manager.has_glyph(glyph) {
                missing.push(glyph);
                proof {
                    assert(!before.contains(glyph));
                    lemma_push_no_duplicates(before, glyph);
                    assert forall|other: u64|
                        missing@.contains(other) <==> seen.push(glyph).contains(other)
                            && !self.atlas().glyphs.contains_key(other) by {
                        lemma_push_contains(before, glyph, other);
                        lemma_push_contains(seen, glyph, other);
                        assert(before.contains(other) <==> seen.contains(other)
                            && !self.atlas().glyphs.contains_key(other));
                    }
                }
            } else {
                proof {
                    assert forall|other: u64|
                        missing@.contains(other) <==> seen.push(glyph).contains(other)
                            && !self.atlas().glyphs.contains_key(other) by {
                        lemma_push_contains(seen, glyph, other);
                        assert(before.contains(other) <==> seen.contains(other)
                            && !self.atlas().glyphs.contains_key(other));
                    }
                }
            }
            i += 1;
        }
        proof {
            assert(all@.take(all@.len() as int) =~= all@);
            assert forall|glyph: u64| all@.contains(glyph) <==> chunk@.glyph_ids.contains(glyph) by {
                assert(all@.to_set().contains(glyph) <==> all@.contains(glyph));
            }
        }
        missing
    }

    /// Enters the bitmap of a glyph into the atlas, as the atlas does it; the
    /// vertex tables and the index table stay as they are.
    pub fn insert_glyph(&mut self, glyph: u64, placement: Placement) -> (upload: GlyphUpload)
        requires
            old(self).wf(),
        ensures
            final(self).wf(),
            final(self).tables() == old(self).tables(),
            final(self).indices() == old(self).indices(),
            final(self).atlas().sound(),
            final(self).atlas().shadow_width == old(self).atlas().shadow_width,
            exists|times: nat|
                doubled(old(self).atlas().texture_size, times) == (
                    final(self).atlas().texture_size.0 as int,
                    final(self).atlas().texture_size.1 as int,
                ),
            upload is Empty <==> placement.width == 0 || placement.height == 0,
            upload is Empty ==> final(self).manager().calls() == old(self).manager().calls(),
            placement.width != 0 && placement.height != 0 && !old(self).manager().can_place(placement)
                ==> upload == (GlyphUpload::TooLarge { grown_from: None }) && final(self).atlas()
                == old(self).atlas() && final(self).manager().calls() == old(self).manager().calls(),
            placement.width != 0 && placement.height != 0 && old(self).manager().can_place(placement)
                ==> {
                let (calls, size, item) = entered(
                    old(self).manager().calls(),
                    old(self).atlas().texture_size,
                    placement,
                    old(self).atlas().shadow_width,
                );
                &&& final(self).manager().calls() == calls
                &&& final(self).atlas().texture_size == size
                &&& match item {
                    Some(item) => upload matches GlyphUpload::Placed { item: placed, .. } && placed
                        == item,
                    None => upload is TooLarge,
                }
            },
            placement.width != 0 && placement.height != 0 && old(self).manager().can_place(placement)
                ==> match old(self).manager().item_at_hand(placement) {
                Some(found) => upload == (GlyphUpload::Placed { item: found, grown_from: None }),
                None => {
                    &&& old(self).atlas().can_double() ==> final(self).atlas().texture_size != old(
                        self,
                    ).atlas().texture_size
                    &&& upload is TooLarge ==> !final(self).atlas().can_double()
                },
            },
            match upload {
                GlyphUpload::Empty => final(self).atlas() == (AtlasView {
                    glyphs: old(self).atlas().glyphs.insert(glyph, None),
                    ..old(self).atlas()
                }),
                GlyphUpload::Placed { item, grown_from } => {
                    &&& GlyphLayer::askable(placement, old(self).atlas().shadow_width)
                    &&& item == GlyphItem::of(
                        placement,
                        item.rect,
                        item.allocation,
                        old(self).atlas().shadow_width,
                    )
                    &&& item.fits(final(self).atlas().texture_size)
                    &&& final(self).atlas().glyphs == old(self).atlas().glyphs.insert(
                        glyph,
                        Some(item),
                    )
                    &&& final(self).atlas().pending == old(self).atlas().pending.push(item)
                    &&& grown_from == if final(self).atlas().texture_size == old(
                        self,
                    ).atlas().texture_size {
                        None
                    } else {
                        Some(old(self).atlas().texture_size)
                    }
                },
                GlyphUpload::TooLarge { grown_from } => {
                    &&& final(self).atlas().glyphs == old(self).atlas().glyphs
                    &&& final(self).atlas().pending == old(self).atlas().pending
                    &&& grown_from == if final(self).atlas().texture_size == old(
                        self,
                    ).atlas().texture_size {
                        None
                    } else {
                        Some(old(self).atlas().texture_size)
                    }
                },
            },
    {
        let upload = self.glyph_texture_manager.insert_glyph(glyph, placement);
        proof {
            self.glyph_texture_manager.lemma_sound();
        }
        upload
    }

    /// Hands out the glyphs whose shadow is to be drawn, and makes sure that
    /// the index table has indices for them. `None` when no glyph waits.
    pub fn flush(&mut self) -> (batch: Option<ShadowBatch>)
        requires
            old(self).wf(),
        ensures
            final(self).wf(),
            final(self).tables() == old(self).tables(),
            final(self).atlas() == (AtlasView { pending: Seq::empty(), ..old(self).atlas() }),
            final(self).manager().calls() == old(self).manager().calls(),
            match batch {
                Some(batch) => {
                    &&& batch.glyphs == old(self).atlas().pending.len()
                    &&& batch.glyphs > 0
                    &&& batch.vertexs@.map_values(|vertex: Vertex| vertex.at()) == shadow_corners(
                        old(self).atlas().pending,
                    )
                    &&& batch.indices_grew == (old(self).indices().len() < 6 * batch.glyphs)
                    &&& final(self).indices().len() >= 6 * batch.glyphs
                    &&& final(self).indices().len() >= old(self).indices().len()
                },
                None => old(self).atlas().pending.len() == 0 && final(self).indices() == old(
                    self,
                ).indices(),
            },
    {
        match self.glyph_texture_manager.flush() {
            Some((glyphs, vertexs)) => {
                proof {
                    self.index_buffer.lemma_glyphs();
                }
                let indices_grew = self.index_buffer.ensure_size(glyphs);
                proof {
                    self.index_buffer.lemma_glyphs();
                }
                Some(ShadowBatch { glyphs, vertexs, indices_grew })
            },
            None => None,
        }
    }
}

/// What a sequence holds once one more element was put behind it.
proof fn lemma_push_contains(items: Seq<u64>, added: u64, asked: u64)
    ensures
        items.push(added).contains(asked) <==> items.contains(asked) || asked == added,
{
    if items.push(added).contains(asked) {
        let at = choose|at: int| 0 <= at < items.push(added).len() && items.push(added)[at] == asked;
        if at < items.len() {
            assert(items[at] == asked);
        }
    }
    if items.contains(asked) {
        let at = choose|at: int| 0 <= at < items.len() && items[at] == asked;
        assert(items.push(added)[at] == asked);
    }
    if asked == added {
        assert(items.push(added)[items.len() as int] == asked);
    }
}

/// A new element leaves a sequence without duplicates.
proof fn lemma_push_no_duplicates(items: Seq<u64>, added: u64)
    requires
        items.no_duplicates(),
        !items.contains(added),
    ensures
        items.push(added).no_duplicates(),
{
    assert forall|a: int, b: int|
        0 <= a < items.push(added).len() && 0 <= b < items.push(added).len() && a != b implies items.push(
        added,
    )[a] != items.push(added)[b] by {
        if a < items.len() {
            assert(items.contains(items[a]));
        }
        if b < items.len() {
            assert(items.contains(items[b]));
        }
    }
}

/// The GPU back-end keeps the vertex table of a chunk.
impl ChunkBuffer<WgpuRenderCache> for VertexBuffer {
    open spec fn chunk_index(&self) -> u32 {
        self@.index
    }

    open spec fn chunk_base(&self) -> u32 {
        self@.base_state_index
    }

    open spec fn cache_ready(cache: &WgpuRenderCache) -> bool {
        cache.wf()
    }

    /// The vertex table of the chunk, from the tables that are kept or new;
    /// the index table is grown to its number of glyphs.
    fn new(chunk: &Arc<DanmakuTimeChunk>, cache: &mut WgpuRenderCache) -> (buffer: Arc<Self>) {
        let vertex_buffer = cache.vertex_buffer_manager.get(chunk, &cache.glyph_texture_manager);
        let glyphs: u32 = vertex_buffer.glyphs();
        if glyphs <= MAX_GLYPHS {
            cache.index_buffer.ensure_size(glyphs);
        }
        vertex_buffer
    }

    fn index(&self) -> (index: u32) {
        VertexBuffer::index(self)
    }

    fn base_state_index(&self) -> (index: u32) {
        VertexBuffer::base_state_index(self)
    }
}

} // verus!
