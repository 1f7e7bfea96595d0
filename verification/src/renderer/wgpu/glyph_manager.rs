//! The glyph atlas: which glyph lies where, and how the texture grows.

use super::config::{machine_bytes, words_as_bytes};
use super::glyph_atlas::{
    atlas_offer, AtlasCall, AtlasRect, GlyphItem, GlyphLayer, Placement, MAX_ATLAS_SIDE,
};
use super::glyph_shadow::GlyphShadow;
use super::index_buffer::MAX_GLYPHS;
use crate::store::{glyph_at, keep_glyph};
use std::collections::HashMap;
use vstd::prelude::*;

verus! {

/// What the fragment shader knows of the atlas: its size in texels.
#[derive(PartialEq, Eq, Structural, Clone, Copy, Debug)]
pub struct GlyphConfigUniform {
    pub texture_width: u32,
    pub texture_height: u32,
}

impl GlyphConfigUniform {
    /// The uniform as the 32-bit words that go to the GPU.
    pub fn words(&self) -> (words: [u32; 2])
        ensures
            words@ == seq![self.texture_width, self.texture_height],
    {
        let words = [self.texture_width, self.texture_height];
        assert(words@ =~= seq![self.texture_width, self.texture_height]);
        words
    }

    /// The uniform as the bytes that go to the GPU.
    pub fn bytes(&self) -> (bytes: Vec<u8>)
        ensures
            bytes@.len() == 8,
            machine_bytes(seq![self.texture_width, self.texture_height], bytes@),
    {
        let words = self.words();
        words_as_bytes(words.as_slice())
    }
}

/// What is to be done once a glyph was entered.
#[derive(PartialEq, Eq, Clone, Copy, Debug)]
pub enum GlyphUpload {
    /// The glyph has no bitmap; nothing is to be done.
    Empty,
    /// The glyph was given room: its bitmap is to be written inside the
    /// shadow border of its rectangle. If the atlas had to grow for it,
    /// `grown_from` is the size it had before, and what the old textures held
    /// is to be copied into textures of the new size first.
    Placed { item: GlyphItem, grown_from: Option<(u32, u32)> },
    /// The glyph was not entered: room cannot be asked for it at all, or the
    /// table of the glyphs that wait for their shadow is full, or no room was
    /// found for it and the atlas cannot grow further. If the atlas grew in
    /// the attempt, `grown_from` is the size it had before.
    TooLarge { grown_from: Option<(u32, u32)> },
}

/// The glyphs of the atlas: which glyph lies where.
pub struct GlyphTextureManager {
    texture_size: (u32, u32),
    layer: GlyphLayer,
    glyphs: HashMap<u64, Option<GlyphItem>>,
    config_uniform: GlyphConfigUniform,
    shadow_width: u32,
    shadow: GlyphShadow,
}

pub ghost struct AtlasView {
    pub texture_size: (u32, u32),
    pub shadow_width: u32,
    /// For each glyph that was entered, where it lies; `None` for a glyph
    /// without a bitmap.
    pub glyphs: Map<u64, Option<GlyphItem>>,
    /// The glyphs whose shadow is still to be drawn.
    pub pending: Seq<GlyphItem>,
}

impl View for GlyphTextureManager {
    type V = AtlasView;

    closed spec fn view(&self) -> AtlasView {
        AtlasView {
            texture_size: self.texture_size,
            shadow_width: self.shadow_width,
            glyphs: self.glyphs@,
            pending: self.shadow@,
        }
    }
}

/// The size after doubling `times` times.
pub open spec fn doubled(size: (u32, u32), times: nat) -> (int, int)
    decreases times,
{
    if times == 0 {
        (size.0 as int, size.1 as int)
    } else {
        (2 * doubled(size, (times - 1) as nat).0, 2 * doubled(size, (times - 1) as nat).1)
    }
}

/// Whether a texture of this size can be doubled: it has a size, and twice
/// that size is still within the largest side.
pub open spec fn can_double(size: (u32, u32)) -> bool {
    &&& 2 * size.0 <= MAX_ATLAS_SIDE
    &&& 2 * size.1 <= MAX_ATLAS_SIDE
    &&& size != (0u32, 0u32)
}

/// How a bitmap is entered into a texture of the given size whose allocator
/// took the given calls: the allocator is asked for room for the bitmap and
/// its shadow; if it finds none and the texture can be doubled, the texture is
/// doubled and the allocator is asked again, and so on. The outcome is the
/// calls that the allocator has taken in the end, the size that the texture
/// has then, and the item of the bitmap, if room was found.
pub open spec fn entered(calls: Seq<AtlasCall>, size: (u32, u32), placement: Placement, shadow_width: u32) -> (
    Seq<AtlasCall>,
    (u32, u32),
    Option<GlyphItem>,
)
    decreases 2 * MAX_ATLAS_SIDE - size.0 - size.1,
{
    let width = placement.width + 2 * shadow_width;
    let height = placement.height + 2 * shadow_width;
    let asked = calls.push(AtlasCall::Asked { width, height });
    match GlyphLayer::item_of(placement, shadow_width, atlas_offer(calls, width, height)) {
        Some(item) => (asked, size, Some(item)),
        None => if can_double(size) {
            let twice = ((2 * size.0) as u32, (2 * size.1) as u32);
            entered(
                asked.push(AtlasCall::Grown { width: twice.0 as int, height: twice.1 as int }),
                twice,
                placement,
                shadow_width,
            )
        } else {
            (asked, size, None)
        },
    }
}

impl AtlasView {
    /// Whether the texture can be doubled: it has a size, and twice that size
    /// is still within the largest side.
    pub open spec fn can_double(self) -> bool {
        can_double(self.texture_size)
    }

    /// Every glyph lies in the texture, and no two glyphs share a texel.
    pub open spec fn sound(self) -> bool {
        &&& self.texture_size.0 <= MAX_ATLAS_SIDE
        &&& self.texture_size.1 <= MAX_ATLAS_SIDE
        &&& forall|key: u64| #[trigger]
            self.glyphs.contains_key(key) ==> (self.glyphs[key] matches Some(item) ==> item.fits(
                self.texture_size,
            ))
        &&& forall|first: u64, second: u64|
            first != second && #[trigger] self.glyphs.contains_key(first)
                && #[trigger] self.glyphs.contains_key(second) ==> (self.glyphs[first] matches Some(
                a,
            ) ==> (self.glyphs[second] matches Some(b) ==> a.rect.apart(b.rect)))
    }
}

impl GlyphTextureManager {
    /// The view is sound, the glyphs lie in rectangles that the layer gave
    /// out, and the layer and the uniform agree with the size of the texture.
    pub closed spec fn wf(&self) -> bool {
        &&& self@.sound()
        &&& self.layer.size() == (self.texture_size.0 as int, self.texture_size.1 as int)
        &&& self.config_uniform.texture_width == self.texture_size.0
        &&& self.config_uniform.texture_height == self.texture_size.1
        &&& self.shadow.wf()
        &&& self.shadow@.len() <= MAX_GLYPHS
        &&& forall|key: u64| #[trigger]
            self.glyphs@.contains_key(key) ==> (self.glyphs@[key] matches Some(item)
                ==> self.layer.rects().contains(item.rect))
    }

    /// The calls that the allocator of the atlas took.
    pub closed spec fn calls(&self) -> Seq<AtlasCall> {
        self.layer.calls()
    }

    /// What the allocator of the atlas hands out, as the atlas stands, for an
    /// item of the given size.
    pub open spec fn offer(&self, width: int, height: int) -> Option<(AtlasRect, u32)> {
        atlas_offer(self.calls(), width, height)
    }

    /// Whether a bitmap can be entered at all: room can be asked for it, and
    /// the table of the glyphs that wait for their shadow has room.
    pub open spec fn can_place(&self, placement: Placement) -> bool {
        &&& GlyphLayer::askable(placement, self@.shadow_width)
        &&& self@.pending.len() < MAX_GLYPHS
    }

    /// The item that a bitmap gets in the texture as it stands, if the
    /// allocator finds room for the bitmap and its shadow there.
    pub open spec fn item_at_hand(&self, placement: Placement) -> Option<GlyphItem> {
        GlyphLayer::item_of(
            placement,
            self@.shadow_width,
            self.offer(
                placement.width + 2 * self@.shadow_width,
                placement.height + 2 * self@.shadow_width,
            ),
        )
    }

    /// An empty atlas for a texture of the given size.
    pub fn new(texture_size: (u32, u32), shadow_width: u32) -> (manager: Self)
        requires
            texture_size.0 <= MAX_ATLAS_SIDE,
            texture_size.1 <= MAX_ATLAS_SIDE,
        ensures
            manager.wf(),
            manager@ == (AtlasView {
                texture_size,
                shadow_width,
                glyphs: Map::empty(),
                pending: Seq::empty(),
            }),
            manager.calls() == seq![
                AtlasCall::Made { width: texture_size.0 as int, height: texture_size.1 as int },
            ],
    {
        GlyphTextureManager {
            texture_size,
            layer: GlyphLayer::new(texture_size),
            glyphs: HashMap::new(),
            config_uniform: GlyphConfigUniform {
                texture_width: texture_size.0,
                texture_height: texture_size.1,
            },
            shadow_width,
            shadow: GlyphShadow::new(),
        }
    }

    pub fn texture_size(&self) -> (size: (u32, u32))
        ensures
            size == self@.texture_size,
    {
        self.texture_size
    }

    pub fn shadow_width(&self) -> (width: u32)
        ensures
            width == self@.shadow_width,
    {
        self.shadow_width
    }

    /// The uniform that tells the shader the size of the texture.
    pub fn config_uniform(&self) -> (uniform: GlyphConfigUniform)
        requires
            self.wf(),
        ensures
            uniform.texture_width == self@.texture_size.0,
            uniform.texture_height == self@.texture_size.1,
    {
        self.config_uniform
    }

    /// Where a glyph lies, if it was entered and has a bitmap.
    pub fn find(&self, glyph: u64) -> (item: Option<&GlyphItem>)
        ensures
            match item {
                Some(item) => self@.glyphs.contains_key(glyph) && self@.glyphs[glyph] == Some(*item),
                None => !self@.glyphs.contains_key(glyph) || self@.glyphs[glyph] is None,
            },
    {
        match glyph_at(&self.glyphs, glyph) {
            Some(Some(item)) => Some(item),
            _ => None,
        }
    }

    /// Whether a glyph was entered.
    pub fn has_glyph(&self, glyph: u64) -> (entered: bool)
        ensures
            entered == self@.glyphs.contains_key(glyph),
    {
        glyph_at(&self.glyphs, glyph).is_some()
    }

    /// What is well-formed is sound.
    pub proof fn lemma_sound(&self)
        requires
            self.wf(),
        ensures
            self@.sound(),
    {
    }

    /// A glyph of the atlas lies in the texture.
    pub proof fn lemma_items_fit(&self, glyph: u64)
        requires
            self.wf(),
            self@.glyphs.contains_key(glyph),
            self@.glyphs[glyph] is Some,
        ensures
            self@.glyphs[glyph].unwrap().fits(self@.texture_size),
            self@.glyphs[glyph].unwrap().tex_coords.0 + self@.glyphs[glyph].unwrap().tex_size.0
                <= MAX_ATLAS_SIDE,
            self@.glyphs[glyph].unwrap().tex_coords.1 + self@.glyphs[glyph].unwrap().tex_size.1
                <= MAX_ATLAS_SIDE,
    {
    }

    /// Doubles the texture.
    fn grow_texture(&mut self)
        requires
            old(self).wf(),
            2 * old(self).texture_size.0 <= MAX_ATLAS_SIDE,
            2 * old(self).texture_size.1 <= MAX_ATLAS_SIDE,
        ensures
            final(self).wf(),
            final(self)@ == (AtlasView {
                texture_size: (
                    (2 * old(self)@.texture_size.0) as u32,
                    (2 * old(self)@.texture_size.1) as u32,
                ),
                ..old(self)@
            }),
            final(self).layer.rects() == old(self).layer.rects(),
            final(self).calls() == old(self).calls().push(
                AtlasCall::Grown {
                    width: 2 * old(self)@.texture_size.0,
                    height: 2 * old(self)@.texture_size.1,
                },
            ),
    {
        let new_size: (u32, u32) = (self.texture_size.0 * 2, self.texture_size.1 * 2);
        self.config_uniform.texture_width = new_size.0;
        self.config_uniform.texture_height = new_size.1;
        self.texture_size = new_size;
        self.layer.grow(new_size);
    }

    /// Enters a glyph whose bitmap has the given placement. A glyph without
    /// a bitmap is noted as such. A glyph that cannot be entered at all is
    /// turned down at once, and nothing changes. Any other glyph is given
    /// a rectangle of its bitmap's size plus the shadow on every side: the one
    /// that the allocator hands out in the texture as it stands, if there is
    /// one; else the texture is doubled, as long as the allocator finds no room
    /// and the texture can still be doubled.
    pub fn insert_glyph(&mut self, glyph: u64, placement: Placement) -> (upload: GlyphUpload)
        requires
            old(self).wf(),
        ensures
            final(self).wf(),
            final(self)@.shadow_width == old(self)@.shadow_width,
            exists|times: nat|
                doubled(old(self)@.texture_size, times) == (
                    final(self)@.texture_size.0 as int,
                    final(self)@.texture_size.1 as int,
                ),
            upload is Empty <==> placement.width == 0 || placement.height == 0,
            upload is Empty ==> final(self).calls() == old(self).calls(),
            placement.width != 0 && placement.height != 0 && !old(self).can_place(placement) ==> upload
                == (GlyphUpload::TooLarge { grown_from: None }) && final(self)@ == old(self)@
                && final(self).calls() == old(self).calls(),
            placement.width != 0 && placement.height != 0 && old(self).can_place(placement) ==> {
                let (calls, size, item) = entered(
                    old(self).calls(),
                    old(self)@.texture_size,
                    placement,
                    old(self)@.shadow_width,
                );
                &&& final(self).calls() == calls
                &&& final(self)@.texture_size == size
                &&& match item {
                    Some(item) => upload matches GlyphUpload::Placed { item: placed, .. } && placed
                        == item,
                    None => upload is TooLarge,
                }
            },
            placement.width != 0 && placement.height != 0 && old(self).can_place(placement)
                ==> match old(self).item_at_hand(placement) {
                Some(found) => upload == (GlyphUpload::Placed { item: found, grown_from: None }),
                None => {
                    &&& old(self)@.can_double() ==> final(self)@.texture_size != old(
                        self,
                    )@.texture_size
                    &&& upload is TooLarge ==> !final(self)@.can_double()
                },
            },
            match upload {
                GlyphUpload::Empty => {
                    &&& placement.width == 0 || placement.height == 0
                    &&& final(self)@ == (AtlasView {
                        glyphs: old(self)@.glyphs.insert(glyph, None),
                        ..old(self)@
                    })
                },
                GlyphUpload::Placed { item, grown_from } => {
                    &&& placement.width != 0 && placement.height != 0
                    &&& GlyphLayer::askable(placement, old(self)@.shadow_width)
                    &&& item == GlyphItem::of(
                        placement,
                        item.rect,
                        item.allocation,
                        old(self)@.shadow_width,
                    )
                    &&& item.fits(final(self)@.texture_size)
                    &&& final(self)@.glyphs == old(self)@.glyphs.insert(glyph, Some(item))
                    &&& final(self)@.pending == old(self)@.pending.push(item)
                    &&& grown_from == if final(self)@.texture_size == old(self)@.texture_size {
                        None
                    } else {
                        Some(old(self)@.texture_size)
                    }
                },
                GlyphUpload::TooLarge { grown_from } => {
                    &&& placement.width != 0 && placement.height != 0
                    &&& !GlyphLayer::askable(placement, old(self)@.shadow_width) ==> grown_from is None
                    &&& final(self)@.glyphs == old(self)@.glyphs
                    &&& final(self)@.pending == old(self)@.pending
                    &&& grown_from == if final(self)@.texture_size == old(self)@.texture_size {
                        None
                    } else {
                        Some(old(self)@.texture_size)
                    }
                },
            },
    {
        if placement.width == 0 || placement.height == 0 {
            keep_glyph(&mut self.glyphs, glyph, None);
            assert(doubled(old(self)@.texture_size, 0) == (
                self@.texture_size.0 as int,
                self@.texture_size.1 as int,
            ));
            return GlyphUpload::Empty;
        }
        let before: (u32, u32) = self.texture_size;
        let ghost mut times: nat = 0;
        if !GlyphLayer::can_ask(placement, self.shadow_width) || self.shadow.glyphs()
            >= MAX_GLYPHS as usize {
            assert(doubled(before, 0) == (before.0 as int, before.1 as int));
            return GlyphUpload::TooLarge { grown_from: None };
        }
        loop
            invariant
                self.wf(),
                old(self).can_place(placement),
                times == 0 ==> self.layer == old(self).layer,
                times > 0 ==> old(self).item_at_hand(placement) is None,
                entered(
                    old(self).calls(),
                    before,
                    placement,
                    old(self)@.shadow_width,
                ) == entered(self.calls(), self@.texture_size, placement, old(self)@.shadow_width),
                placement.width != 0 && placement.height != 0,
                GlyphLayer::askable(placement, old(self)@.shadow_width),
                before == old(self)@.texture_size,
                self@.shadow_width == old(self)@.shadow_width,
                self@.glyphs == old(self)@.glyphs,
                self@.pending == old(self)@.pending,
                doubled(before, times) == (self@.texture_size.0 as int, self@.texture_size.1 as int),
                self@.texture_size.0 >= before.0,
                self@.texture_size.1 >= before.1,
                self@.texture_size == before ==> times == 0,
            decreases 2 * MAX_ATLAS_SIDE - self@.texture_size.0 - self@.texture_size.1,
        {
            let grown_from: Option<(u32, u32)> = if self.texture_size.0 == before.0
                && self.texture_size.1 == before.1 {
                None
            } else {
                Some(before)
            };
            let ghost earlier = self.layer.rects();
            let ghost held_before = self.glyphs@;
            let found: Option<GlyphItem> = self.layer.new_item(placement, self.shadow_width);
            if let Some(item) = found {
                let ghost rects = self.layer.rects();
                self.shadow.new_glyph(&item);
                keep_glyph(&mut self.glyphs, glyph, Some(item));
                proof {
                    assert(rects == earlier.push(item.rect));
                    assert forall|key: u64| #[trigger]
                        self.glyphs@.contains_key(key) implies (self.glyphs@[key] matches Some(held)
                        ==> rects.contains(held.rect)) by {
                        if key != glyph {
                            assert(held_before.contains_key(key));
                            if let Some(held) = self.glyphs@[key] {
                                assert(earlier.contains(held.rect));
                                let at = choose|at: int| 0 <= at < earlier.len() && earlier[at] == held.rect;
                                assert(rects[at] == held.rect);
                            }
                        } else {
                            assert(rects[rects.len() - 1] == item.rect);
                        }
                    }
                    assert forall|first: u64, second: u64|
                        first != second && #[trigger] self.glyphs@.contains_key(first)
                            && #[trigger] self.glyphs@.contains_key(second) implies (
                    self.glyphs@[first] matches Some(a) ==> (self.glyphs@[second] matches Some(b)
                        ==> a.rect.apart(b.rect))) by {
                        if let Some(a) = self.glyphs@[first] {
                            if let Some(b) = self.glyphs@[second] {
                                if first == glyph {
                                    assert(held_before.contains_key(second));
                                    assert(earlier.contains(b.rect));
                                    let at = choose|at: int| 0 <= at < earlier.len() && earlier[at] == b.rect;
                                    assert(item.rect.apart(earlier[at]));
                                } else if second == glyph {
                                    assert(held_before.contains_key(first));
                                    assert(earlier.contains(a.rect));
                                    let at = choose|at: int| 0 <= at < earlier.len() && earlier[at] == a.rect;
                                    assert(item.rect.apart(earlier[at]));
                                } else {
                                    assert(held_before.contains_key(first));
                                    assert(held_before.contains_key(second));
                                }
                            }
                        }
                    }
                }
                return GlyphUpload::Placed { item, grown_from };
            }
            if self.texture_size.0 > MAX_ATLAS_SIDE / 2 || self.texture_size.1 > MAX_ATLAS_SIDE / 2
                || (self.texture_size.0 == 0 && self.texture_size.1 == 0) {
                return GlyphUpload::TooLarge { grown_from };
            }
            self.grow_texture();
            proof {
                times = times + 1;
            }
        }
    }

    /// Takes the glyphs whose shadow is to be drawn: their number and the
    /// corners of their quads. `None` when no glyph waits.
    pub fn flush(&mut self) -> (batch: Option<(u32, Vec<super::glyph_shadow::Vertex>)>)
        requires
            old(self).wf(),
        ensures
            final(self).wf(),
            final(self)@ == (AtlasView { pending: Seq::empty(), ..old(self)@ }),
            final(self).calls() == old(self).calls(),
            match batch {
                Some((glyphs, vertexs)) => glyphs == old(self)@.pending.len() && glyphs > 0
                    && glyphs <= MAX_GLYPHS && vertexs@.map_values(|vertex: super::glyph_shadow::Vertex| vertex.at())
                    == super::glyph_shadow::shadow_corners(old(self)@.pending),
                None => old(self)@.pending.len() == 0,
            },
    {
        let glyphs: usize = self.shadow.glyphs();
        if glyphs == 0 {
            assert(self@.pending =~= Seq::empty());
            return None;
        }
        let mut fresh = GlyphShadow::new();
        std::mem::swap(&mut self.shadow, &mut fresh);
        Some((glyphs as u32, fresh.into_vertexs()))
    }

    /// Forgets every glyph.
    pub fn clear(&mut self)
        requires
            old(self).wf(),
        ensures
            final(self).wf(),
            final(self)@ == (AtlasView {
                glyphs: Map::empty(),
                pending: Seq::empty(),
                ..old(self)@
            }),
            final(self).calls() == old(self).calls().push(AtlasCall::Cleared),
    {
        self.glyphs.clear();
        self.shadow.clear();
        self.layer.clear();
    }

    /// Takes a new shadow width for the glyphs to come. The glyphs that are
    /// there keep the border they were entered with, so they are to be
    /// forgotten first.
    pub fn new_param(&mut self, shadow_width: u32)
        requires
            old(self).wf(),
        ensures
            final(self).wf(),
            final(self)@ == (AtlasView { shadow_width, ..old(self)@ }),
            final(self).calls() == old(self).calls(),
    {
        self.shadow_width = shadow_width;
    }
}

} // verus!
