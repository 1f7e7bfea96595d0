//! The quads over which the shadows of new glyphs are drawn.

use super::glyph_atlas::GlyphItem;
use vstd::prelude::*;

verus! {

/// A corner of the quad over which the shadow of a glyph is drawn.
#[derive(PartialEq, Eq, Clone, Copy, Debug)]
pub struct Vertex {
    pub position: [u32; 2],
}

/// The four corners of a glyph's rectangle: top left, top right, bottom left,
/// bottom right.
pub open spec fn corners(tex_coords: (u32, u32), tex_size: (u32, u32)) -> Seq<(int, int)> {
    seq![
        (tex_coords.0 as int, tex_coords.1 as int),
        (tex_coords.0 + tex_size.0, tex_coords.1 as int),
        (tex_coords.0 as int, tex_coords.1 + tex_size.1),
        (tex_coords.0 + tex_size.0, tex_coords.1 + tex_size.1),
    ]
}

impl Vertex {
    pub open spec fn at(self) -> (int, int) {
        (self.position[0] as int, self.position[1] as int)
    }

    pub fn new(tex_coords: (u32, u32), tex_size: (u32, u32)) -> (quad: [Vertex; 4])
        requires
            tex_coords.0 + tex_size.0 <= u32::MAX,
            tex_coords.1 + tex_size.1 <= u32::MAX,
        ensures
            quad@.map_values(|vertex: Vertex| vertex.at()) == corners(tex_coords, tex_size),
    {
        let top_left = Vertex { position: [tex_coords.0, tex_coords.1] };
        let top_right = Vertex { position: [tex_coords.0 + tex_size.0, tex_coords.1] };
        let bottom_left = Vertex { position: [tex_coords.0, tex_coords.1 + tex_size.1] };
        let bottom_right = Vertex {
            position: [tex_coords.0 + tex_size.0, tex_coords.1 + tex_size.1],
        };
        let quad = [top_left, top_right, bottom_left, bottom_right];
        assert(quad@.map_values(|vertex: Vertex| vertex.at()) =~= corners(tex_coords, tex_size));
        quad
    }
}

/// The quads of the glyphs whose shadow is still to be drawn.
pub struct GlyphShadow {
    vertexs: Vec<Vertex>,
    pending: Ghost<Seq<GlyphItem>>,
}

/// The corners of the glyphs in `items`, glyph by glyph.
pub open spec fn shadow_corners(items: Seq<GlyphItem>) -> Seq<(int, int)>
    decreases items.len(),
{
    if items.len() == 0 {
        Seq::empty()
    } else {
        shadow_corners(items.drop_last()) + corners(items.last().tex_coords, items.last().tex_size)
    }
}

proof fn lemma_shadow_corners_len(items: Seq<GlyphItem>)
    ensures
        shadow_corners(items).len() == 4 * items.len(),
    decreases items.len(),
{
    if items.len() > 0 {
        lemma_shadow_corners_len(items.drop_last());
    }
}

impl View for GlyphShadow {
    type V = Seq<GlyphItem>;

    /// The glyphs that wait for their shadow.
    closed spec fn view(&self) -> Seq<GlyphItem> {
        self.pending@
    }
}

impl GlyphShadow {
    /// Four corners for each glyph that waits.
    pub closed spec fn wf(&self) -> bool {
        self.vertexs@.map_values(|vertex: Vertex| vertex.at()) == shadow_corners(self.pending@)
    }

    pub fn new() -> (shadow: Self)
        ensures
            shadow.wf(),
            shadow@ == Seq::<GlyphItem>::empty(),
    {
        let shadow = GlyphShadow { vertexs: Vec::new(), pending: Ghost(Seq::empty()) };
        assert(shadow.vertexs@.map_values(|vertex: Vertex| vertex.at()) =~= shadow_corners(
            Seq::empty(),
        ));
        shadow
    }

    /// Nothing waits any more.
    pub fn clear(&mut self)
        ensures
            final(self).wf(),
            final(self)@ == Seq::<GlyphItem>::empty(),
    {
        self.vertexs.clear();
        self.pending = Ghost(Seq::empty());
        assert(self.vertexs@.map_values(|vertex: Vertex| vertex.at()) =~= shadow_corners(
            Seq::empty(),
        ));
    }

    /// Notes a glyph that was put into the atlas.
    pub fn new_glyph(&mut self, item: &GlyphItem)
        requires
            old(self).wf(),
            item.tex_coords.0 + item.tex_size.0 <= u32::MAX,
            item.tex_coords.1 + item.tex_size.1 <= u32::MAX,
        ensures
            final(self).wf(),
            final(self)@ == old(self)@.push(*item),
    {
        let quad = Vertex::new(item.tex_coords, item.tex_size);
        let ghost before = self.vertexs@;
        self.vertexs.push(quad[0]);
        self.vertexs.push(quad[1]);
        self.vertexs.push(quad[2]);
        self.vertexs.push(quad[3]);
        self.pending = Ghost(self.pending@.push(*item));
        proof {
            assert(self.pending@.drop_last() =~= old(self).pending@);
            assert(self.vertexs@ =~= before + quad@);
            assert(self.vertexs@.map_values(|vertex: Vertex| vertex.at()) =~= before.map_values(
                |vertex: Vertex| vertex.at(),
            ) + quad@.map_values(|vertex: Vertex| vertex.at()));
        }
    }

    /// The number of glyphs that wait, and the corners of their quads.
    pub fn glyphs(&self) -> (count: usize)
        requires
            self.wf(),
        ensures
            count == self@.len(),
    {
        proof {
            lemma_shadow_corners_len(self.pending@);
        }
        self.vertexs.len() / 4
    }

    /// Gives the corners of the quads away.
    pub fn into_vertexs(self) -> (vertexs: Vec<Vertex>)
        requires
            self.wf(),
        ensures
            vertexs@.map_values(|vertex: Vertex| vertex.at()) == shadow_corners(self@),
    {
        self.vertexs
    }

    /// The corners of the quads to draw, four for each glyph that waits.
    pub fn vertexs(&self) -> (vertexs: &Vec<Vertex>)
        requires
            self.wf(),
        ensures
            vertexs@.map_values(|vertex: Vertex| vertex.at()) == shadow_corners(self@),
    {
        &self.vertexs
    }
}

} // verus!
