//! The indices that turn four vertices into the two triangles of a quad.

use super::config::{machine_bytes, words_as_bytes};
use vstd::prelude::*;

verus! {

/// The index at place `at` of the index table: each glyph is a quad of four
/// vertices, drawn as the triangles `0, 2, 1` and `1, 2, 3`.
pub open spec fn quad_index(at: int) -> int {
    let glyph = at / 6;
    let corner = at % 6;
    4 * glyph + if corner == 0 {
        0int
    } else if corner == 1 || corner == 4 {
        2
    } else if corner == 2 || corner == 3 {
        1
    } else {
        3
    }
}

/// The index table for `glyphs` glyphs.
pub open spec fn quad_indices(glyphs: nat) -> Seq<u32> {
    Seq::new(6 * glyphs, |at: int| quad_index(at) as u32)
}

/// The indices of the glyph quads, shared by all vertex tables and grown as needed.
pub struct IndexBuffer {
    cache: Vec<u32>,
}

impl View for IndexBuffer {
    type V = Seq<u32>;

    closed spec fn view(&self) -> Seq<u32> {
        self.cache@
    }
}

/// The most glyphs whose vertices 32-bit indices can tell apart.
pub const MAX_GLYPHS: u32 = 0x3FFF_FFFF;

impl Default for IndexBuffer {
    fn default() -> (buffer: Self)
        ensures
            buffer.wf(),
            buffer.glyphs() == 0,
    {
        let buffer = IndexBuffer { cache: Vec::new() };
        assert(buffer@ =~= quad_indices(0));
        buffer
    }
}

impl IndexBuffer {
    /// The number of glyphs whose indices are in the table.
    pub closed spec fn glyphs(&self) -> nat {
        self.cache@.len() / 6
    }

    /// The table holds the indices of a whole number of quads.
    pub closed spec fn wf(&self) -> bool {
        &&& self.cache@.len() % 6 == 0
        &&& self.cache@.len() / 6 <= MAX_GLYPHS
        &&& self.cache@ == quad_indices(self.cache@.len() / 6)
    }

    /// A table without indices is the table for no glyph.
    pub proof fn lemma_empty(&self)
        requires
            self.wf(),
            self.glyphs() == 0,
        ensures
            self@ == Seq::<u32>::empty(),
    {
        assert(self@ =~= Seq::<u32>::empty());
    }

    /// The table has six indices for each glyph.
    pub proof fn lemma_glyphs(&self)
        requires
            self.wf(),
        ensures
            self@.len() == 6 * self.glyphs(),
            self.glyphs() <= MAX_GLYPHS,
    {
    }

    /// Makes sure that the table has the indices of `glyphs` glyphs. Tells
    /// whether the table grew, so that it has to be handed to the GPU again.
    pub fn ensure_size(&mut self, glyphs: u32) -> (grew: bool)
        requires
            old(self).wf(),
            glyphs <= MAX_GLYPHS,
        ensures
            final(self).wf(),
            final(self).glyphs() == if old(self).glyphs() >= glyphs {
                old(self).glyphs()
            } else {
                glyphs as nat
            },
            final(self)@ == quad_indices(final(self).glyphs()),
            grew == (old(self).glyphs() < glyphs),
    {
        if glyphs == 0 {
            return false;
        }
        let cached_glyphs: usize = self.cache.len() / 6;
        if cached_glyphs >= glyphs as usize {
            return false;
        }
        let mut index: u32 = cached_glyphs as u32;
        while index < glyphs
            invariant
                index <= glyphs <= MAX_GLYPHS,
                self.cache@.len() == 6 * index,
                forall|at: int| 0 <= at < self.cache@.len() ==> self.cache@[at] == quad_index(at) as u32,
            decreases glyphs - index,
        {
            let start: u32 = index * 4;
            let ghost before = self.cache@;
            self.cache.push(start);
            self.cache.push(start + 2);
            self.cache.push(start + 1);
            self.cache.push(start + 1);
            self.cache.push(start + 2);
            self.cache.push(start + 3);
            assert forall|at: int| 0 <= at < self.cache@.len() implies self.cache@[at] == quad_index(
                at,
            ) as u32 by {
                if at < before.len() {
                    assert(self.cache@[at] == before[at]);
                } else {
                    assert(at / 6 == index && at % 6 == at - 6 * index);
                }
            }
            index += 1;
        }
        assert(self.cache@ =~= quad_indices(glyphs as nat));
        true
    }

    /// The table itself.
    pub fn indices(&self) -> (indices: &Vec<u32>)
        ensures
            indices@ == self@,
    {
        &self.cache
    }

    /// The table as the bytes that go to the GPU.
    pub fn contents(&self) -> (bytes: Vec<u8>)
        ensures
            bytes@.len() == 4 * self@.len(),
            machine_bytes(self@, bytes@),
    {
        words_as_bytes(self.cache.as_slice())
    }

    /// How many bytes of the table the indices of `glyphs` glyphs take: six
    /// indices of four bytes each.
    pub fn buffer_slice(&self, glyphs: u32) -> (bytes: u64)
        requires
            self.wf(),
            glyphs <= self.glyphs(),
        ensures
            bytes == 24 * glyphs,
    {
        glyphs as u64 * 6 * 4
    }
}

} // verus!
