//! The room of the atlas texture, given out by a shelf allocator.

use etagere::BucketedAtlasAllocator;
use vstd::prelude::*;

verus! {

/// Makes `BucketedAtlasAllocator` known to the verifier, which sees nothing of what a value holds.
#[verifier::external_type_specification]
#[verifier::external_body]
pub struct ExBucketedAtlasAllocator(BucketedAtlasAllocator);

/// A rectangle of the atlas, in texels: `min` is inside, `max` is outside.
#[derive(PartialEq, Eq, Structural, Clone, Copy, Debug)]
pub struct AtlasRect {
    pub min_x: i32,
    pub min_y: i32,
    pub max_x: i32,
    pub max_y: i32,
}

impl AtlasRect {
    /// Whether two rectangles have no texel in common.
    pub open spec fn apart(self, other: AtlasRect) -> bool {
        ||| self.max_x <= other.min_x
        ||| other.max_x <= self.min_x
        ||| self.max_y <= other.min_y
        ||| other.max_y <= self.min_y
    }

    /// Whether the rectangle lies in an atlas of the given size.
    pub open spec fn within(self, size: (int, int)) -> bool {
        &&& 0 <= self.min_x <= self.max_x <= size.0
        &&& 0 <= self.min_y <= self.max_y <= size.1
    }
}

/// The rectangles that the allocator has handed out since it was made or
/// last cleared, in the order in which it handed them out.
pub uninterp spec fn atlas_rects(allocator: BucketedAtlasAllocator) -> Seq<AtlasRect>;

/// The width and the height of the surface that the allocator manages.
pub uninterp spec fn atlas_size(allocator: BucketedAtlasAllocator) -> (int, int);

/// A call that an allocator took.
pub ghost enum AtlasCall {
    /// It was made for a surface of this size.
    Made { width: int, height: int },
    /// Its surface was made larger, to this size.
    Grown { width: int, height: int },
    /// It was asked for room for an item of this size.
    Asked { width: int, height: int },
    /// It gave up everything that it had handed out.
    Cleared,
}

/// The calls that the allocator took since it was made, the making included,
/// in order.
pub uninterp spec fn atlas_calls(allocator: BucketedAtlasAllocator) -> Seq<AtlasCall>;

/// What an allocator that took the given calls hands out when it is then
/// asked for room for an item of the given size: a rectangle and its number
/// for it, or nothing. The allocator works its answer out from its shelves,
/// which are what the calls made them, and from the size, and from nothing
/// else.
pub uninterp spec fn atlas_offer(calls: Seq<AtlasCall>, width: int, height: int) -> Option<
    (AtlasRect, u32),
>;

/// The largest side of an atlas: eight doublings of 128.
pub const MAX_ATLAS_SIDE: u32 = 32768;

/// `BucketedAtlasAllocator::new`: an allocator for an empty surface of the
/// given size. The sizes that it takes are below 65535.
#[verifier::external_body]
fn new_allocator(width: u32, height: u32) -> (allocator: BucketedAtlasAllocator)
    requires
        width <= MAX_ATLAS_SIDE,
        height <= MAX_ATLAS_SIDE,
    ensures
        atlas_size(allocator) == (width as int, height as int),
        atlas_rects(allocator) == Seq::<AtlasRect>::empty(),
        atlas_calls(allocator) == seq![
            AtlasCall::Made { width: width as int, height: height as int },
        ],
{
    BucketedAtlasAllocator::new(etagere::size2(width as i32, height as i32))
}

/// `BucketedAtlasAllocator::grow`: the surface becomes larger, and what was
/// handed out stays where it is. The new size must not be smaller than the old
/// one in either direction.
#[verifier::external_body]
fn grow_allocator(allocator: &mut BucketedAtlasAllocator, width: u32, height: u32)
    requires
        width <= MAX_ATLAS_SIDE,
        height <= MAX_ATLAS_SIDE,
        atlas_size(*old(allocator)).0 <= width,
        atlas_size(*old(allocator)).1 <= height,
    ensures
        atlas_size(*final(allocator)) == (width as int, height as int),
        atlas_rects(*final(allocator)) == atlas_rects(*old(allocator)),
        atlas_calls(*final(allocator)) == atlas_calls(*old(allocator)).push(
            AtlasCall::Grown { width: width as int, height: height as int },
        ),
{
    allocator.grow(etagere::size2(width as i32, height as i32))
}

/// `BucketedAtlasAllocator::clear`: everything that was handed out is given up.
#[verifier::external_body]
fn clear_allocator(allocator: &mut BucketedAtlasAllocator)
    ensures
        atlas_size(*final(allocator)) == atlas_size(*old(allocator)),
        atlas_rects(*final(allocator)) == Seq::<AtlasRect>::empty(),
        atlas_calls(*final(allocator)) == atlas_calls(*old(allocator)).push(AtlasCall::Cleared),
{
    allocator.clear()
}

/// `BucketedAtlasAllocator::allocate`: a rectangle of the surface for an item
/// of the given size, if the allocator finds room for one. The rectangle is
/// as wide as asked for and at least as high, lies on the surface, and has no
/// texel in common with any rectangle handed out before. Which rectangle it
/// is, and whether there is one, is worked out from the shelves of the
/// allocator and the size asked for alone, and the shelves are what the calls
/// before made them. The allocator is never asked to take a rectangle back,
/// so none of its shelves falls empty.
#[verifier::external_body]
fn allocate(allocator: &mut BucketedAtlasAllocator, width: i32, height: i32) -> (found: Option<
    (AtlasRect, u32),
>)
    ensures
        found == atlas_offer(atlas_calls(*old(allocator)), width as int, height as int),
        atlas_calls(*final(allocator)) == atlas_calls(*old(allocator)).push(
            AtlasCall::Asked { width: width as int, height: height as int },
        ),
        atlas_size(*final(allocator)) == atlas_size(*old(allocator)),
        match found {
            Some((rect, _)) => {
                &&& atlas_rects(*final(allocator)) == atlas_rects(*old(allocator)).push(rect)
                &&& rect.within(atlas_size(*old(allocator)))
                &&& rect.max_x - rect.min_x == width
                &&& rect.max_y - rect.min_y >= height
                &&& width > 0
                &&& height > 0
                &&& forall|i: int|
                    0 <= i < atlas_rects(*old(allocator)).len() ==> rect.apart(
                        #[trigger] atlas_rects(*old(allocator))[i],
                    )
            },
            None => atlas_rects(*final(allocator)) == atlas_rects(*old(allocator)),
        },
{
    allocator.allocate(etagere::size2(width, height)).map(
        |found|
            (
                AtlasRect {
                    min_x: found.rectangle.min.x,
                    min_y: found.rectangle.min.y,
                    max_x: found.rectangle.max.x,
                    max_y: found.rectangle.max.y,
                },
                found.id.serialize(),
            ),
    )
}

/// Where the bitmap of a glyph lies relative to the glyph's origin, and how large it is.
#[derive(PartialEq, Eq, Structural, Clone, Copy, Debug)]
pub struct Placement {
    pub left: i32,
    pub top: i32,
    pub width: u32,
    pub height: u32,
}

/// A glyph in the atlas.
#[derive(PartialEq, Eq, Clone, Copy, Debug)]
pub struct GlyphItem {
    /// The placement of the glyph's bitmap, widened by the shadow on every side.
    pub placement: Placement,
    /// The corner of the glyph's rectangle in the atlas.
    pub tex_coords: (u32, u32),
    /// The size of the bitmap with its shadow.
    pub tex_size: (u32, u32),
    /// The rectangle of the atlas that was set aside for the glyph.
    pub rect: AtlasRect,
    /// The allocator's number for the rectangle.
    pub allocation: u32,
}

impl GlyphItem {
    /// The item of a bitmap with the given placement, put into `rect` with
    /// a shadow of `shadow_width` texels round it.
    pub open spec fn of(placement: Placement, rect: AtlasRect, allocation: u32, shadow_width: u32) -> GlyphItem {
        GlyphItem {
            placement: Placement {
                left: (placement.left - shadow_width) as i32,
                top: (placement.top + shadow_width) as i32,
                width: (placement.width + 2 * shadow_width) as u32,
                height: (placement.height + 2 * shadow_width) as u32,
            },
            tex_coords: (rect.min_x as u32, rect.min_y as u32),
            tex_size: (
                (placement.width + 2 * shadow_width) as u32,
                (placement.height + 2 * shadow_width) as u32,
            ),
            rect,
            allocation,
        }
    }

    /// The item lies in a texture of the given size, shadow and all.
    pub open spec fn fits(self, texture_size: (u32, u32)) -> bool {
        &&& self.rect.within((texture_size.0 as int, texture_size.1 as int))
        &&& self.tex_coords == (self.rect.min_x as u32, self.rect.min_y as u32)
        &&& self.tex_size == (self.placement.width, self.placement.height)
        &&& self.tex_size.0 == self.rect.max_x - self.rect.min_x
        &&& self.tex_size.1 <= self.rect.max_y - self.rect.min_y
        &&& self.tex_size.0 > 0
        &&& self.tex_size.1 > 0
    }

    /// Where the bitmap itself goes: inside the shadow.
    pub fn bitmap_origin(&self, shadow_width: u32) -> (origin: (u32, u32))
        requires
            self.tex_coords.0 + shadow_width <= u32::MAX,
            self.tex_coords.1 + shadow_width <= u32::MAX,
        ensures
            origin.0 == self.tex_coords.0 + shadow_width,
            origin.1 == self.tex_coords.1 + shadow_width,
    {
        (self.tex_coords.0 + shadow_width, self.tex_coords.1 + shadow_width)
    }
}

/// The room of a texture, given out glyph by glyph.
pub struct GlyphLayer {
    allocator: BucketedAtlasAllocator,
}

impl GlyphLayer {
    /// The rectangles given out so far.
    pub closed spec fn rects(&self) -> Seq<AtlasRect> {
        atlas_rects(self.allocator)
    }

    /// The size of the texture.
    pub closed spec fn size(&self) -> (int, int) {
        atlas_size(self.allocator)
    }

    /// The calls that the allocator of the layer took.
    pub closed spec fn calls(&self) -> Seq<AtlasCall> {
        atlas_calls(self.allocator)
    }

    /// What the allocator of the layer hands out for an item of the given size.
    pub open spec fn offer(&self, width: int, height: int) -> Option<(AtlasRect, u32)> {
        atlas_offer(self.calls(), width, height)
    }

    pub fn new(texture_size: (u32, u32)) -> (layer: Self)
        requires
            texture_size.0 <= MAX_ATLAS_SIDE,
            texture_size.1 <= MAX_ATLAS_SIDE,
        ensures
            layer.size() == (texture_size.0 as int, texture_size.1 as int),
            layer.rects() == Seq::<AtlasRect>::empty(),
            layer.calls() == seq![
                AtlasCall::Made { width: texture_size.0 as int, height: texture_size.1 as int },
            ],
    {
        GlyphLayer { allocator: new_allocator(texture_size.0, texture_size.1) }
    }

    pub fn grow(&mut self, new_size: (u32, u32))
        requires
            new_size.0 <= MAX_ATLAS_SIDE,
            new_size.1 <= MAX_ATLAS_SIDE,
            old(self).size().0 <= new_size.0,
            old(self).size().1 <= new_size.1,
        ensures
            final(self).size() == (new_size.0 as int, new_size.1 as int),
            final(self).rects() == old(self).rects(),
            final(self).calls() == old(self).calls().push(
                AtlasCall::Grown { width: new_size.0 as int, height: new_size.1 as int },
            ),
    {
        grow_allocator(&mut self.allocator, new_size.0, new_size.1)
    }

    pub fn clear(&mut self)
        ensures
            final(self).size() == old(self).size(),
            final(self).rects() == Seq::<AtlasRect>::empty(),
            final(self).calls() == old(self).calls().push(AtlasCall::Cleared),
    {
        clear_allocator(&mut self.allocator)
    }

    /// Whether a bitmap with its shadow can be asked room for at all: its
    /// size and its moved placement are numbers that the tables can hold.
    pub open spec fn askable(placement: Placement, shadow_width: u32) -> bool {
        &&& placement.width + 2 * shadow_width <= MAX_ATLAS_SIDE
        &&& placement.height + 2 * shadow_width <= MAX_ATLAS_SIDE
        &&& i32::MIN <= placement.left - shadow_width
        &&& placement.top + shadow_width <= i32::MAX
    }

    /// Tells whether room can be asked for a bitmap at all.
    pub fn can_ask(placement: Placement, shadow_width: u32) -> (askable: bool)
        ensures
            askable == Self::askable(placement, shadow_width),
    {
        if shadow_width > MAX_ATLAS_SIDE || placement.width > MAX_ATLAS_SIDE || placement.height
            > MAX_ATLAS_SIDE {
            return false;
        }
        placement.width + 2 * shadow_width <= MAX_ATLAS_SIDE && placement.height + 2 * shadow_width
            <= MAX_ATLAS_SIDE && placement.left as i64 - shadow_width as i64 >= -0x8000_0000
            && placement.top as i64 + shadow_width as i64 <= 0x7FFF_FFFF
    }

    /// The glyph item that an answer of the allocator makes: none if room
    /// cannot be asked for the bitmap at all, none if the allocator found no
    /// room or a rectangle that begins off the surface, else the item of the
    /// bitmap in the rectangle that was found.
    pub open spec fn item_of(placement: Placement, shadow_width: u32, found: Option<(AtlasRect, u32)>) -> Option<
        GlyphItem,
    > {
        match found {
            Some((rect, allocation)) => if Self::askable(placement, shadow_width) && rect.min_x >= 0
                && rect.min_y >= 0 {
                Some(GlyphItem::of(placement, rect, allocation, shadow_width))
            } else {
                None
            },
            None => None,
        }
    }

    /// Makes the glyph item of a bitmap from what the allocator answered.
    pub fn item_for(placement: Placement, shadow_width: u32, found: Option<(AtlasRect, u32)>) -> (item: Option<
        GlyphItem,
    >)
        ensures
            item == Self::item_of(placement, shadow_width, found),
    {
        let (rect, allocation) = match found {
            Some(found) => found,
            None => {
                return None;
            },
        };
        if !Self::can_ask(placement, shadow_width) || rect.min_x < 0 || rect.min_y < 0 {
            return None;
        }
        let width: u32 = placement.width + 2 * shadow_width;
        let height: u32 = placement.height + 2 * shadow_width;
        let left: i64 = placement.left as i64 - shadow_width as i64;
        let top: i64 = placement.top as i64 + shadow_width as i64;
        Some(
            GlyphItem {
                placement: Placement { left: left as i32, top: top as i32, width, height },
                tex_coords: (rect.min_x as u32, rect.min_y as u32),
                tex_size: (width, height),
                rect,
                allocation,
            },
        )
    }

    /// Finds room for the bitmap of a glyph with a shadow of `shadow_width`
    /// texels on every side. If room can be asked for the bitmap at all, the
    /// allocator is asked for a rectangle of the bitmap's size plus twice the
    /// shadow in either direction, and its answer decides; else there is no item
    /// and the allocator is not asked.
    pub fn new_item(&mut self, placement: Placement, shadow_width: u32) -> (item: Option<GlyphItem>)
        requires
            old(self).size().0 <= MAX_ATLAS_SIDE,
            old(self).size().1 <= MAX_ATLAS_SIDE,
        ensures
            item == if Self::askable(placement, shadow_width) {
                Self::item_of(
                    placement,
                    shadow_width,
                    old(self).offer(
                        placement.width + 2 * shadow_width,
                        placement.height + 2 * shadow_width,
                    ),
                )
            } else {
                None
            },
            !Self::askable(placement, shadow_width) ==> final(self).rects() == old(self).rects(),
            final(self).calls() == if Self::askable(placement, shadow_width) {
                old(self).calls().push(
                    AtlasCall::Asked {
                        width: placement.width + 2 * shadow_width,
                        height: placement.height + 2 * shadow_width,
                    },
                )
            } else {
                old(self).calls()
            },
            final(self).size() == old(self).size(),
            match item {
                Some(item) => {
                    &&& Self::askable(placement, shadow_width)
                    &&& final(self).rects() == old(self).rects().push(item.rect)
                    &&& item == GlyphItem::of(placement, item.rect, item.allocation, shadow_width)
                    &&& item.rect.within(old(self).size())
                    &&& item.tex_size.0 == item.rect.max_x - item.rect.min_x
                    &&& item.tex_size.1 <= item.rect.max_y - item.rect.min_y
                    &&& item.tex_size.0 > 0
                    &&& item.tex_size.1 > 0
                    &&& forall|i: int|
                        0 <= i < old(self).rects().len() ==> item.rect.apart(
                            #[trigger] old(self).rects()[i],
                        )
                },
                None => final(self).rects() == old(self).rects(),
            },
    {
        if shadow_width > MAX_ATLAS_SIDE || placement.width > MAX_ATLAS_SIDE || placement.height
            > MAX_ATLAS_SIDE {
            return None;
        }
        let width: u32 = placement.width + 2 * shadow_width;
        let height: u32 = placement.height + 2 * shadow_width;
        if width > MAX_ATLAS_SIDE || height > MAX_ATLAS_SIDE {
            return None;
        }
        let left: i64 = placement.left as i64 - shadow_width as i64;
        let top: i64 = placement.top as i64 + shadow_width as i64;
        if left < -0x8000_0000 || top > 0x7FFF_FFFF {
            return None;
        }
        let found = allocate(&mut self.allocator, width as i32, height as i32);
        Self::item_for(placement, shadow_width, found)
    }
}

} // verus!
