//! The state of the display as drawing clients see it, and the laws that its
//! operations obey.

use vstd::prelude::*;
use crate::geometry::{Pixel, Rectangle};
use crate::raster::{
    lemma_colors_past_area_unused,
    lemma_index_coordinates,
    lemma_index_in_range,
    lemma_paired_prefix,
    lemma_pixels_keep_length,
    lemma_place_of_rank,
    lemma_position_coordinates,
    lemma_scroll_past_height,
    lemma_scroll_there_and_back,
    on_surface,
    pixel_index,
    scrolled,
    uniform,
    with_colors,
    with_pixel,
    with_pixels,
    with_rectangle,
};

verus! {

/// What a display holds: its extent, which of its two stores is shown, and the
/// image in the store that is shown (`front`) and in the one drawn to (`back`).
pub struct DisplayView<P> {
    pub width: int,
    pub height: int,
    pub front_index: int,
    pub front: Seq<P>,
    pub back: Seq<P>,
}

impl<P> DisplayView<P> {
    /// Both stores hold one colour per pixel, and the front index names one of
    /// the two stores.
    pub open spec fn wf(self) -> bool {
        &&& 0 <= self.width
        &&& 0 <= self.height
        &&& (self.front_index == 0 || self.front_index == 1)
        &&& self.front.len() == self.width * self.height
        &&& self.back.len() == self.width * self.height
    }

    /// The same display with another image in the back store.
    pub open spec fn with_back(self, back: Seq<P>) -> Self {
        DisplayView { back, ..self }
    }

    /// The display after one pixel write.
    pub open spec fn draw_pixel(self, x: int, y: int, color: P) -> Self {
        self.with_back(with_pixel(self.back, self.width, self.height, x, y, color))
    }

    /// The display after the pixels were written in the order given.
    pub open spec fn draw_iter(self, pixels: Seq<Pixel<P>>) -> Self {
        self.with_back(with_pixels(self.back, self.width, self.height, pixels))
    }

    /// The display after the places of `area` took the colours of `colors`.
    pub open spec fn fill_contiguous(self, area: Rectangle, colors: Seq<P>) -> Self {
        self.with_back(with_colors(self.back, self.width, area, colors))
    }

    /// The display after `area` was filled with `color`.
    pub open spec fn fill_solid(self, area: Rectangle, color: P) -> Self {
        self.with_back(with_rectangle(self.back, self.width, area, color))
    }

    /// The display after every pixel of the back store was set to `color`.
    pub open spec fn clear(self, color: P) -> Self {
        self.with_back(uniform(self.back.len(), color))
    }

    /// The display after the back store was scrolled by `offset` rows.
    pub open spec fn scroll(self, offset: int, fill: P) -> Self {
        self.with_back(scrolled(self.back, self.width, offset, fill))
    }

    /// The display after a swap: the other store is shown, it holds what was
    /// drawn, and the store now drawn to holds the same image.
    pub open spec fn swap_buffers(self) -> Self {
        DisplayView { front_index: 1 - self.front_index, front: self.back, back: self.back, ..self }
    }
}

/// Drawing goes to the back store only: no drawing operation changes the image
/// that is shown, the roles of the stores, or the extent.
pub proof fn lemma_drawing_keeps_front<P>(
    v: DisplayView<P>,
    x: int,
    y: int,
    color: P,
    pixels: Seq<Pixel<P>>,
    area: Rectangle,
    colors: Seq<P>,
    offset: int,
)
    ensures
        v.draw_pixel(x, y, color) == v.with_back(v.draw_pixel(x, y, color).back),
        v.draw_iter(pixels) == v.with_back(v.draw_iter(pixels).back),
        v.fill_contiguous(area, colors) == v.with_back(v.fill_contiguous(area, colors).back),
        v.fill_solid(area, color) == v.with_back(v.fill_solid(area, color).back),
        v.clear(color) == v.with_back(v.clear(color).back),
        v.scroll(offset, color) == v.with_back(v.scroll(offset, color).back),
{
}

/// Every operation takes a well-formed display to a well-formed display: no
/// store ever changes its size.
pub proof fn lemma_operations_keep_wf<P>(
    v: DisplayView<P>,
    x: int,
    y: int,
    color: P,
    pixels: Seq<Pixel<P>>,
    area: Rectangle,
    colors: Seq<P>,
    offset: int,
)
    requires
        v.wf(),
    ensures
        v.draw_pixel(x, y, color).wf(),
        v.draw_iter(pixels).wf(),
        v.fill_contiguous(area, colors).wf(),
        v.fill_solid(area, color).wf(),
        v.clear(color).wf(),
        v.scroll(offset, color).wf(),
        v.swap_buffers().wf(),
{
    if on_surface(v.width, v.height, x, y) {
        lemma_index_in_range(v.width, v.height, x, y);
    }
    lemma_pixels_keep_length(v.back, v.width, v.height, pixels);
}

/// Right after a swap the front and the back store hold the same image, pixel
/// for pixel.
pub proof fn lemma_swap_leaves_equal_stores<P>(v: DisplayView<P>)
    ensures
        v.swap_buffers().front == v.swap_buffers().back,
        v.swap_buffers().front == v.back,
{
}

/// Two swaps give each store its first role back. The back store holds what it
/// held before, and the front store now shows that image too.
pub proof fn lemma_swap_twice_restores_roles<P>(v: DisplayView<P>)
    requires
        v.wf(),
    ensures
        v.swap_buffers().swap_buffers().front_index == v.front_index,
        v.swap_buffers().swap_buffers().back == v.back,
        v.swap_buffers().swap_buffers().front == v.back,
{
}

/// Where both stores held one image, as they do after any swap, two swaps change
/// nothing at all.
pub proof fn lemma_swap_twice_is_identity<P>(v: DisplayView<P>)
    requires
        v.wf(),
        v.front == v.back,
    ensures
        v.swap_buffers().swap_buffers() == v,
{
}

/// A pixel write off the surface changes nothing.
pub proof fn lemma_draw_pixel_off_surface<P>(v: DisplayView<P>, x: int, y: int, color: P)
    requires
        !on_surface(v.width, v.height, x, y),
    ensures
        v.draw_pixel(x, y, color) == v,
{
}

/// A pixel write on the surface changes the pixel written to and no other.
pub proof fn lemma_draw_pixel_on_surface<P>(
    v: DisplayView<P>,
    x: int,
    y: int,
    color: P,
    other_x: int,
    other_y: int,
)
    requires
        v.wf(),
        on_surface(v.width, v.height, x, y),
        on_surface(v.width, v.height, other_x, other_y),
    ensures
        v.draw_pixel(x, y, color).back[pixel_index(v.width, other_x, other_y)] == if other_x == x
            && other_y == y {
            color
        } else {
            v.back[pixel_index(v.width, other_x, other_y)]
        },
        v.draw_pixel(x, y, color).front == v.front,
{
    lemma_index_in_range(v.width, v.height, x, y);
    lemma_index_in_range(v.width, v.height, other_x, other_y);
    lemma_index_coordinates(v.width, x, y);
    lemma_index_coordinates(v.width, other_x, other_y);
}

/// Filling a rectangle that has no place on the surface changes nothing.
pub proof fn lemma_fill_solid_off_surface<P>(v: DisplayView<P>, area: Rectangle, color: P)
    requires
        v.wf(),
        area.misses(v.width, v.height),
    ensures
        v.fill_solid(area, color) == v,
{
    let filled = with_rectangle(v.back, v.width, area, color);
    assert forall|i: int| 0 <= i < v.back.len() implies filled[i] == v.back[i] by {
        lemma_position_coordinates(v.width, v.height, i);
    }
    assert(filled =~= v.back);
}

/// Filling a rectangle sets the pixels of the surface that lie inside it and
/// leaves every other pixel, and the front store, as they were.
pub proof fn lemma_fill_solid_by_place<P>(
    v: DisplayView<P>,
    area: Rectangle,
    color: P,
    x: int,
    y: int,
)
    requires
        v.wf(),
        on_surface(v.width, v.height, x, y),
    ensures
        v.fill_solid(area, color).back.len() == v.back.len(),
        v.fill_solid(area, color).back[pixel_index(v.width, x, y)] == if area.contains(x, y) {
            color
        } else {
            v.back[pixel_index(v.width, x, y)]
        },
        v.fill_solid(area, color).front == v.front,
{
    lemma_index_in_range(v.width, v.height, x, y);
    lemma_index_coordinates(v.width, x, y);
}

/// Pairing the places of a rectangle with colours gives each pixel of the
/// surface inside it the colour of its rank, as far as the colours reach.
pub proof fn lemma_fill_contiguous_by_place<P>(
    v: DisplayView<P>,
    area: Rectangle,
    colors: Seq<P>,
    x: int,
    y: int,
)
    requires
        v.wf(),
        on_surface(v.width, v.height, x, y),
    ensures
        v.fill_contiguous(area, colors).back[pixel_index(v.width, x, y)] == if area.contains(x, y)
            && area.rank_of(x, y) < colors.len() {
            colors[area.rank_of(x, y)]
        } else {
            v.back[pixel_index(v.width, x, y)]
        },
{
    lemma_index_in_range(v.width, v.height, x, y);
    lemma_index_coordinates(v.width, x, y);
}

/// A scroll by as many rows as the display has, or by more, in either direction,
/// leaves the back store filled with the fill colour, whatever the exact
/// number.
pub proof fn lemma_scroll_saturates<P>(v: DisplayView<P>, offset: int, fill: P)
    requires
        v.wf(),
        offset >= v.height || offset <= -v.height,
    ensures
        v.scroll(offset, fill) == v.clear(fill),
{
    lemma_scroll_past_height(v.back, v.width, v.height, offset, fill);
}

/// A scroll up by `rows` (a negative offset) followed by a scroll down by `rows`
/// brings every row but the last `rows` back to where it was. Those last rows
/// were pushed out by the first scroll and hold the fill colour of the second.
pub proof fn lemma_scroll_up_then_down<P>(
    v: DisplayView<P>,
    rows: int,
    fill_up: P,
    fill_down: P,
    x: int,
    y: int,
)
    requires
        v.wf(),
        0 < rows < v.height,
        on_surface(v.width, v.height, x, y),
    ensures
        v.scroll(-rows, fill_up).scroll(rows, fill_down).back[pixel_index(v.width, x, y)] == if y
            < v.height - rows {
            v.back[pixel_index(v.width, x, y)]
        } else {
            fill_down
        },
        v.scroll(-rows, fill_up).scroll(rows, fill_down).front == v.front,
{
    lemma_scroll_there_and_back(v.back, v.width, v.height, rows, fill_up, fill_down);
    lemma_index_in_range(v.width, v.height, x, y);
    let i = pixel_index(v.width, x, y);
    assert(i < (v.height - rows) * v.width <==> y < v.height - rows) by (nonlinear_arith)
        requires
            i == x + v.width * y,
            0 <= x < v.width,
    ;
}

/// With one fill colour for both scrolls, a scroll up by `rows` followed by a
/// scroll down by `rows` keeps every row but the last `rows`, which hold that
/// colour.
pub proof fn lemma_scroll_up_then_down_one_fill<P>(
    v: DisplayView<P>,
    rows: int,
    fill: P,
    x: int,
    y: int,
)
    requires
        v.wf(),
        0 < rows < v.height,
        on_surface(v.width, v.height, x, y),
    ensures
        v.scroll(-rows, fill).scroll(rows, fill).back[pixel_index(v.width, x, y)] == if y
            < v.height - rows {
            v.back[pixel_index(v.width, x, y)]
        } else {
            fill
        },
{
    lemma_scroll_up_then_down(v, rows, fill, fill, x, y);
}

/// Of the pixels written by one call, the last one written to a place is the
/// one that stays there.
pub proof fn lemma_draw_iter_last_write_wins<P>(v: DisplayView<P>, pixels: Seq<Pixel<P>>, k: int)
    requires
        v.wf(),
        0 <= k < pixels.len(),
        on_surface(v.width, v.height, pixels[k].point.x as int, pixels[k].point.y as int),
        forall|j: int| k < j < pixels.len() ==> pixels[j].point != pixels[k].point,
    ensures
        v.draw_iter(pixels).back[pixel_index(
            v.width,
            pixels[k].point.x as int,
            pixels[k].point.y as int,
        )] == pixels[k].color,
    decreases pixels.len(),
{
    let x = pixels[k].point.x as int;
    let y = pixels[k].point.y as int;
    let earlier = pixels.drop_last();
    lemma_index_in_range(v.width, v.height, x, y);
    lemma_pixels_keep_length(v.back, v.width, v.height, earlier);
    if k < pixels.len() - 1 {
        lemma_draw_iter_last_write_wins(v, earlier, k);
        let last = pixels.last();
        assert(last.point != pixels[k].point);
        if on_surface(v.width, v.height, last.point.x as int, last.point.y as int) {
            lemma_index_in_range(v.width, v.height, last.point.x as int, last.point.y as int);
            lemma_index_coordinates(v.width, x, y);
            lemma_index_coordinates(v.width, last.point.x as int, last.point.y as int);
        }
    }
}

/// A pixel that none of the pixels written names keeps its colour.
pub proof fn lemma_draw_iter_leaves_the_rest<P>(
    v: DisplayView<P>,
    pixels: Seq<Pixel<P>>,
    x: int,
    y: int,
)
    requires
        v.wf(),
        on_surface(v.width, v.height, x, y),
        forall|j: int|
            0 <= j < pixels.len() ==> !(pixels[j].point.x == x && pixels[j].point.y == y),
    ensures
        v.draw_iter(pixels).back[pixel_index(v.width, x, y)] == v.back[pixel_index(v.width, x, y)],
        v.draw_iter(pixels).back.len() == v.back.len(),
        v.draw_iter(pixels).front == v.front,
    decreases pixels.len(),
{
    lemma_pixels_keep_length(v.back, v.width, v.height, pixels);
    if pixels.len() > 0 {
        let earlier = pixels.drop_last();
        let last = pixels.last();
        lemma_draw_iter_leaves_the_rest(v, earlier, x, y);
        lemma_index_in_range(v.width, v.height, x, y);
        lemma_pixels_keep_length(v.back, v.width, v.height, earlier);
        if on_surface(v.width, v.height, last.point.x as int, last.point.y as int) {
            lemma_index_in_range(v.width, v.height, last.point.x as int, last.point.y as int);
            lemma_index_coordinates(v.width, x, y);
            lemma_index_coordinates(v.width, last.point.x as int, last.point.y as int);
        }
    }
}

/// Pairing the places of a rectangle with colours is writing the pairs one by
/// one, in the order of the scan.
pub proof fn lemma_fill_contiguous_is_draw_iter<P>(
    v: DisplayView<P>,
    area: Rectangle,
    colors: Seq<P>,
)
    requires
        v.wf(),
        area.within_reach(),
    ensures
        v.fill_contiguous(area, colors) == v.draw_iter(area.paired(colors)),
{
    let pixels = area.paired(colors);
    let count = pixels.len() as int;
    lemma_paired_prefix(v.back, v.width, v.height, area, colors, count);
    assert(pixels.take(count) =~= pixels);
    if area.point_count() <= colors.len() {
        lemma_colors_past_area_unused(v.back, v.width, area, colors, count);
    } else {
        assert(colors.take(count) =~= colors);
    }
}

/// Filling a rectangle with one colour is pairing each of its places with that
/// colour.
pub proof fn lemma_fill_solid_is_fill_contiguous<P>(
    v: DisplayView<P>,
    area: Rectangle,
    color: P,
    colors: Seq<P>,
)
    requires
        v.wf(),
        area.point_count() <= colors.len(),
        forall|i: int| 0 <= i < colors.len() ==> colors[i] == color,
    ensures
        v.fill_contiguous(area, colors) == v.fill_solid(area, color),
{
    let paired = with_colors(v.back, v.width, area, colors);
    let filled = with_rectangle(v.back, v.width, area, color);
    assert forall|i: int| 0 <= i < v.back.len() implies paired[i] == filled[i] by {
        let x = crate::raster::column_of(v.width, i);
        let y = crate::raster::row_of(v.width, i);
        if area.contains(x, y) {
            lemma_place_of_rank(area, x, y);
        }
    }
    assert(paired =~= filled);
}

/// Clearing is filling a rectangle that covers the whole surface.
pub proof fn lemma_clear_is_fill_solid<P>(v: DisplayView<P>, area: Rectangle, color: P)
    requires
        v.wf(),
        area.covers(v.width, v.height),
    ensures
        v.fill_solid(area, color) == v.clear(color),
{
    let filled = with_rectangle(v.back, v.width, area, color);
    assert forall|i: int| 0 <= i < v.back.len() implies filled[i] == color by {
        lemma_position_coordinates(v.width, v.height, i);
    }
    assert(filled =~= uniform(v.back.len(), color));
}

} // verus!
