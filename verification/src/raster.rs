//! The mathematical model of a pixel store: a flat sequence of colours, read row
//! by row, and the effect of each drawing operation on it.
//!
//! A store of extent `width` by `height` is a `Seq` of length `width * height`;
//! the pixel at column `x` of row `y` sits at [`pixel_index`]`(width, x, y)`.

use vstd::prelude::*;
use vstd::arithmetic::div_mod::{
    lemma_fundamental_div_mod,
    lemma_fundamental_div_mod_converse,
    lemma_mod_bound,
};
use crate::geometry::{Pixel, Rectangle};

verus! {

/// Where the pixel at column `x` of row `y` sits in a store that is `width` wide.
pub open spec fn pixel_index(width: int, x: int, y: int) -> int {
    x + width * y
}

/// The column of the pixel that sits at `i`.
pub open spec fn column_of(width: int, i: int) -> int {
    i % width
}

/// The row of the pixel that sits at `i`.
pub open spec fn row_of(width: int, i: int) -> int {
    i / width
}

/// Whether `(x, y)` names a pixel of a surface of the given extent.
pub open spec fn on_surface(width: int, height: int, x: int, y: int) -> bool {
    0 <= x < width && 0 <= y < height
}

/// `v` moved to the nearest value in `[0, limit]`. The upper end is `limit`
/// itself: the result is the exclusive end of a range, not a coordinate.
pub open spec fn clamp_to(v: int, limit: int) -> int {
    if v < 0 {
        0
    } else if v > limit {
        limit
    } else {
        v
    }
}

/// A store of `len` pixels that all hold `color`.
pub open spec fn uniform<P>(len: nat, color: P) -> Seq<P> {
    Seq::new(len, |i: int| color)
}

/// The store after `color` was written to `(x, y)`: a write off the surface
/// changes nothing.
pub open spec fn with_pixel<P>(buf: Seq<P>, width: int, height: int, x: int, y: int, color: P)
    -> Seq<P> {
    if on_surface(width, height, x, y) {
        buf.update(pixel_index(width, x, y), color)
    } else {
        buf
    }
}

/// The store after the pixels were written one by one, first to last, so that of
/// two writes to one place the later one stays.
pub open spec fn with_pixels<P>(buf: Seq<P>, width: int, height: int, pixels: Seq<Pixel<P>>)
    -> Seq<P>
    decreases pixels.len(),
{
    if pixels.len() == 0 {
        buf
    } else {
        let p = pixels.last();
        with_pixel(
            with_pixels(buf, width, height, pixels.drop_last()),
            width,
            height,
            p.point.x as int,
            p.point.y as int,
            p.color,
        )
    }
}

/// The store after every position in `[start, end)` was set to `color`.
pub open spec fn with_span<P>(buf: Seq<P>, start: int, end: int, color: P) -> Seq<P> {
    Seq::new(
        buf.len(),
        |i: int|
            if start <= i < end {
                color
            } else {
                buf[i]
            },
    )
}

/// The store after the columns `[left, right)` of the rows `[top, bottom)` were
/// set to `color`.
pub open spec fn with_block<P>(
    buf: Seq<P>,
    width: int,
    left: int,
    right: int,
    top: int,
    bottom: int,
    color: P,
) -> Seq<P> {
    Seq::new(
        buf.len(),
        |i: int|
            if left <= column_of(width, i) < right && top <= row_of(width, i) < bottom {
                color
            } else {
                buf[i]
            },
    )
}

/// The store after every pixel that lies inside `area` was set to `color`. Parts
/// of `area` off the surface have no pixel and so no effect.
pub open spec fn with_rectangle<P>(buf: Seq<P>, width: int, area: Rectangle, color: P) -> Seq<P> {
    Seq::new(
        buf.len(),
        |i: int|
            if area.contains(column_of(width, i), row_of(width, i)) {
                color
            } else {
                buf[i]
            },
    )
}

/// The store after the places of `area`, scanned row by row, were paired with
/// `colors` in order and each pixel on the surface took the colour paired with
/// its place. Places beyond the last colour keep what they held; colours beyond
/// the last place are not used.
pub open spec fn with_colors<P>(buf: Seq<P>, width: int, area: Rectangle, colors: Seq<P>) -> Seq<P> {
    Seq::new(
        buf.len(),
        |i: int|
            {
                let x = column_of(width, i);
                let y = row_of(width, i);
                if area.contains(x, y) && area.rank_of(x, y) < colors.len() {
                    colors[area.rank_of(x, y)]
                } else {
                    buf[i]
                }
            },
    )
}

/// The store after row `dst_row` took the contents of row `src_row`.
pub open spec fn with_row_copied<P>(buf: Seq<P>, width: int, src_row: int, dst_row: int) -> Seq<P> {
    Seq::new(
        buf.len(),
        |i: int|
            if dst_row * width <= i < (dst_row + 1) * width {
                buf[i + (src_row - dst_row) * width]
            } else {
                buf[i]
            },
    )
}

/// The store after a scroll by `offset` rows: row `r` takes what row
/// `r + offset` held, and a row for which there is no such row takes `fill`. So
/// a negative `offset` moves the image down and fills from the top, a positive
/// one moves it up and fills from the bottom, and an `offset` of the height or
/// more leaves nothing but `fill`.
pub open spec fn scrolled<P>(buf: Seq<P>, width: int, offset: int, fill: P) -> Seq<P> {
    Seq::new(
        buf.len(),
        |i: int|
            {
                let src = i + offset * width;
                if 0 <= src < buf.len() {
                    buf[src]
                } else {
                    fill
                }
            },
    )
}

/// On a surface, the index of a pixel lies inside the store.
pub proof fn lemma_index_in_range(width: int, height: int, x: int, y: int)
    requires
        on_surface(width, height, x, y),
    ensures
        0 <= pixel_index(width, x, y) < width * height,
{
    assert(0 <= width * y && x + width * y < width * height) by (nonlinear_arith)
        requires
            0 <= x < width,
            0 <= y < height,
    ;
}

/// The index of a pixel gives back its column and its row.
pub proof fn lemma_index_coordinates(width: int, x: int, y: int)
    requires
        0 <= x < width,
    ensures
        column_of(width, pixel_index(width, x, y)) == x,
        row_of(width, pixel_index(width, x, y)) == y,
{
    assert(x + width * y == y * width + x) by (nonlinear_arith);
    lemma_fundamental_div_mod_converse(x + width * y, width, y, x);
}

/// Every position of the store is the index of one pixel of the surface: the one
/// at its column and row.
pub proof fn lemma_position_coordinates(width: int, height: int, i: int)
    requires
        0 <= i < width * height,
        0 <= height,
    ensures
        on_surface(width, height, column_of(width, i), row_of(width, i)),
        pixel_index(width, column_of(width, i), row_of(width, i)) == i,
{
    assert(width > 0) by (nonlinear_arith)
        requires
            0 <= i < width * height,
            0 <= height,
    ;
    lemma_fundamental_div_mod(i, width);
    lemma_mod_bound(i, width);
    let q = i / width;
    let r = i % width;
    assert(0 <= q < height) by (nonlinear_arith)
        requires
            i == width * q + r,
            0 <= r < width,
            0 <= i < width * height,
    ;
}

/// Indexing is a bijection between the pixels of the surface and the positions
/// of the store: the index of a pixel lies inside the store, and two pixels with
/// one index are one pixel.
pub proof fn lemma_index_bijection(width: int, height: int, x1: int, y1: int, x2: int, y2: int)
    requires
        on_surface(width, height, x1, y1),
        on_surface(width, height, x2, y2),
    ensures
        0 <= pixel_index(width, x1, y1) < width * height,
        0 <= pixel_index(width, x2, y2) < width * height,
        pixel_index(width, x1, y1) == pixel_index(width, x2, y2) <==> x1 == x2 && y1 == y2,
{
    lemma_index_in_range(width, height, x1, y1);
    lemma_index_in_range(width, height, x2, y2);
    lemma_index_coordinates(width, x1, y1);
    lemma_index_coordinates(width, x2, y2);
}

/// Filling one more row of a block: the run of columns `[left, right)` of row `y`
/// is one span of the store.
pub proof fn lemma_block_grows_by_span<P>(
    buf: Seq<P>,
    width: int,
    height: int,
    left: int,
    right: int,
    top: int,
    y: int,
    color: P,
)
    requires
        buf.len() == width * height,
        0 <= left <= right <= width,
        0 <= top <= y < height,
    ensures
        with_span(
            with_block(buf, width, left, right, top, y, color),
            pixel_index(width, left, y),
            pixel_index(width, right, y),
            color,
        ) == with_block(buf, width, left, right, top, y + 1, color),
{
    let before = with_block(buf, width, left, right, top, y, color);
    let start = pixel_index(width, left, y);
    let a = with_span(before, start, pixel_index(width, right, y), color);
    let b = with_block(buf, width, left, right, top, y + 1, color);
    assert forall|i: int| 0 <= i < buf.len() implies a[i] == b[i] by {
        lemma_position_coordinates(width, height, i);
        let x = column_of(width, i);
        let r = row_of(width, i);
        if start <= i < start + (right - left) {
            assert(i == y * width + (i - width * y)) by (nonlinear_arith);
            lemma_fundamental_div_mod_converse(i, width, y, i - width * y);
        }
    }
    assert(a =~= b);
}

/// Filling a rectangle fills the block that is left of it once each of its edges
/// is clamped to the surface.
pub proof fn lemma_rectangle_is_clamped_block<P>(
    buf: Seq<P>,
    width: int,
    height: int,
    area: Rectangle,
    color: P,
)
    requires
        buf.len() == width * height,
        0 <= height,
    ensures
        with_rectangle(buf, width, area, color) == with_block(
            buf,
            width,
            clamp_to(area.top_left.x as int, width),
            clamp_to(area.right(), width),
            clamp_to(area.top_left.y as int, height),
            clamp_to(area.bottom(), height),
            color,
        ),
{
    let a = with_rectangle(buf, width, area, color);
    let b = with_block(
        buf,
        width,
        clamp_to(area.top_left.x as int, width),
        clamp_to(area.right(), width),
        clamp_to(area.top_left.y as int, height),
        clamp_to(area.bottom(), height),
        color,
    );
    assert forall|i: int| 0 <= i < buf.len() implies a[i] == b[i] by {
        lemma_position_coordinates(width, height, i);
    }
    assert(a =~= b);
}

/// Filling the block of all columns and all rows leaves one colour everywhere.
pub proof fn lemma_full_block_is_uniform<P>(buf: Seq<P>, width: int, height: int, color: P)
    requires
        buf.len() == width * height,
        0 <= height,
    ensures
        with_block(buf, width, 0, width, 0, height, color) == uniform(buf.len(), color),
{
    let a = with_block(buf, width, 0, width, 0, height, color);
    assert forall|i: int| 0 <= i < buf.len() implies a[i] == color by {
        lemma_position_coordinates(width, height, i);
    }
    assert(a =~= uniform(buf.len(), color));
}

/// The place of rank `i` lies inside the rectangle and has that rank.
pub proof fn lemma_nth_place(area: Rectangle, i: int)
    requires
        0 <= i < area.point_count(),
    ensures
        area.contains(area.nth_x(i), area.nth_y(i)),
        area.rank_of(area.nth_x(i), area.nth_y(i)) == i,
{
    let w = area.size.width as int;
    let h = area.size.height as int;
    lemma_position_coordinates(w, h, i);
    assert(i / w * w == w * (i / w)) by (nonlinear_arith);
}

/// Inside a rectangle, a place is known by its rank.
pub proof fn lemma_place_of_rank(area: Rectangle, x: int, y: int)
    requires
        area.contains(x, y),
    ensures
        0 <= area.rank_of(x, y) < area.point_count(),
        area.nth_x(area.rank_of(x, y)) == x,
        area.nth_y(area.rank_of(x, y)) == y,
{
    let w = area.size.width as int;
    let h = area.size.height as int;
    let dx = x - area.top_left.x;
    let dy = y - area.top_left.y;
    lemma_index_in_range(w, h, dx, dy);
    lemma_index_coordinates(w, dx, dy);
    assert(dy * w == w * dy) by (nonlinear_arith);
}

/// Pairing one more colour with the next place of the scan is one pixel write.
pub proof fn lemma_colors_grow_by_pixel<P>(
    buf: Seq<P>,
    width: int,
    height: int,
    area: Rectangle,
    colors: Seq<P>,
    i: int,
)
    requires
        buf.len() == width * height,
        0 <= height,
        0 <= i < colors.len(),
        i < area.point_count(),
    ensures
        with_pixel(
            with_colors(buf, width, area, colors.take(i)),
            width,
            height,
            area.nth_x(i),
            area.nth_y(i),
            colors[i],
        ) == with_colors(buf, width, area, colors.take(i + 1)),
{
    let before = with_colors(buf, width, area, colors.take(i));
    let nx = area.nth_x(i);
    let ny = area.nth_y(i);
    let a = with_pixel(before, width, height, nx, ny, colors[i]);
    let b = with_colors(buf, width, area, colors.take(i + 1));
    lemma_nth_place(area, i);
    if on_surface(width, height, nx, ny) {
        lemma_index_in_range(width, height, nx, ny);
        lemma_index_coordinates(width, nx, ny);
    }
    assert forall|j: int| 0 <= j < buf.len() implies a[j] == b[j] by {
        lemma_position_coordinates(width, height, j);
        let x = column_of(width, j);
        let y = row_of(width, j);
        if area.contains(x, y) {
            lemma_place_of_rank(area, x, y);
        }
    }
    assert(a =~= b);
}

/// Two scrolls in one direction with one fill colour are one scroll by the sum.
pub proof fn lemma_scroll_twice<P>(buf: Seq<P>, width: int, first: int, second: int, fill: P)
    requires
        0 <= width,
        (0 <= first && 0 <= second) || (first <= 0 && second <= 0),
    ensures
        scrolled(scrolled(buf, width, first, fill), width, second, fill) == scrolled(
            buf,
            width,
            first + second,
            fill,
        ),
{
    let mid = scrolled(buf, width, first, fill);
    let a = scrolled(mid, width, second, fill);
    let b = scrolled(buf, width, first + second, fill);
    assert((first + second) * width == first * width + second * width) by (nonlinear_arith);
    assert(0 <= first && 0 <= second ==> 0 <= first * width && 0 <= second * width)
        by (nonlinear_arith)
        requires
            0 <= width,
    ;
    assert(first <= 0 && second <= 0 ==> first * width <= 0 && second * width <= 0)
        by (nonlinear_arith)
        requires
            0 <= width,
    ;
    assert(a =~= b);
}

/// A scroll by the whole height or more leaves only the fill colour.
pub proof fn lemma_scroll_past_height<P>(
    buf: Seq<P>,
    width: int,
    height: int,
    offset: int,
    fill: P,
)
    requires
        buf.len() == width * height,
        0 <= width,
        0 <= height,
        offset >= height || offset <= -height,
    ensures
        scrolled(buf, width, offset, fill) == uniform(buf.len(), fill),
{
    let a = scrolled(buf, width, offset, fill);
    assert forall|i: int| 0 <= i < buf.len() implies a[i] == fill by {
        let src = i + offset * width;
        assert(src < 0 || src >= width * height) by (nonlinear_arith)
            requires
                src == i + offset * width,
                0 <= i < width * height,
                0 <= width,
                0 <= height,
                offset >= height || offset <= -height,
        ;
    }
    assert(a =~= uniform(buf.len(), fill));
}

/// A scroll by `-rows` followed by a scroll by `rows` brings every row that was
/// not pushed out back to its place; the last `rows` rows, which were pushed out,
/// hold the fill colour of the second scroll.
pub proof fn lemma_scroll_there_and_back<P>(
    buf: Seq<P>,
    width: int,
    height: int,
    rows: int,
    fill_first: P,
    fill_second: P,
)
    requires
        buf.len() == width * height,
        0 <= width,
        0 < rows < height,
    ensures
        scrolled(scrolled(buf, width, -rows, fill_first), width, rows, fill_second) == Seq::new(
            buf.len(),
            |i: int|
                if i < (height - rows) * width {
                    buf[i]
                } else {
                    fill_second
                },
        ),
{
    let mid = scrolled(buf, width, -rows, fill_first);
    let a = scrolled(mid, width, rows, fill_second);
    let b = Seq::new(
        buf.len(),
        |i: int|
            if i < (height - rows) * width {
                buf[i]
            } else {
                fill_second
            },
    );
    assert((-rows) * width == -(rows * width)) by (nonlinear_arith);
    assert((height - rows) * width == width * height - rows * width) by (nonlinear_arith);
    assert(0 <= rows * width) by (nonlinear_arith)
        requires
            0 <= width,
            0 < rows,
    ;
    assert(a =~= b);
}

/// Colours past the last place of a rectangle are never used.
pub proof fn lemma_colors_past_area_unused<P>(
    buf: Seq<P>,
    width: int,
    area: Rectangle,
    colors: Seq<P>,
    count: int,
)
    requires
        area.point_count() <= count <= colors.len(),
    ensures
        with_colors(buf, width, area, colors.take(count)) == with_colors(buf, width, area, colors),
{
    let some = with_colors(buf, width, area, colors.take(count));
    let all = with_colors(buf, width, area, colors);
    assert forall|j: int| 0 <= j < buf.len() implies some[j] == all[j] by {
        let x = column_of(width, j);
        let y = row_of(width, j);
        if area.contains(x, y) {
            lemma_place_of_rank(area, x, y);
        }
    }
    assert(some =~= all);
}

/// Writing pixels never changes how many pixels the store holds.
pub proof fn lemma_pixels_keep_length<P>(
    buf: Seq<P>,
    width: int,
    height: int,
    pixels: Seq<Pixel<P>>,
)
    requires
        buf.len() == width * height,
    ensures
        with_pixels(buf, width, height, pixels).len() == buf.len(),
    decreases pixels.len(),
{
    if pixels.len() > 0 {
        let last = pixels.last();
        lemma_pixels_keep_length(buf, width, height, pixels.drop_last());
        if on_surface(width, height, last.point.x as int, last.point.y as int) {
            lemma_index_in_range(width, height, last.point.x as int, last.point.y as int);
        }
    }
}

/// Writing the first `count` pairs of places and colours one by one is pairing
/// the first `count` colours with the places of the rectangle.
pub proof fn lemma_paired_prefix<P>(
    buf: Seq<P>,
    width: int,
    height: int,
    area: Rectangle,
    colors: Seq<P>,
    count: int,
)
    requires
        buf.len() == width * height,
        0 <= height,
        area.within_reach(),
        0 <= count <= area.paired(colors).len(),
    ensures
        with_pixels(buf, width, height, area.paired(colors).take(count)) == with_colors(
            buf,
            width,
            area,
            colors.take(count),
        ),
    decreases count,
{
    let pixels = area.paired(colors).take(count);
    if count == 0 {
        assert(with_colors(buf, width, area, colors.take(0)) =~= buf);
    } else {
        lemma_paired_prefix(buf, width, height, area, colors, count - 1);
        assert(pixels.drop_last() =~= area.paired(colors).take(count - 1));
        lemma_nth_place(area, count - 1);
        lemma_colors_grow_by_pixel(buf, width, height, area, colors, count - 1);
    }
}

} // verus!
