//! The display: two pixel stores, one shown and one drawn to, and the drawing
//! operations on the one drawn to.

use vstd::prelude::*;
use vstd::arithmetic::div_mod::lemma_fundamental_div_mod_converse;
use crate::framebuffer::FrameBuffer;
use crate::geometry::{Pixel, Rectangle};
use crate::model::DisplayView;
use crate::raster::{
    clamp_to,
    lemma_block_grows_by_span,
    lemma_colors_grow_by_pixel,
    lemma_colors_past_area_unused,
    lemma_full_block_is_uniform,
    lemma_rectangle_is_clamped_block,
    lemma_scroll_past_height,
    lemma_scroll_twice,
    on_surface,
    scrolled,
    with_block,
    with_colors,
    with_row_copied,
    with_span,
};

verus! {

/// A double-buffered display of `WIDTH` by `HEIGHT` pixels of type `COLOR`.
///
/// It owns two stores. The one at `front_buffer_idx` (taken modulo two) is
/// shown, the other one is drawn to.
#[derive(Debug)]
pub struct H7Display<COLOR, const WIDTH: usize, const HEIGHT: usize> {
    front_buffer_idx: usize,
    buffers: [FrameBuffer<COLOR, WIDTH, HEIGHT>; 2],
}

impl<COLOR, const WIDTH: usize, const HEIGHT: usize> View for H7Display<COLOR, WIDTH, HEIGHT> {
    type V = DisplayView<COLOR>;

    closed spec fn view(&self) -> DisplayView<COLOR> {
        DisplayView {
            width: WIDTH as int,
            height: HEIGHT as int,
            front_index: (self.front_buffer_idx % 2) as int,
            front: self.buffers[(self.front_buffer_idx % 2) as int]@,
            back: self.buffers[1 - self.front_buffer_idx % 2]@,
        }
    }
}

impl<COLOR, const WIDTH: usize, const HEIGHT: usize> H7Display<COLOR, WIDTH, HEIGHT> {
    /// The view of a display is well formed and has the display's extent.
    pub proof fn lemma_view_wf(self)
        ensures
            self@.wf(),
            self@.width == WIDTH,
            self@.height == HEIGHT,
    {
        self.buffers[0].lemma_view_len();
        self.buffers[1].lemma_view_len();
    }
}

/// The rows from `from_row` on hold what the row above each of them held.
spec fn rows_moved_down<P>(buf: Seq<P>, width: int, from_row: int) -> Seq<P> {
    Seq::new(
        buf.len(),
        |i: int|
            if i >= from_row * width {
                buf[i - width]
            } else {
                buf[i]
            },
    )
}

/// The rows before `until_row` hold what the row below each of them held.
spec fn rows_moved_up<P>(buf: Seq<P>, width: int, until_row: int) -> Seq<P> {
    Seq::new(
        buf.len(),
        |i: int|
            if i < until_row * width {
                buf[i + width]
            } else {
                buf[i]
            },
    )
}

proof fn lemma_move_down_one_row<P>(buf: Seq<P>, width: int, height: int, row: int)
    requires
        buf.len() == width * height,
        0 <= width,
        1 <= row < height,
    ensures
        with_row_copied(rows_moved_down(buf, width, row + 1), width, row - 1, row)
            == rows_moved_down(buf, width, row),
{
    let a = with_row_copied(rows_moved_down(buf, width, row + 1), width, row - 1, row);
    let b = rows_moved_down(buf, width, row);
    assert((row + 1) * width == row * width + width && (row - 1 - row) * width == -width
        && width <= row * width) by (nonlinear_arith)
        requires
            0 <= width,
            1 <= row,
    ;
    assert((row + 1) * width <= width * height) by (nonlinear_arith)
        requires
            0 <= width,
            row < height,
    ;
    assert(a =~= b);
}

proof fn lemma_move_up_one_row<P>(buf: Seq<P>, width: int, height: int, row: int)
    requires
        buf.len() == width * height,
        0 <= width,
        1 <= row < height,
    ensures
        with_row_copied(rows_moved_up(buf, width, row - 1), width, row, row - 1) == rows_moved_up(
            buf,
            width,
            row,
        ),
{
    let a = with_row_copied(rows_moved_up(buf, width, row - 1), width, row, row - 1);
    let b = rows_moved_up(buf, width, row);
    assert((row - 1) * width == row * width - width && (row - 1 + 1) * width == row * width && (row
        - (row - 1)) * width == width && 0 <= (row - 1) * width) by (nonlinear_arith)
        requires
            0 <= width,
            1 <= row,
    ;
    assert(row * width + width <= width * height) by (nonlinear_arith)
        requires
            0 <= width,
            row < height,
    ;
    assert(a =~= b);
}

impl<COLOR: Copy, const WIDTH: usize, const HEIGHT: usize> H7Display<COLOR, WIDTH, HEIGHT> {
    /// A display that shows `front` and draws to `back`.
    pub fn new(
        front: FrameBuffer<COLOR, WIDTH, HEIGHT>,
        back: FrameBuffer<COLOR, WIDTH, HEIGHT>,
    ) -> (display: Self)
        ensures
            display@ == (DisplayView {
                width: WIDTH as int,
                height: HEIGHT as int,
                front_index: 0,
                front: front@,
                back: back@,
            }),
    {
        H7Display { front_buffer_idx: 0, buffers: [front, back] }
    }

    /// The store that is shown.
    pub fn front_buffer(&self) -> (front: &FrameBuffer<COLOR, WIDTH, HEIGHT>)
        ensures
            front@ == self@.front,
    {
        &self.buffers[self.front_buffer_idx % 2]
    }

    /// The store that is drawn to, for reading.
    pub fn back_buffer(&self) -> (back: &FrameBuffer<COLOR, WIDTH, HEIGHT>)
        ensures
            back@ == self@.back,
    {
        &self.buffers[1 - self.front_buffer_idx % 2]
    }

    /// The store that is drawn to, for writing. Whatever the caller writes to it
    /// is the display's back image afterwards; nothing else changes.
    pub fn back_buffer_mut(&mut self) -> (back: &mut FrameBuffer<COLOR, WIDTH, HEIGHT>)
        ensures
            back@ == old(self)@.back,
            final(self)@ == old(self)@.with_back(final(back)@),
    {
        &mut self.buffers[1 - self.front_buffer_idx % 2]
    }

    /// Shows what was drawn: the two stores change roles, and the image now
    /// shown is copied into the store now drawn to. Returns the new front store
    /// and the new back store; what the caller writes to the latter is the
    /// display's back image afterwards.
    pub fn swap_buffers(&mut self) -> (stores: (
        &FrameBuffer<COLOR, WIDTH, HEIGHT>,
        &mut FrameBuffer<COLOR, WIDTH, HEIGHT>,
    ))
        ensures
            stores.0@ == old(self)@.back,
            stores.1@ == old(self)@.back,
            final(self)@ == old(self)@.swap_buffers().with_back(final(stores.1)@),
    {
        self.front_buffer_idx = 1 - self.front_buffer_idx % 2;
        let front_is_first = self.front_buffer_idx == 0;
        let (first, second) = self.buffers.split_at_mut(1);
        if front_is_first {
            second[0].copy_from(&first[0]);
            (&first[0], &mut second[0])
        } else {
            first[0].copy_from(&second[0]);
            (&second[0], &mut first[0])
        }
    }

    /// The number of columns.
    pub fn width(&self) -> (width: usize)
        ensures
            width == WIDTH,
    {
        WIDTH
    }

    /// The number of rows.
    pub fn height(&self) -> (height: usize)
        ensures
            height == HEIGHT,
    {
        HEIGHT
    }

    /// `x` moved to the nearest value in `[0, WIDTH]`.
    fn bounded_x(x: i64) -> (bounded: usize)
        ensures
            bounded == clamp_to(x as int, WIDTH as int),
    {
        if x < 0 {
            0
        } else if x as u64 > WIDTH as u64 {
            WIDTH
        } else {
            x as usize
        }
    }

    /// `y` moved to the nearest value in `[0, HEIGHT]`.
    fn bounded_y(y: i64) -> (bounded: usize)
        ensures
            bounded == clamp_to(y as int, HEIGHT as int),
    {
        if y < 0 {
            0
        } else if y as u64 > HEIGHT as u64 {
            HEIGHT
        } else {
            y as usize
        }
    }

    /// Writes `color` to `(x, y)` if that is a pixel of the surface.
    fn put(&mut self, x: i64, y: i64, color: COLOR)
        ensures
            final(self)@ == old(self)@.draw_pixel(x as int, y as int, color),
    {
        if x >= 0 && y >= 0 && (x as u64) < WIDTH as u64 && (y as u64) < HEIGHT as u64 {
            let pixel = self.back_buffer_mut().at_mut(x as usize, y as usize);
            *pixel = color;
        }
    }

    /// Writes `color` to the pixel at `(x, y)` of the back store. A place off the
    /// surface is passed over: nothing is written and nothing fails.
    pub fn draw_pixel(&mut self, x: i32, y: i32, color: COLOR)
        ensures
            final(self)@ == old(self)@.draw_pixel(x as int, y as int, color),
            !on_surface(WIDTH as int, HEIGHT as int, x as int, y as int) ==> final(self)@ == old(
                self,
            )@,
    {
        proof {
            self.lemma_view_wf();
        }
        self.put(x as i64, y as i64, color);
    }

    /// Writes the pixels to the back store in the order given, each as
    /// [`Self::draw_pixel`] does.
    pub fn draw_iter(&mut self, pixels: &[Pixel<COLOR>])
        ensures
            final(self)@ == old(self)@.draw_iter(pixels@),
    {
        let mut i: usize = 0;
        assert(pixels@.take(0).len() == 0);
        while i < pixels.len()
            invariant
                i <= pixels.len(),
                self@ == old(self)@.draw_iter(pixels@.take(i as int)),
            decreases pixels.len() - i,
        {
            let pixel = pixels[i];
            proof {
                let next = pixels@.take(i + 1);
                assert(next.drop_last() == pixels@.take(i as int));
                assert(next.last() == pixel);
            }
            self.draw_pixel(pixel.point.x, pixel.point.y, pixel.color);
            i += 1;
        }
        assert(pixels@.take(pixels.len() as int) == pixels@);
    }

    /// Pairs the places of `area`, row by row from its top left corner, with
    /// `colors` in order, and writes each colour to its place as
    /// [`Self::draw_pixel`] does. Stops at the last place or the last colour,
    /// whichever comes first.
    pub fn fill_contiguous(&mut self, area: &Rectangle, colors: &[COLOR])
        ensures
            final(self)@ == old(self)@.fill_contiguous(*area, colors@),
    {
        let width: u32 = area.size.width;
        let height: u32 = area.size.height;
        assert(0 <= width * height <= u64::MAX) by (nonlinear_arith)
            requires
                0 <= width <= u32::MAX,
                0 <= height <= u32::MAX,
        ;
        let places: u64 = (width as u64) * (height as u64);
        let count: usize = if (colors.len() as u64) < places {
            colors.len()
        } else {
            places as usize
        };
        let ghost before = self@;
        let mut i: usize = 0;
        let mut column: u32 = 0;
        let mut row: u32 = 0;
        proof {
            self.lemma_view_wf();
            assert(with_colors(before.back, before.width, *area, colors@.take(0)) =~= before.back);
            if 0 < count {
                assert(width > 0) by (nonlinear_arith)
                    requires
                        0 < width * height,
                        0 <= width,
                ;
            }
        }
        while i < count
            invariant
                i <= count <= colors.len(),
                count <= places,
                places == width * height,
                width == area.size.width,
                height == area.size.height,
                i == row * width + column,
                i < count ==> column < width,
                before.wf(),
                before == old(self)@,
                self@ == before.fill_contiguous(*area, colors@.take(i as int)),
            decreases count - i,
        {
            proof {
                lemma_fundamental_div_mod_converse(i as int, width as int, row as int, column as int);
                lemma_colors_grow_by_pixel(
                    before.back,
                    before.width,
                    before.height,
                    *area,
                    colors@,
                    i as int,
                );
            }
            let x: i64 = area.top_left.x as i64 + column as i64;
            let y: i64 = area.top_left.y as i64 + row as i64;
            self.put(x, y, colors[i]);
            i += 1;
            column += 1;
            if column == width {
                proof {
                    assert((row + 1) * width == row * width + width) by (nonlinear_arith);
                    assert(row < height) by (nonlinear_arith)
                        requires
                            row * width + width <= width * height,
                            0 < width,
                    ;
                }
                column = 0;
                row += 1;
            }
            proof {
                if i < count {
                    assert(width > 0) by (nonlinear_arith)
                        requires
                            i < width * height,
                            i >= 0,
                    ;
                }
            }
        }
        proof {
            if count == colors.len() {
                assert(colors@.take(count as int) == colors@);
            } else {
                lemma_colors_past_area_unused(
                    before.back,
                    before.width,
                    *area,
                    colors@,
                    count as int,
                );
            }
        }
    }

    /// Sets the columns `[x_start, x_end)` of the rows `[y_start, y_end)` of the
    /// back store to `color`, one run of pixels per row.
    fn fill_rows(&mut self, x_start: usize, x_end: usize, y_start: usize, y_end: usize, color: COLOR)
        requires
            x_start <= x_end <= WIDTH,
            y_start <= y_end <= HEIGHT,
        ensures
            final(self)@ == old(self)@.with_back(
                with_block(
                    old(self)@.back,
                    WIDTH as int,
                    x_start as int,
                    x_end as int,
                    y_start as int,
                    y_end as int,
                    color,
                ),
            ),
    {
        let ghost before = self@;
        proof {
            self.lemma_view_wf();
            assert(with_block(
                before.back,
                WIDTH as int,
                x_start as int,
                x_end as int,
                y_start as int,
                y_start as int,
                color,
            ) =~= before.back);
        }
        let mut y: usize = y_start;
        while y < y_end
            invariant
                x_start <= x_end <= WIDTH,
                y_start <= y <= y_end <= HEIGHT,
                before.wf(),
                before.width == WIDTH,
                before.height == HEIGHT,
                before == old(self)@,
                self@ == before.with_back(
                    with_block(
                        before.back,
                        WIDTH as int,
                        x_start as int,
                        x_end as int,
                        y_start as int,
                        y as int,
                        color,
                    ),
                ),
            decreases y_end - y,
        {
            proof {
                lemma_block_grows_by_span(
                    before.back,
                    WIDTH as int,
                    HEIGHT as int,
                    x_start as int,
                    x_end as int,
                    y_start as int,
                    y as int,
                    color,
                );
            }
            self.back_buffer_mut().fill_columns(y, x_start, x_end, color);
            y += 1;
        }
    }

    /// Sets every pixel of the back store that lies inside `area` to `color`.
    /// Each edge of `area` is clamped to the surface, so a rectangle that is
    /// partly off the surface is filled where it is on it, and one that is
    /// wholly off it changes nothing.
    pub fn fill_solid(&mut self, area: &Rectangle, color: COLOR)
        ensures
            final(self)@ == old(self)@.fill_solid(*area, color),
    {
        let x_start: usize = Self::bounded_x(area.top_left.x as i64);
        let x_end: usize = Self::bounded_x(area.top_left.x as i64 + area.size.width as i64);
        let y_start: usize = Self::bounded_y(area.top_left.y as i64);
        let y_end: usize = Self::bounded_y(area.top_left.y as i64 + area.size.height as i64);
        proof {
            self.lemma_view_wf();
            lemma_rectangle_is_clamped_block(
                self@.back,
                WIDTH as int,
                HEIGHT as int,
                *area,
                color,
            );
        }
        self.fill_rows(x_start, x_end, y_start, y_end, color);
    }

    /// Sets every pixel of the back store to `color`.
    pub fn clear(&mut self, color: COLOR)
        ensures
            final(self)@ == old(self)@.clear(color),
    {
        proof {
            self.lemma_view_wf();
            lemma_full_block_is_uniform(self@.back, WIDTH as int, HEIGHT as int, color);
        }
        self.fill_rows(0, WIDTH, 0, HEIGHT, color);
    }

    /// Moves every row of the back store one row down, last row first, and sets
    /// the first row to `fill`.
    fn scroll_one_row_down(&mut self, fill: COLOR)
        requires
            HEIGHT > 0,
        ensures
            final(self)@ == old(self)@.scroll(-1, fill),
    {
        let ghost before = self@;
        proof {
            self.lemma_view_wf();
            assert(HEIGHT * WIDTH == WIDTH * HEIGHT) by (nonlinear_arith);
            assert(rows_moved_down(before.back, WIDTH as int, HEIGHT as int) =~= before.back);
        }
        let mut row: usize = HEIGHT - 1;
        while row > 0
            invariant
                row < HEIGHT,
                before.wf(),
                before.width == WIDTH,
                before.height == HEIGHT,
                self@ == before.with_back(rows_moved_down(before.back, WIDTH as int, row + 1)),
            decreases row,
        {
            proof {
                lemma_move_down_one_row(before.back, WIDTH as int, HEIGHT as int, row as int);
            }
            self.back_buffer_mut().copy_row(row - 1, row);
            row -= 1;
        }
        proof {
            assert(WIDTH <= WIDTH * HEIGHT) by (nonlinear_arith)
                requires
                    HEIGHT > 0,
                    WIDTH >= 0,
            ;
            assert((-1) * (WIDTH as int) == -(WIDTH as int) && 1 * (WIDTH as int) == WIDTH as int
                && (WIDTH as int) * 0 == 0) by (nonlinear_arith);
            assert(with_span(rows_moved_down(before.back, WIDTH as int, 1), 0, WIDTH as int, fill)
                =~= scrolled(before.back, WIDTH as int, -1, fill));
        }
        self.back_buffer_mut().fill_columns(0, 0, WIDTH, fill);
    }

    /// Moves every row of the back store one row up, first row first, and sets
    /// the last row to `fill`.
    fn scroll_one_row_up(&mut self, fill: COLOR)
        requires
            HEIGHT > 0,
        ensures
            final(self)@ == old(self)@.scroll(1, fill),
    {
        let ghost before = self@;
        proof {
            self.lemma_view_wf();
            assert(rows_moved_up(before.back, WIDTH as int, 0) =~= before.back);
        }
        let mut row: usize = 1;
        while row < HEIGHT
            invariant
                1 <= row <= HEIGHT,
                before.wf(),
                before.width == WIDTH,
                before.height == HEIGHT,
                self@ == before.with_back(rows_moved_up(before.back, WIDTH as int, row - 1)),
            decreases HEIGHT - row,
        {
            proof {
                lemma_move_up_one_row(before.back, WIDTH as int, HEIGHT as int, row as int);
            }
            self.back_buffer_mut().copy_row(row, row - 1);
            row += 1;
        }
        proof {
            assert((HEIGHT - 1) * WIDTH + WIDTH == WIDTH * HEIGHT && 0 <= (HEIGHT - 1) * WIDTH
                && WIDTH * (HEIGHT - 1) == (HEIGHT - 1) * WIDTH) by (nonlinear_arith)
                requires
                    HEIGHT > 0,
                    WIDTH >= 0,
            ;
            assert(1 * (WIDTH as int) == WIDTH as int) by (nonlinear_arith);
            assert(with_span(
                rows_moved_up(before.back, WIDTH as int, HEIGHT - 1),
                (HEIGHT - 1) * WIDTH,
                WIDTH * HEIGHT,
                fill,
            ) =~= scrolled(before.back, WIDTH as int, 1, fill));
        }
        self.back_buffer_mut().fill_columns(HEIGHT - 1, 0, WIDTH, fill);
    }

    /// Scrolls the back store by `px` rows, one row at a time. A negative `px`
    /// scrolls up: the image moves down, and the rows that open at the top are
    /// set to `fill`. A positive `px` scrolls down: the image moves up, and the
    /// rows that open at the bottom are set to `fill`. Past `HEIGHT` rows there is
    /// nothing left to move: every such scroll leaves the store filled with
    /// `fill`.
    pub fn scroll(&mut self, px: i32, fill: COLOR)
        ensures
            final(self)@ == old(self)@.scroll(px as int, fill),
    {
        let ghost before = self@;
        proof {
            self.lemma_view_wf();
            assert(0 * (WIDTH as int) == 0) by (nonlinear_arith);
            assert(scrolled(before.back, WIDTH as int, 0, fill) =~= before.back);
        }
        if px == 0 {
            return ;
        }
        let magnitude: i64 = if px < 0 {
            -(px as i64)
        } else {
            px as i64
        };
        let steps: usize = if magnitude as u64 >= HEIGHT as u64 {
            HEIGHT
        } else {
            magnitude as usize
        };
        let ghost direction: int = if px < 0 {
            -1
        } else {
            1
        };
        let mut done: usize = 0;
        while done < steps
            invariant
                done <= steps <= HEIGHT,
                px != 0,
                direction == if px < 0 {
                    -1int
                } else {
                    1int
                },
                before.wf(),
                before.width == WIDTH,
                before.height == HEIGHT,
                self@ == before.scroll(direction * done, fill),
            decreases steps - done,
        {
            proof {
                assert(direction * done == if px < 0 {
                    -(done as int)
                } else {
                    done as int
                }) by (nonlinear_arith)
                    requires
                        direction == if px < 0 {
                            -1int
                        } else {
                            1int
                        },
                ;
                lemma_scroll_twice(
                    before.back,
                    WIDTH as int,
                    direction * done,
                    direction,
                    fill,
                );
                assert(direction * done + direction == direction * (done + 1))
                    by (nonlinear_arith);
            }
            if px < 0 {
                self.scroll_one_row_down(fill);
            } else {
                self.scroll_one_row_up(fill);
            }
            done += 1;
        }
        proof {
            if steps == magnitude {
                assert(direction * steps == px);
            } else {
                lemma_scroll_past_height(
                    before.back,
                    WIDTH as int,
                    HEIGHT as int,
                    direction * steps,
                    fill,
                );
                lemma_scroll_past_height(before.back, WIDTH as int, HEIGHT as int, px as int, fill);
            }
        }
    }
}

} // verus!
