//! One pixel store: `WIDTH * HEIGHT` colours in one contiguous run, row by row.

use vstd::prelude::*;
use crate::raster::{pixel_index, with_row_copied, with_span};

verus! {

/// A pixel store of fixed extent. Its view is the flat sequence of its colours,
/// always `WIDTH * HEIGHT` long.
#[derive(Debug)]
pub struct FrameBuffer<PIX, const WIDTH: usize, const HEIGHT: usize> {
    buffer: Vec<PIX>,
}

impl<PIX, const WIDTH: usize, const HEIGHT: usize> View for FrameBuffer<PIX, WIDTH, HEIGHT> {
    type V = Seq<PIX>;

    closed spec fn view(&self) -> Seq<PIX> {
        Seq::new((WIDTH * HEIGHT) as nat, |i: int| self.buffer@[i])
    }
}

impl<PIX, const WIDTH: usize, const HEIGHT: usize> FrameBuffer<PIX, WIDTH, HEIGHT> {
    #[verifier::type_invariant]
    spec fn well_formed(self) -> bool {
        self.buffer@.len() == WIDTH * HEIGHT
    }

    /// The view of a store has one colour for each pixel.
    pub proof fn lemma_view_len(self)
        ensures
            self@.len() == WIDTH * HEIGHT,
    {
    }
}

impl<PIX: Copy, const WIDTH: usize, const HEIGHT: usize> FrameBuffer<PIX, WIDTH, HEIGHT> {
    /// A store whose pixels all hold the colour type's default value. Callers
    /// should not rely on which colour that is, only on there being one.
    pub fn new() -> (fb: Self) where PIX: Default
        requires
            WIDTH * HEIGHT <= usize::MAX,
        ensures
            fb@.len() == WIDTH * HEIGHT,
            forall|i: int, j: int|
                0 <= i < WIDTH * HEIGHT && 0 <= j < WIDTH * HEIGHT ==> fb@[i] == fb@[j],
    {
        let len: usize = WIDTH * HEIGHT;
        let blank = PIX::default();
        let mut buffer: Vec<PIX> = Vec::with_capacity(len);
        let mut i: usize = 0;
        while i < len
            invariant
                i <= len,
                buffer@.len() == i,
                forall|j: int| 0 <= j < i ==> buffer@[j] == blank,
            decreases len - i,
        {
            buffer.push(blank);
            i += 1;
        }
        FrameBuffer { buffer }
    }

    /// How many pixels the store holds.
    pub fn len(&self) -> (len: usize)
        ensures
            len == WIDTH * HEIGHT,
    {
        proof {
            use_type_invariant(self);
        }
        self.buffer.len()
    }

    /// The position of the pixel at column `x` of row `y`.
    pub fn xy_to_index(x: usize, y: usize) -> (idx: usize)
        requires
            x + WIDTH * y <= usize::MAX,
        ensures
            idx == pixel_index(WIDTH as int, x as int, y as int),
            x < WIDTH && y < HEIGHT ==> idx < WIDTH * HEIGHT,
    {
        proof {
            assert(0 <= WIDTH * y <= usize::MAX) by (nonlinear_arith)
                requires
                    x + WIDTH * y <= usize::MAX,
                    0 <= x,
                    0 <= y,
                    0 <= WIDTH,
            ;
            if x < WIDTH && y < HEIGHT {
                crate::raster::lemma_index_in_range(
                    WIDTH as int,
                    HEIGHT as int,
                    x as int,
                    y as int,
                );
            }
        }
        x + (WIDTH * y)
    }

    /// The colour at column `x` of row `y`.
    pub fn at(&self, x: usize, y: usize) -> (pix: &PIX)
        requires
            x < WIDTH,
            y < HEIGHT,
        ensures
            *pix == self@[pixel_index(WIDTH as int, x as int, y as int)],
    {
        proof {
            use_type_invariant(self);
            assert(self.buffer.len() == WIDTH * HEIGHT);
            crate::raster::lemma_index_in_range(WIDTH as int, HEIGHT as int, x as int, y as int);
        }
        let idx: usize = Self::xy_to_index(x, y);
        &self.buffer[idx]
    }

    /// The place of the colour at column `x` of row `y`, to be written through.
    pub fn at_mut(&mut self, x: usize, y: usize) -> (pix: &mut PIX)
        requires
            x < WIDTH,
            y < HEIGHT,
        ensures
            *pix == old(self)@[pixel_index(WIDTH as int, x as int, y as int)],
            final(self)@ == old(self)@.update(
                pixel_index(WIDTH as int, x as int, y as int),
                *final(pix),
            ),
    {
        proof {
            use_type_invariant(&*self);
            assert(self.buffer.len() == WIDTH * HEIGHT);
            crate::raster::lemma_index_in_range(WIDTH as int, HEIGHT as int, x as int, y as int);
        }
        let idx: usize = Self::xy_to_index(x, y);
        &mut self.buffer[idx]
    }

    /// All colours of the store in one run, row by row.
    pub fn as_slice(&self) -> (pixels: &[PIX])
        ensures
            pixels@ == self@,
    {
        proof {
            use_type_invariant(self);
        }
        self.buffer.as_slice()
    }

    /// Sets every position in `[start, end)` to `color`.
    pub fn fill_range(&mut self, start: usize, end: usize, color: PIX)
        requires
            start <= end <= WIDTH * HEIGHT,
        ensures
            final(self)@ == with_span(old(self)@, start as int, end as int, color),
    {
        proof {
            use_type_invariant(&*self);
        }
        let mut i: usize = start;
        while i < end
            invariant
                start <= i <= end <= WIDTH * HEIGHT,
                self.buffer@.len() == WIDTH * HEIGHT,
                self.buffer@ == with_span(old(self).buffer@, start as int, i as int, color),
            decreases end - i,
        {
            self.buffer[i] = color;
            i += 1;
        }
    }

    /// Sets the columns `[x_start, x_end)` of row `y` to `color`: one run of
    /// pixels.
    pub fn fill_columns(&mut self, y: usize, x_start: usize, x_end: usize, color: PIX)
        requires
            y < HEIGHT,
            x_start <= x_end <= WIDTH,
        ensures
            final(self)@ == with_span(
                old(self)@,
                pixel_index(WIDTH as int, x_start as int, y as int),
                pixel_index(WIDTH as int, x_end as int, y as int),
                color,
            ),
    {
        proof {
            use_type_invariant(&*self);
            assert(self.buffer.len() == WIDTH * HEIGHT);
            assert(x_end + WIDTH * y <= WIDTH * HEIGHT) by (nonlinear_arith)
                requires
                    x_end <= WIDTH,
                    y < HEIGHT,
            ;
        }
        let start: usize = Self::xy_to_index(x_start, y);
        self.fill_range(start, start + (x_end - x_start), color);
    }

    /// Copies row `src_row` over row `dst_row`.
    pub fn copy_row(&mut self, src_row: usize, dst_row: usize)
        requires
            src_row < HEIGHT,
            dst_row < HEIGHT,
        ensures
            final(self)@ == with_row_copied(
                old(self)@,
                WIDTH as int,
                src_row as int,
                dst_row as int,
            ),
    {
        let ghost len = WIDTH * HEIGHT;
        proof {
            use_type_invariant(&*self);
            assert(self.buffer.len() == len);
            assert(src_row * WIDTH + WIDTH <= WIDTH * HEIGHT && dst_row * WIDTH + WIDTH <= WIDTH
                * HEIGHT) by (nonlinear_arith)
                requires
                    src_row < HEIGHT,
                    dst_row < HEIGHT,
                    0 <= WIDTH,
            ;
            assert((dst_row + 1) * WIDTH == dst_row * WIDTH + WIDTH) by (nonlinear_arith);
            assert((src_row - dst_row) * WIDTH == src_row * WIDTH - dst_row * WIDTH)
                by (nonlinear_arith);
        }
        let src: usize = src_row * WIDTH;
        let dst: usize = dst_row * WIDTH;
        if src_row == dst_row {
            assert(self@ == with_row_copied(self@, WIDTH as int, src_row as int, dst_row as int));
            return ;
        }
        let mut c: usize = 0;
        while c < WIDTH
            invariant
                c <= WIDTH,
                src == src_row * WIDTH,
                dst == dst_row * WIDTH,
                src_row != dst_row,
                len == WIDTH * HEIGHT,
                len <= usize::MAX,
                old(self).buffer@.len() == len,
                src + WIDTH <= WIDTH * HEIGHT,
                dst + WIDTH <= WIDTH * HEIGHT,
                self.buffer@.len() == WIDTH * HEIGHT,
                forall|i: int|
                    0 <= i < WIDTH * HEIGHT ==> self.buffer@[i] == if dst <= i < dst + c {
                        old(self).buffer@[i + (src - dst)]
                    } else {
                        old(self).buffer@[i]
                    },
            decreases WIDTH - c,
        {
            proof {
                assert(src + WIDTH <= dst || dst + WIDTH <= src) by (nonlinear_arith)
                    requires
                        src == src_row * WIDTH,
                        dst == dst_row * WIDTH,
                        src_row != dst_row,
                ;
            }
            let color = self.buffer[src + c];
            self.buffer[dst + c] = color;
            c += 1;
        }
        assert(self@ == with_row_copied(old(self)@, WIDTH as int, src_row as int, dst_row as int));
    }

    /// Copies every colour of `source` into this store.
    pub fn copy_from(&mut self, source: &Self)
        ensures
            final(self)@ == source@,
    {
        let len: usize = self.buffer.len();
        proof {
            use_type_invariant(&*self);
            use_type_invariant(source);
        }
        let mut i: usize = 0;
        while i < len
            invariant
                i <= len,
                len == WIDTH * HEIGHT,
                self.buffer@.len() == len,
                source.buffer@.len() == len,
                forall|j: int| 0 <= j < i ==> self.buffer@[j] == source.buffer@[j],
            decreases len - i,
        {
            self.buffer[i] = source.buffer[i];
            i += 1;
        }
        assert(self@ == source@);
    }
}

} // verus!
