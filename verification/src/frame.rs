//! The pixel frame: RGBA bytes, row by row, in which every grid cell is a
//! block of `scale_x` by `scale_y` pixels.

use crate::config::FULL_INTENSITY;
use vstd::prelude::*;

verus! {

/// One pixel.
#[derive(Clone, Copy, Debug, PartialEq, Eq, Structural)]
pub struct Rgba {
    /// Red.
    pub r: u8,
    /// Green.
    pub g: u8,
    /// Blue.
    pub b: u8,
    /// Opacity.
    pub a: u8,
}

/// What a pixel can show.
#[derive(Clone, Copy, Debug, PartialEq, Eq, Structural)]
pub enum Paint {
    /// The cleared frame.
    Background,
    /// A cell with food.
    Food,
    /// The nest.
    Nest,
    /// A pheromone, of the given opacity.
    Trail(u8),
    /// An ant that carries food.
    Carrying,
    /// An ant that forages.
    Foraging,
}

impl Paint {
    /// The color of the paint.
    pub open spec fn rgba(self) -> Rgba {
        match self {
            Paint::Background => Rgba { r: 0x00, g: 0x00, b: 0x00, a: 0x00 },
            Paint::Food => Rgba { r: 0x00, g: 0x00, b: 0xff, a: 0xff },
            Paint::Nest => Rgba { r: 0xff, g: 0x65, b: 0x00, a: 0xff },
            Paint::Trail(alpha) => Rgba { r: 0x80, g: 0x00, b: 0x80, a: alpha },
            Paint::Carrying => Rgba { r: 0xff, g: 0x00, b: 0x00, a: 0xff },
            Paint::Foraging => Rgba { r: 0x00, g: 0xff, b: 0x00, a: 0xff },
        }
    }

    /// The color of the paint.
    pub fn color(self) -> (c: Rgba)
        ensures
            c == self.rgba(),
    {
        match self {
            Paint::Background => Rgba { r: 0x00, g: 0x00, b: 0x00, a: 0x00 },
            Paint::Food => Rgba { r: 0x00, g: 0x00, b: 0xff, a: 0xff },
            Paint::Nest => Rgba { r: 0xff, g: 0x65, b: 0x00, a: 0xff },
            Paint::Trail(alpha) => Rgba { r: 0x80, g: 0x00, b: 0x80, a: alpha },
            Paint::Carrying => Rgba { r: 0xff, g: 0x00, b: 0x00, a: 0xff },
            Paint::Foraging => Rgba { r: 0x00, g: 0xff, b: 0x00, a: 0xff },
        }
    }
}

/// The opacity that shows a pheromone: proportional to its intensity, and
/// full from `FULL_INTENSITY` on.
pub open spec fn opacity(intensity: u64) -> u8 {
    if intensity >= FULL_INTENSITY {
        255
    } else {
        (intensity * 255 / (FULL_INTENSITY as int)) as u8
    }
}

/// Computes the opacity that shows a pheromone.
pub fn trail_opacity(intensity: u64) -> (alpha: u8)
    ensures
        alpha == opacity(intensity),
{
    if intensity >= FULL_INTENSITY {
        255
    } else {
        (intensity * 255 / FULL_INTENSITY) as u8
    }
}

/// Why a frame was not drawn.
#[derive(Clone, Copy, Debug, PartialEq, Eq, Structural)]
pub enum RenderError {
    /// The buffer does not have four bytes for every pixel of the viewport,
    /// no more and no less.
    FrameLength,
}

/// The geometry of a frame: a grid of `columns` by `rows` cells, each drawn
/// as a block of `scale_x` by `scale_y` pixels.
#[derive(Clone, Copy, Debug, PartialEq, Eq)]
pub struct Viewport {
    /// Grid width in cells.
    pub columns: usize,
    /// Grid height in cells.
    pub rows: usize,
    /// Pixels per cell, horizontally.
    pub scale_x: usize,
    /// Pixels per cell, vertically.
    pub scale_y: usize,
}

/// The pixel with index `p` of a frame.
pub open spec fn pixel(frame: Seq<u8>, p: int) -> Rgba {
    Rgba { r: frame[4 * p], g: frame[4 * p + 1], b: frame[4 * p + 2], a: frame[4 * p + 3] }
}

impl Viewport {
    /// Frame width in pixels.
    pub open spec fn pixel_width(&self) -> int {
        self.columns * self.scale_x
    }

    /// Frame height in pixels.
    pub open spec fn pixel_height(&self) -> int {
        self.rows * self.scale_y
    }

    /// Number of pixels of the frame.
    pub open spec fn pixel_count(&self) -> int {
        self.pixel_height() * self.pixel_width()
    }

    /// Number of bytes of the frame.
    pub open spec fn frame_length(&self) -> int {
        4 * self.pixel_count()
    }

    /// The scale factors are positive, and width, height and byte length of
    /// the frame fit in `usize`.
    pub open spec fn wf(&self) -> bool {
        &&& self.scale_x > 0
        &&& self.scale_y > 0
        &&& self.pixel_width() <= usize::MAX
        &&& self.pixel_height() <= usize::MAX
        &&& self.frame_length() <= usize::MAX
    }

    /// The pixel row that pixel `p` lies in.
    pub open spec fn row_of(&self, p: int) -> int {
        p / self.pixel_width()
    }

    /// The pixel column that pixel `p` lies in.
    pub open spec fn column_of(&self, p: int) -> int {
        p % self.pixel_width()
    }

    /// The grid cell that pixel `p` shows.
    pub open spec fn cell_of(&self, p: int) -> (int, int) {
        (self.column_of(p) / self.scale_x as int, self.row_of(p) / self.scale_y as int)
    }

    /// The viewport of the given geometry, if its scale factors are positive
    /// and its frame fits in memory.
    pub fn new(columns: usize, rows: usize, scale_x: usize, scale_y: usize) -> (r: Option<Viewport>)
        ensures
            match r {
                Some(view) => view.wf() && view == (Viewport { columns, rows, scale_x, scale_y }),
                None => !(Viewport { columns, rows, scale_x, scale_y }).wf(),
            },
    {
        if scale_x == 0 || scale_y == 0 {
            return None;
        }
        let width = match columns.checked_mul(scale_x) {
            Some(w) => w,
            None => {
                return None;
            },
        };
        let height = match rows.checked_mul(scale_y) {
            Some(h) => h,
            None => {
                return None;
            },
        };
        let count = match height.checked_mul(width) {
            Some(c) => c,
            None => {
                return None;
            },
        };
        match count.checked_mul(4) {
            Some(_) => Some(Viewport { columns, rows, scale_x, scale_y }),
            None => None,
        }
    }

    /// Number of bytes of the frame.
    pub fn frame_len(&self) -> (n: usize)
        requires
            self.wf(),
        ensures
            n == self.frame_length(),
    {
        proof {
            let count = self.pixel_count();
            assert(0 <= count) by (nonlinear_arith)
                requires
                    count == (self.rows * self.scale_y) * (self.columns * self.scale_x),
            ;
        }
        let width = self.columns * self.scale_x;
        let height = self.rows * self.scale_y;
        4 * (height * width)
    }

    /// Paints the block of the cell `(x, y)` in one color. A cell outside
    /// the grid has no pixels, and nothing is painted.
    pub fn fill_cell(&self, frame: &mut [u8], x: usize, y: usize, color: Rgba)
        requires
            self.wf(),
            old(frame)@.len() == self.frame_length(),
        ensures
            final(frame)@.len() == old(frame)@.len(),
            forall|p: int|
                0 <= p < self.pixel_count() ==> #[trigger] pixel(final(frame)@, p) == if self.cell_of(
                    p,
                ) == (x as int, y as int) {
                    color
                } else {
                    pixel(old(frame)@, p)
                },
    {
        if x >= self.columns || y >= self.rows {
            proof {
                assert forall|p: int| 0 <= p < self.pixel_count() implies self.cell_of(p) != (
                    x as int,
                    y as int,
                ) by {
                    self.lemma_pixel_in_grid(p);
                }
            }
            return ;
        }
        proof {
            self.lemma_block_in_frame(x as int, y as int, 0, 0);
        }
        let width = self.columns * self.scale_x;
        let left = x * self.scale_x;
        let top = y * self.scale_y;
        let mut dy: usize = 0;
        proof {
            assert forall|p: int| 0 <= p < self.pixel_count() && self.cell_of(p) == (
                x as int,
                y as int,
            ) implies self.row_of(p) >= top by {
                self.lemma_pixel_in_block(p, x as int, y as int);
            }
        }
        while dy < self.scale_y
            invariant
                self.wf(),
                x < self.columns,
                y < self.rows,
                dy <= self.scale_y,
                width == self.pixel_width(),
                left == x * self.scale_x,
                top == y * self.scale_y,
                frame@.len() == self.frame_length(),
                forall|p: int|
                    0 <= p < self.pixel_count() ==> #[trigger] pixel(frame@, p) == if self.cell_of(p)
                        == (x as int, y as int) && self.row_of(p) < top + dy {
                        color
                    } else {
                        pixel(old(frame)@, p)
                    },
            decreases self.scale_y - dy,
        {
            let mut dx: usize = 0;
            proof {
                assert forall|p: int| 0 <= p < self.pixel_count() && self.cell_of(p) == (
                    x as int,
                    y as int,
                ) implies self.column_of(p) >= left by {
                    self.lemma_pixel_in_block(p, x as int, y as int);
                }
            }
            while dx < self.scale_x
                invariant
                    self.wf(),
                    x < self.columns,
                    y < self.rows,
                    dy < self.scale_y,
                    dx <= self.scale_x,
                    width == self.pixel_width(),
                    left == x * self.scale_x,
                    top == y * self.scale_y,
                    frame@.len() == self.frame_length(),
                    forall|p: int|
                        0 <= p < self.pixel_count() ==> #[trigger] pixel(frame@, p) == if self.cell_of(
                            p,
                        ) == (x as int, y as int) && (self.row_of(p) < top + dy || (self.row_of(p)
                            == top + dy && self.column_of(p) < left + dx)) {
                            color
                        } else {
                            pixel(old(frame)@, p)
                        },
                decreases self.scale_x - dx,
            {
                proof {
                    self.lemma_block_in_frame(x as int, y as int, dx as int, dy as int);
                }
                let at = (top + dy) * width + (left + dx);
                let ghost before = frame@;
                frame[4 * at] = color.r;
                frame[4 * at + 1] = color.g;
                frame[4 * at + 2] = color.b;
                frame[4 * at + 3] = color.a;
                proof {
                    assert forall|p: int| 0 <= p < self.pixel_count() implies #[trigger] pixel(
                        frame@,
                        p,
                    ) == if self.cell_of(p) == (x as int, y as int) && (self.row_of(p) < top + dy || (
                    self.row_of(p) == top + dy && self.column_of(p) < left + dx + 1)) {
                        color
                    } else {
                        pixel(old(frame)@, p)
                    } by {
                        self.lemma_pixel_in_grid(p);
                        self.lemma_pixel_in_block(p, x as int, y as int);
                        if p == at {
                            assert(pixel(frame@, p) == color);
                        } else {
                            assert(pixel(frame@, p) == pixel(before, p));
                        }
                    }
                }
                dx += 1;
            }
            proof {
                assert forall|p: int| 0 <= p < self.pixel_count() implies #[trigger] pixel(frame@, p)
                    == if self.cell_of(p) == (x as int, y as int) && self.row_of(p) < top + dy + 1 {
                    color
                } else {
                    pixel(old(frame)@, p)
                } by {
                    self.lemma_pixel_in_block(p, x as int, y as int);
                }
            }
            dy += 1;
        }
        proof {
            assert forall|p: int| 0 <= p < self.pixel_count() implies #[trigger] pixel(frame@, p)
                == if self.cell_of(p) == (x as int, y as int) {
                color
            } else {
                pixel(old(frame)@, p)
            } by {
                self.lemma_pixel_in_block(p, x as int, y as int);
            }
        }
    }

    /// Every pixel lies in one row and one column of the frame, and shows a
    /// cell of the grid.
    pub proof fn lemma_pixel_in_grid(&self, p: int)
        requires
            self.wf(),
            0 <= p < self.pixel_count(),
        ensures
            0 <= self.row_of(p) < self.pixel_height(),
            0 <= self.column_of(p) < self.pixel_width(),
            p == self.row_of(p) * self.pixel_width() + self.column_of(p),
            0 <= self.cell_of(p).0 < self.columns,
            0 <= self.cell_of(p).1 < self.rows,
    {
        let w = self.pixel_width();
        let h = self.pixel_height();
        assert(w > 0) by (nonlinear_arith)
            requires
                0 <= p < h * w,
                w == self.columns * self.scale_x,
        ;
        vstd::arithmetic::div_mod::lemma_fundamental_div_mod(p, w);
        vstd::arithmetic::div_mod::lemma_mod_bound(p, w);
        let row = p / w;
        let col = p % w;
        assert(0 <= row < h) by (nonlinear_arith)
            requires
                0 <= p < h * w,
                w > 0,
                p == w * row + col,
                0 <= col < w,
        ;
        assert(w * row == row * w) by (nonlinear_arith);
        lemma_quotient_below(col, self.scale_x as int, self.columns as int);
        lemma_quotient_below(row, self.scale_y as int, self.rows as int);
    }

    /// The pixels of a cell are those whose row and column fall within the
    /// cell's block.
    pub proof fn lemma_pixel_in_block(&self, p: int, x: int, y: int)
        requires
            self.wf(),
            0 <= p < self.pixel_count(),
        ensures
            self.cell_of(p) == (x, y) <==> {
                &&& x * self.scale_x <= self.column_of(p) < x * self.scale_x + self.scale_x
                &&& y * self.scale_y <= self.row_of(p) < y * self.scale_y + self.scale_y
            },
    {
        self.lemma_pixel_in_grid(p);
        lemma_quotient_block(self.column_of(p), self.scale_x as int, x);
        lemma_quotient_block(self.row_of(p), self.scale_y as int, y);
    }

    /// The pixel at offset `(dx, dy)` within the block of the cell `(x, y)`
    /// lies in the frame, and so do its four bytes.
    pub proof fn lemma_block_in_frame(&self, x: int, y: int, dx: int, dy: int)
        requires
            self.wf(),
            0 <= x < self.columns,
            0 <= y < self.rows,
            0 <= dx < self.scale_x,
            0 <= dy < self.scale_y,
        ensures
            0 <= x * self.scale_x,
            x * self.scale_x + dx < self.pixel_width(),
            0 <= y * self.scale_y,
            y * self.scale_y + dy < self.pixel_height(),
            0 <= (y * self.scale_y + dy) * self.pixel_width() + (x * self.scale_x + dx)
                < self.pixel_count(),
            self.row_of((y * self.scale_y + dy) * self.pixel_width() + (x * self.scale_x + dx)) == y
                * self.scale_y + dy,
            self.column_of((y * self.scale_y + dy) * self.pixel_width() + (x * self.scale_x + dx))
                == x * self.scale_x + dx,
    {
        let sx = self.scale_x as int;
        let sy = self.scale_y as int;
        let w = self.pixel_width();
        let h = self.pixel_height();
        lemma_offset_below(x, sx, self.columns as int, dx);
        lemma_offset_below(y, sy, self.rows as int, dy);
        let col = x * sx + dx;
        let row = y * sy + dy;
        lemma_offset_below(row, w, h, col);
        vstd::arithmetic::div_mod::lemma_fundamental_div_mod_converse(row * w + col, w, row, col);
    }
}

/// With `0 <= r < d` and `0 <= q < n`, the number `q * d + r` lies below
/// `n * d`.
proof fn lemma_offset_below(q: int, d: int, n: int, r: int)
    requires
        0 <= q < n,
        0 <= r < d,
    ensures
        0 <= q * d,
        0 <= q * d + r < n * d,
{
    assert(0 <= q * d && q * d + d <= n * d) by (nonlinear_arith)
        requires
            0 <= q < n,
            0 < d,
    ;
}

/// A non-negative number below `n * d` has a quotient by `d` below `n`.
proof fn lemma_quotient_below(v: int, d: int, n: int)
    requires
        0 < d,
        0 <= v < n * d,
    ensures
        0 <= v / d < n,
{
    vstd::arithmetic::div_mod::lemma_fundamental_div_mod(v, d);
    vstd::arithmetic::div_mod::lemma_mod_bound(v, d);
    let q = v / d;
    let r = v % d;
    assert(0 <= q < n) by (nonlinear_arith)
        requires
            0 < d,
            0 <= v < n * d,
            v == d * q + r,
            0 <= r < d,
    ;
}

/// The quotient of `v` by `d` is `q` exactly when `v` lies in the `q`-th
/// block of length `d`.
proof fn lemma_quotient_block(v: int, d: int, q: int)
    requires
        0 < d,
        0 <= v,
    ensures
        v / d == q <==> q * d <= v < q * d + d,
{
    vstd::arithmetic::div_mod::lemma_fundamental_div_mod(v, d);
    vstd::arithmetic::div_mod::lemma_mod_bound(v, d);
    if q * d <= v < q * d + d {
        vstd::arithmetic::div_mod::lemma_fundamental_div_mod_converse(v, d, q, v - q * d);
    }
    if v / d == q {
        assert(d * q == q * d) by (nonlinear_arith);
    }
}

} // verus!
