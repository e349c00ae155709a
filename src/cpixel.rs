use vstd::prelude::*;
use crate::bitmap_image::BitmapImage;
use crate::brightness::Brightness;
use crate::dimensions::Dimensions;
use core::marker::PhantomData;

verus! {

/// One character cell of the output: the glyph that stands for its brightness.
#[derive(Clone, Copy, Debug, PartialEq, Eq, Structural)]
pub struct Cpixel(pub char);

/// The number of glyphs on the ramp.
pub const RAMP_LEN: usize = 10;

/// The glyph ramp, from the lowest brightness (blank) to the highest (densest).
pub open spec fn ramp_glyph(i: nat) -> char {
    if i == 0 {
        ' '
    } else if i == 1 {
        '.'
    } else if i == 2 {
        ':'
    } else if i == 3 {
        '-'
    } else if i == 4 {
        '='
    } else if i == 5 {
        '+'
    } else if i == 6 {
        '*'
    } else if i == 7 {
        '#'
    } else if i == 8 {
        '%'
    } else {
        'N'
    }
}

/// The place on the ramp of a level on `0 ..= top`.
pub open spec fn ramp_index(level: nat, top: nat) -> nat {
    level * (RAMP_LEN - 1) as nat / top
}

/// The number of whole cells of size `cell` in an image of size `image`; a partial cell at
/// the bottom or right edge is left out.
pub open spec fn cell_grid(image: Dimensions, cell: Dimensions) -> Dimensions {
    Dimensions {
        height: if cell.height == 0 {
            0
        } else {
            image.height / cell.height
        },
        width: if cell.width == 0 {
            0
        } else {
            image.width / cell.width
        },
    }
}

/// The sum of the first `k` levels of the block whose top-left pixel is `(top, left)`, the
/// block's pixels being counted row by row, `cell_width` to a row.
pub open spec fn block_sum<T: Brightness>(
    buffer: Seq<T>,
    width: nat,
    top: int,
    left: int,
    cell_width: nat,
    k: nat,
) -> nat
    decreases k,
{
    if k == 0 {
        0
    } else {
        let p = k - 1;
        block_sum(buffer, width, top, left, cell_width, (k - 1) as nat) + buffer[(top + p
            / (cell_width as int)) * width + left + p % (cell_width as int)].level()
    }
}

/// The mean level, rounded down, of cell `j` of the grid, cells counted row by row.
pub open spec fn block_mean<T: Brightness>(
    buffer: Seq<T>,
    size: Dimensions,
    cell: Dimensions,
    j: int,
) -> nat {
    let grid = cell_grid(size, cell);
    let row = j / (grid.width as int);
    let col = j % (grid.width as int);
    block_sum(
        buffer,
        size.width as nat,
        row * cell.height,
        col * cell.width,
        cell.width as nat,
        cell.area(),
    ) / cell.area()
}

/// The mean level of each cell of the grid, row by row.
pub open spec fn block_means<T: Brightness>(
    buffer: Seq<T>,
    size: Dimensions,
    cell: Dimensions,
) -> Seq<nat> {
    Seq::new(cell_grid(size, cell).area(), |j: int| block_mean(buffer, size, cell, j))
}

/// The least element of `s`; zero for an empty sequence.
pub open spec fn seq_min(s: Seq<nat>) -> nat
    decreases s.len(),
{
    if s.len() == 0 {
        0
    } else if s.len() == 1 {
        s[0]
    } else {
        let m = seq_min(s.drop_last());
        if s.last() < m {
            s.last()
        } else {
            m
        }
    }
}

/// The greatest element of `s`; zero for an empty sequence.
pub open spec fn seq_max(s: Seq<nat>) -> nat
    decreases s.len(),
{
    if s.len() == 0 {
        0
    } else {
        let m = seq_max(s.drop_last());
        if s.last() > m {
            s.last()
        } else {
            m
        }
    }
}

/// A level on `lo ..= hi` moved to the full range `0 ..= top`; unchanged where the range
/// is a single level.
pub open spec fn stretch(level: nat, lo: nat, hi: nat, top: nat) -> nat {
    if lo < hi {
        ((level - lo) * top / ((hi - lo) as int)) as nat
    } else {
        level
    }
}

/// The glyphs of the cells of an image of size `size` over `buffer`, row by row: each cell's mean level, stretched over
/// the range of all the cells' means where `maximize_contrast` is set, placed on the ramp.
pub open spec fn cell_glyphs<T: Brightness>(
    buffer: Seq<T>,
    size: Dimensions,
    cell: Dimensions,
    maximize_contrast: bool,
) -> Seq<Cpixel> {
    let means = block_means(buffer, size, cell);
    let lo = seq_min(means);
    let hi = seq_max(means);
    Seq::new(
        means.len(),
        |j: int|
            {
                let m = if maximize_contrast {
                    stretch(means[j], lo, hi, T::top())
                } else {
                    means[j]
                };
                Cpixel(ramp_glyph(ramp_index(m, T::top())))
            },
    )
}

/// The glyph at place `i` of the ramp.
pub fn glyph(i: usize) -> (c: char)
    ensures
        c == ramp_glyph(i as nat),
{
    if i == 0 {
        ' '
    } else if i == 1 {
        '.'
    } else if i == 2 {
        ':'
    } else if i == 3 {
        '-'
    } else if i == 4 {
        '='
    } else if i == 5 {
        '+'
    } else if i == 6 {
        '*'
    } else if i == 7 {
        '#'
    } else if i == 8 {
        '%'
    } else {
        'N'
    }
}

/// Turns an image into a grid of glyphs, one for each cell-sized block of pixels.
pub struct CpixelConverter<T> {
    pixel: PhantomData<T>,
}

impl<T: Brightness> CpixelConverter<T> {
    /// A converter; it holds no state.
    pub fn new() -> (r: Self) {
        CpixelConverter { pixel: PhantomData }
    }

    /// One glyph for each whole cell of `cell_pixels` pixels in `image`, row by row; a
    /// partial cell at the bottom or right edge is left out. Each glyph stands for the
    /// cell's mean level, stretched over the range of all the cells' means where
    /// `maximize_contrast` is set.
    pub fn convert_one(
        &self,
        image: &BitmapImage<T>,
        cell_pixels: &Dimensions,
        maximize_contrast: bool,
    ) -> (r: BitmapImage<Cpixel>)
        requires
            image.wf(),
        ensures
            r.wf(),
            r.dimensions == cell_grid(image.dimensions, *cell_pixels),
            r.buffer@ == cell_glyphs(image.buffer@, image.dimensions, *cell_pixels, maximize_contrast),
    {
        let grid = Dimensions {
            height: if cell_pixels.height == 0 {
                0
            } else {
                image.dimensions.height / cell_pixels.height
            },
            width: if cell_pixels.width == 0 {
                0
            } else {
                image.dimensions.width / cell_pixels.width
            },
        };
        let ghost bm = block_means(image.buffer@, image.dimensions, *cell_pixels);
        let ghost top = T::top();
        // The buffer's length bounds every index computed below.
        // The buffer's length bounds every index computed below.
    let len: usize = image.buffer.len();
        proof {
            lemma_grid_fits(image.dimensions, *cell_pixels);
            if cell_pixels.height == 0 || cell_pixels.width == 0 {
                assert(cell_grid(image.dimensions, *cell_pixels).area() == 0) by (
                nonlinear_arith)
                    requires
                        cell_grid(image.dimensions, *cell_pixels).height == 0 || cell_grid(
                            image.dimensions,
                            *cell_pixels,
                        ).width == 0,
                ;
            }
        }
        assert(grid == cell_grid(image.dimensions, *cell_pixels));
        assert(grid.height as nat * grid.width as nat <= len);
        let n: usize = grid.height * grid.width;
        let mut means: Vec<u32> = Vec::new();
        let mut lo: u32 = 0;
        let mut hi: u32 = 0;
        let mut j: usize = 0;
        while j < n
            invariant
                image.wf(),
                len == image.buffer@.len(),
                n == bm.len(),
                n == grid.height * grid.width,
                grid == cell_grid(image.dimensions, *cell_pixels),
                bm == block_means(image.buffer@, image.dimensions, *cell_pixels),
                top == T::top(),
                j <= n,
                means@.len() == j,
                forall|q: int| 0 <= q < j ==> #[trigger] means@[q] as nat == bm[q],
                forall|q: int| 0 <= q < j ==> #[trigger] means@[q] <= top,
                lo as nat == seq_min(bm.take(j as int)),
                hi as nat == seq_max(bm.take(j as int)),
            decreases n - j,
        {
            proof {
                lemma_cell_of_index(grid, j as int);
            }
            let row = j / grid.width;
            let col = j % grid.width;
            let m = mean_of_block(image, cell_pixels, row, col);
            proof {
                assert(bm.take(j + 1).drop_last() =~= bm.take(j as int));
            }
            if j == 0 || m < lo {
                lo = m;
            }
            if j == 0 || m > hi {
                hi = m;
            }
            means.push(m);
            j = j + 1;
        }
        proof {
            assert(bm.take(n as int) =~= bm);
            lemma_seq_bounds(bm);
            if n > 0 {
                let q = choose|q: int| 0 <= q < bm.len() && bm[q] == seq_max(bm);
                assert(means@[q] <= top);
            }
        }
        let t = T::top_level();
        let glyphs = Ghost(cell_glyphs(image.buffer@, image.dimensions, *cell_pixels, maximize_contrast));
        let mut out: Vec<Cpixel> = Vec::new();
        let mut k: usize = 0;
        while k < n
            invariant
                n == bm.len(),
                means@.len() == n,
                forall|q: int| 0 <= q < n ==> #[trigger] means@[q] as nat == bm[q],
                forall|q: int| 0 <= q < n ==> #[trigger] means@[q] <= top,
                forall|q: int| 0 <= q < n ==> lo <= #[trigger] bm[q] <= hi,
                hi <= top,
                lo as nat == seq_min(bm),
                hi as nat == seq_max(bm),
                bm == block_means(image.buffer@, image.dimensions, *cell_pixels),
                top == T::top(),
                t == top,
                0 < t <= 0xffff,
                glyphs@ == cell_glyphs(image.buffer@, image.dimensions, *cell_pixels, maximize_contrast),
                k <= n,
                out@ =~= glyphs@.take(k as int),
            decreases n - k,
        {
            let m = means[k];
            let level: u64 = if maximize_contrast && lo < hi {
                proof {
                    assert((m - lo) as int * t <= 0xffff * 0xffff) by (nonlinear_arith)
                        requires
                            lo <= m <= hi,
                            hi <= t <= 0xffff,
                    ;
                    assert((m - lo) as int * t / ((hi - lo) as int) <= t) by (nonlinear_arith)
                        requires
                            lo <= m <= hi,
                            lo < hi,
                            0 < t,
                    ;
                }
                (m - lo) as u64 * t as u64 / (hi - lo) as u64
            } else {
                m as u64
            };
            proof {
                assert(level * (RAMP_LEN - 1) <= 0xffff * 9) by (nonlinear_arith)
                    requires
                        level <= 0xffff,
                ;
            }
            let c = Cpixel(glyph((level * (RAMP_LEN - 1) as u64 / t as u64) as usize));
            out.push(c);
            proof {
                assert(glyphs@.take(k + 1) =~= glyphs@.take(k as int).push(c));
            }
            k = k + 1;
        }
        proof {
            assert(glyphs@.take(n as int) =~= glyphs@);
        }
        BitmapImage { dimensions: grid, buffer: out }
    }
}

/// The mean level, rounded down, of the block at `(row, col)` of the grid of cells.
fn mean_of_block<T: Brightness>(
    image: &BitmapImage<T>,
    cell: &Dimensions,
    row: usize,
    col: usize,
) -> (r: u32)
    requires
        image.wf(),
        0 < cell.height,
        0 < cell.width,
        row < cell_grid(image.dimensions, *cell).height,
        col < cell_grid(image.dimensions, *cell).width,
    ensures
        r as nat == block_sum(
            image.buffer@,
            image.dimensions.width as nat,
            row * cell.height,
            col * cell.width,
            cell.width as nat,
            cell.area(),
        ) / cell.area(),
        r <= T::top(),
{
    let ch = cell.height;
    let cw = cell.width;
    let w = image.dimensions.width;
    let len: usize = image.buffer.len();
    proof {
        lemma_cell_fits(image.dimensions, *cell, row as int, col as int);
    }
    let top = row * ch;
    let left = col * cw;
    let n: usize = ch * cw;
    let ghost t = T::top();
    proof {
        T::lemma_top_bounded();
        assert(0 < n) by (nonlinear_arith)
            requires
                0 < ch,
                0 < cw,
                n == ch * cw,
        ;
    }
    let mut sum: u128 = 0;
    let mut k: usize = 0;
    while k < n
        invariant
            image.wf(),
            len == image.buffer@.len(),
            0 < ch,
            0 < cw,
            ch == cell.height,
            cw == cell.width,
            w == image.dimensions.width,
            row < cell_grid(image.dimensions, *cell).height,
            col < cell_grid(image.dimensions, *cell).width,
            top == row * ch,
            left == col * cw,
            n == cell.area(),
            k <= n,
            t == T::top(),
            t <= 0xffff,
            sum as nat == block_sum(image.buffer@, w as nat, top as int, left as int, cw as nat, k as nat),
            sum <= k * t,
        decreases n - k,
    {
        proof {
            lemma_block_pixel(image.dimensions, *cell, row as int, col as int, k as int);
        }
        let y = top + k / cw;
        let x = left + k % cw;
        let v = image.buffer[y * w + x].level_of();
        proof {
            image.buffer@[y * w + x].lemma_level_bounded();
            assert(sum + v <= (k + 1) * t) by (nonlinear_arith)
                requires
                    sum <= k * t,
                    v <= t,
            ;
            assert((k + 1) * t <= usize::MAX as int * 0xffff) by (nonlinear_arith)
                requires
                    k < n,
                    t <= 0xffff,
                    n <= usize::MAX,
            ;
        }
        sum = sum + v as u128;
        k = k + 1;
    }
    proof {
        assert(sum as int / (n as int) <= t) by (nonlinear_arith)
            requires
                sum <= n * t,
                0 < n,
        ;
    }
    (sum / n as u128) as u32
}

/// The grid of whole cells fits in the image, so its area fits where the image's does.
proof fn lemma_grid_fits(image: Dimensions, cell: Dimensions)
    ensures
        cell_grid(image, cell).height <= image.height,
        cell_grid(image, cell).width <= image.width,
        cell_grid(image, cell).area() <= image.area(),
{
    let g = cell_grid(image, cell);
    assert(g.height <= image.height) by (nonlinear_arith)
        requires
            g.height == (if cell.height == 0 { 0 } else { image.height / cell.height }),
    ;
    assert(g.width <= image.width) by (nonlinear_arith)
        requires
            g.width == (if cell.width == 0 { 0 } else { image.width / cell.width }),
    ;
    assert(g.area() <= image.area()) by (nonlinear_arith)
        requires
            g.height <= image.height,
            g.width <= image.width,
            g.area() == g.height as nat * g.width as nat,
            image.area() == image.height as nat * image.width as nat,
    ;
}

/// Position `j` of a grid lies in row `j / width` and column `j % width`, both in range.
proof fn lemma_cell_of_index(grid: Dimensions, j: int)
    requires
        0 <= j < grid.area(),
    ensures
        0 < grid.width,
        0 <= j / (grid.width as int) < grid.height,
        0 <= j % (grid.width as int) < grid.width,
{
    let gw = grid.width as int;
    let gh = grid.height as int;
    assert(0 < gw && 0 <= j / gw < gh) by (nonlinear_arith)
        requires
            0 <= j < gh * gw,
            0 <= gh,
            0 <= gw,
    ;
}

/// A whole cell at `(row, col)` of the grid lies inside the image.
proof fn lemma_cell_fits(image: Dimensions, cell: Dimensions, row: int, col: int)
    requires
        0 < cell.height,
        0 < cell.width,
        0 <= row < cell_grid(image, cell).height,
        0 <= col < cell_grid(image, cell).width,
    ensures
        (row + 1) * cell.height <= image.height,
        (col + 1) * cell.width <= image.width,
        row * cell.height <= image.height,
        col * cell.width <= image.width,
        cell.area() <= image.area(),
{
    let ch = cell.height as int;
    let cw = cell.width as int;
    let ih = image.height as int;
    let iw = image.width as int;
    assert((row + 1) * ch <= ih) by (nonlinear_arith)
        requires
            0 < ch,
            0 <= row < ih / ch,
            0 <= ih,
    ;
    assert((col + 1) * cw <= iw) by (nonlinear_arith)
        requires
            0 < cw,
            0 <= col < iw / cw,
            0 <= iw,
    ;
    assert(row * ch <= (row + 1) * ch) by (nonlinear_arith)
        requires
            0 < ch,
            0 <= row,
    ;
    assert(col * cw <= (col + 1) * cw) by (nonlinear_arith)
        requires
            0 < cw,
            0 <= col,
    ;
    assert(ch * cw <= ih * iw) by (nonlinear_arith)
        requires
            0 < ch,
            0 < cw,
            0 <= row,
            0 <= col,
            (row + 1) * ch <= ih,
            (col + 1) * cw <= iw,
    ;
}

/// Pixel `p` of the block at `(row, col)` lies inside the image.
proof fn lemma_block_pixel(image: Dimensions, cell: Dimensions, row: int, col: int, p: int)
    requires
        0 < cell.height,
        0 < cell.width,
        0 <= row < cell_grid(image, cell).height,
        0 <= col < cell_grid(image, cell).width,
        0 <= p < cell.area(),
    ensures
        ({
            let y = row * cell.height + p / (cell.width as int);
            let x = col * cell.width + p % (cell.width as int);
            &&& 0 <= y < image.height
            &&& 0 <= x < image.width
            &&& 0 <= y * image.width + x < image.area()
        }),
{
    lemma_cell_fits(image, cell, row, col);
    let ch = cell.height as int;
    let cw = cell.width as int;
    let ih = image.height as int;
    let iw = image.width as int;
    let y = row * ch + p / cw;
    let x = col * cw + p % cw;
    assert(0 <= p / cw < ch) by (nonlinear_arith)
        requires
            0 <= p < ch * cw,
            0 < cw,
    ;
    assert(0 <= y < ih) by (nonlinear_arith)
        requires
            0 <= p / cw < ch,
            y == row * ch + p / cw,
            (row + 1) * ch <= ih,
            0 <= row,
    ;
    assert(0 <= x < iw) by (nonlinear_arith)
        requires
            0 <= p % cw < cw,
            x == col * cw + p % cw,
            (col + 1) * cw <= iw,
            0 <= col,
    ;
    assert(0 <= y * iw + x < ih * iw) by (nonlinear_arith)
        requires
            0 <= y < ih,
            0 <= x < iw,
    ;
}

/// Every element of a non-empty sequence lies between its least and its greatest.
proof fn lemma_seq_bounds(s: Seq<nat>)
    ensures
        forall|q: int| 0 <= q < s.len() ==> seq_min(s) <= #[trigger] s[q] <= seq_max(s),
        s.len() > 0 ==> exists|q: int| 0 <= q < s.len() && s[q] == seq_max(s),
        s.len() == 0 ==> seq_max(s) == 0,
    decreases s.len(),
{
    if s.len() > 1 {
        lemma_seq_bounds(s.drop_last());
        assert forall|q: int| 0 <= q < s.len() implies seq_min(s) <= #[trigger] s[q] <= seq_max(s) by {
            if q < s.len() - 1 {
                assert(s[q] == s.drop_last()[q]);
            }
        }
        let q0 = choose|q: int| 0 <= q < s.drop_last().len() && s.drop_last()[q] == seq_max(s.drop_last());
        if s.last() > seq_max(s.drop_last()) {
            assert(s[s.len() - 1] == seq_max(s));
        } else {
            assert(s[q0] == seq_max(s));
        }
    } else if s.len() == 1 {
        assert(s.drop_last().len() == 0);
        assert(seq_max(s.drop_last()) == 0);
        assert(s[0] == seq_max(s));
    }
}

} // verus!
