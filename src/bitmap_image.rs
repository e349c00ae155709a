use vstd::prelude::*;
use crate::dimensions::Dimensions;

verus! {

/// A rectangular picture stored row by row.
#[derive(Debug)]
pub struct BitmapImage<T> {
    pub dimensions: Dimensions,
    pub buffer: Vec<T>,
}

/// Where nearest-neighbour resampling from `source` to `target` reads the sample for
/// position `i` of the target's buffer.
pub open spec fn sample_index(source: Dimensions, target: Dimensions, i: int) -> int {
    let y = i / target.width as int;
    let x = i % target.width as int;
    (y * source.height as int / target.height as int) * source.width as int + x
        * source.width as int / target.width as int
}

/// The buffer of `buffer` (of size `source`) resampled to `target` by nearest neighbour.
pub open spec fn resampled<T>(buffer: Seq<T>, source: Dimensions, target: Dimensions) -> Seq<T> {
    Seq::new(target.area(), |i: int| buffer[sample_index(source, target, i)])
}

impl<T: Copy> BitmapImage<T> {
    /// The buffer holds exactly one sample per position.
    pub open spec fn wf(&self) -> bool {
        self.buffer@.len() == self.dimensions.area()
    }

    /// An image of the given size over the given samples, in row-major order.
    pub fn new(dimensions: Dimensions, buffer: Vec<T>) -> (r: Self)
        requires
            buffer@.len() == dimensions.area(),
        ensures
            r.wf(),
            r.dimensions == dimensions,
            r.buffer@ == buffer@,
    {
        BitmapImage { dimensions, buffer }
    }

    /// This image resampled to `target` by nearest neighbour; empty where `target` has a
    /// zero side.
    pub fn resize(&self, target: &Dimensions) -> (r: BitmapImage<T>)
        requires
            self.wf(),
            target.area() <= usize::MAX,
            !target.is_degenerate() ==> !self.dimensions.is_degenerate(),
        ensures
            r.wf(),
            r.dimensions == *target,
            r.buffer@ == resampled(self.buffer@, self.dimensions, *target),
    {
        let th = target.height;
        let tw = target.width;
        let sh = self.dimensions.height;
        let sw = self.dimensions.width;
        let mut out: Vec<T> = Vec::new();
        if th == 0 || tw == 0 {
            proof {
                assert(target.area() == 0) by (nonlinear_arith)
                    requires
                        th == 0 || tw == 0,
                        target.area() == th as nat * tw as nat,
                ;
                assert(out@ =~= resampled(self.buffer@, self.dimensions, *target));
            }
            return BitmapImage { dimensions: *target, buffer: out };
        }
        let n: usize = th * tw;
        // The buffer's length bounds every index computed below.
        let len: usize = self.buffer.len();
        let mut i: usize = 0;
        while i < n
            invariant
                self.wf(),
                0 < th,
                0 < tw,
                0 < sh,
                0 < sw,
                th == target.height,
                tw == target.width,
                sh == self.dimensions.height,
                sw == self.dimensions.width,
                n == target.area(),
                len == self.buffer@.len(),
                i <= n,
                out@ =~= Seq::new(
                    i as nat,
                    |k: int| self.buffer@[sample_index(self.dimensions, *target, k)],
                ),
            decreases n - i,
        {
            let y = i / tw;
            let x = i % tw;
            proof {
                lemma_sample_index_in_range(self.dimensions, *target, i as int);
                lemma_product_small(y as int, sh as int, th as int);
                lemma_product_small(x as int, sw as int, tw as int);
            }
            let sy = ((y as u128 * sh as u128) / th as u128) as usize;
            let sx = ((x as u128 * sw as u128) / tw as u128) as usize;
            assert(sy as int * sw as int + sx as int == sample_index(
                self.dimensions,
                *target,
                i as int,
            ));
            let v = self.buffer[sy * sw + sx];
            out.push(v);
            i = i + 1;
        }
        BitmapImage { dimensions: *target, buffer: out }
    }
}

proof fn lemma_product_small(y: int, s: int, t: int)
    requires
        0 <= y < t,
        0 <= s <= usize::MAX,
        t <= usize::MAX,
    ensures
        y * s <= u128::MAX,
{
    assert(y * s <= usize::MAX as int * usize::MAX as int) by (nonlinear_arith)
        requires
            0 <= y < t,
            t <= usize::MAX,
            0 <= s <= usize::MAX,
    ;
    assert(usize::MAX as int * usize::MAX as int <= u128::MAX) by (nonlinear_arith);
}

/// Every position of a non-empty target reads a position inside the source.
proof fn lemma_sample_index_in_range(source: Dimensions, target: Dimensions, i: int)
    requires
        !source.is_degenerate(),
        !target.is_degenerate(),
        0 <= i < target.area(),
    ensures
        0 <= i / (target.width as int) < target.height,
        0 <= i % (target.width as int) < target.width,
        0 <= (i / target.width as int) * source.height as int / (target.height as int)
            < source.height,
        0 <= (i % target.width as int) * source.width as int / (target.width as int)
            < source.width,
        0 <= sample_index(source, target, i) < source.area(),
{
    let th = target.height as int;
    let tw = target.width as int;
    let sh = source.height as int;
    let sw = source.width as int;
    let y = i / tw;
    let x = i % tw;
    assert(0 <= y < th) by (nonlinear_arith)
        requires
            0 <= i < th * tw,
            0 < tw,
            y == i / tw,
    ;
    assert(0 <= x < tw);
    let sy = y * sh / th;
    let sx = x * sw / tw;
    assert(0 <= sy < sh) by (nonlinear_arith)
        requires
            0 <= y < th,
            0 < sh,
            sy == y * sh / th,
    ;
    assert(0 <= sx < sw) by (nonlinear_arith)
        requires
            0 <= x < tw,
            0 < sw,
            sx == x * sw / tw,
    ;
    assert(0 <= sy * sw + sx < sh * sw) by (nonlinear_arith)
        requires
            0 <= sy < sh,
            0 <= sx < sw,
    ;
}

} // verus!
