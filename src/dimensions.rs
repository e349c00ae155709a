use vstd::prelude::*;

verus! {

/// A plain two-dimensional size: a number of rows and a number of columns.
#[derive(Clone, Copy, Debug, PartialEq, Eq, Structural)]
pub struct Dimensions {
    pub height: usize,
    pub width: usize,
}

impl Dimensions {
    /// The number of cells covered by this size.
    pub open spec fn area(self) -> nat {
        self.height as nat * self.width as nat
    }

    /// True when either side is zero.
    pub open spec fn is_degenerate(self) -> bool {
        self.height == 0 || self.width == 0
    }

    /// The aspect-locked fit of `source` inside `bounds`: the smaller of the two scale
    /// factors `bounds.height / source.height` and `bounds.width / source.width` is applied
    /// to both sides, and the results are rounded down.
    pub open spec fn fit_spec(source: Dimensions, bounds: Dimensions) -> Dimensions {
        if source.is_degenerate() || bounds.is_degenerate() {
            Dimensions { height: 0, width: 0 }
        } else if bounds.height as nat * source.width as nat <= bounds.width as nat
            * source.height as nat {
            Dimensions {
                height: bounds.height,
                width: (source.width as nat * bounds.height as nat / source.height as nat) as usize,
            }
        } else {
            Dimensions {
                height: (source.height as nat * bounds.width as nat / source.width as nat) as usize,
                width: bounds.width,
            }
        }
    }

    /// The largest size within `bounds` that keeps the aspect ratio of `source`,
    /// each side rounded down; `{0, 0}` where either argument has a zero side.
    pub fn fit_with_locked_ratio(source: &Dimensions, bounds: &Dimensions) -> (r: Dimensions)
        ensures
            r == Self::fit_spec(*source, *bounds),
            r.height <= bounds.height,
            r.width <= bounds.width,
            source.is_degenerate() || bounds.is_degenerate() ==> r == (Dimensions {
                height: 0,
                width: 0,
            }),
    {
        if source.height == 0 || source.width == 0 || bounds.height == 0 || bounds.width == 0 {
            return Dimensions { height: 0, width: 0 };
        }
        let sh = source.height as u128;
        let sw = source.width as u128;
        let bh = bounds.height as u128;
        let bw = bounds.width as u128;
        proof {
            lemma_product_fits(bh, sw);
            lemma_product_fits(bw, sh);
        }
        if bh * sw <= bw * sh {
            let w = sw * bh / sh;
            proof {
                lemma_div_bounded((sw * bh) as int, sh as int, bw as int);
            }
            Dimensions { height: bounds.height, width: w as usize }
        } else {
            let h = sh * bw / sw;
            proof {
                lemma_div_bounded((sh * bw) as int, sw as int, bh as int);
            }
            Dimensions { height: h as usize, width: bounds.width }
        }
    }
}

/// For sizes with no zero side, the fit stays within the bounds, reaches one of them,
/// keeps the source's aspect ratio up to rounding down of the other side, and no
/// size within the bounds with exactly the source's aspect ratio is larger on either side.
pub proof fn lemma_fit_is_maximal(source: Dimensions, bounds: Dimensions)
    requires
        !source.is_degenerate(),
        !bounds.is_degenerate(),
    ensures
        ({
            let r = Dimensions::fit_spec(source, bounds);
            let (sh, sw) = (source.height as int, source.width as int);
            &&& r.height <= bounds.height
            &&& r.width <= bounds.width
            &&& (r.height == bounds.height && r.width * sh <= r.height * sw < (r.width + 1) * sh)
                || (r.width == bounds.width && r.height * sw <= r.width * sh < (r.height + 1)
                * sw)
            &&& forall|h: int, w: int|
                #![trigger h * sw, w * sh]
                0 <= h <= bounds.height && 0 <= w <= bounds.width && h * sw == w * sh
                    ==> h <= r.height && w <= r.width
        }),
{
    let r = Dimensions::fit_spec(source, bounds);
    let sh = source.height as int;
    let sw = source.width as int;
    let bh = bounds.height as int;
    let bw = bounds.width as int;
    if bh * sw <= bw * sh {
        let x = sw * bh;
        lemma_div_bounded(x, sh, bw);
        lemma_floor_bracket(x, sh);
        assert(r.width == x / sh);
        assert forall|h: int, w: int|
            #![trigger h * sw, w * sh]
            0 <= h <= bh && 0 <= w <= bw && h * sw == w * sh implies h <= r.height && w
                <= r.width by {
            lemma_ratio_dominated(h, w, sh, sw, bh);
        }
    } else {
        let x = sh * bw;
        lemma_div_bounded(x, sw, bh);
        lemma_floor_bracket(x, sw);
        assert(r.height == x / sw);
        assert forall|h: int, w: int|
            #![trigger h * sw, w * sh]
            0 <= h <= bh && 0 <= w <= bw && h * sw == w * sh implies h <= r.height && w
                <= r.width by {
            lemma_ratio_dominated(w, h, sw, sh, bw);
        }
    }
}

/// The fit never exceeds the bounds, whatever the sizes.
pub proof fn lemma_fit_within_bounds(source: Dimensions, bounds: Dimensions)
    ensures
        Dimensions::fit_spec(source, bounds).height <= bounds.height,
        Dimensions::fit_spec(source, bounds).width <= bounds.width,
{
    if !source.is_degenerate() && !bounds.is_degenerate() {
        lemma_fit_is_maximal(source, bounds);
    }
}

/// Where either size has a zero side the fit is the empty size.
pub proof fn lemma_fit_degenerate(source: Dimensions, bounds: Dimensions)
    requires
        source.is_degenerate() || bounds.is_degenerate(),
    ensures
        Dimensions::fit_spec(source, bounds) == (Dimensions { height: 0, width: 0 }),
{
}

/// `(x / d) * d <= x < (x / d + 1) * d` for a positive divisor.
proof fn lemma_floor_bracket(x: int, d: int)
    requires
        0 <= x,
        0 < d,
    ensures
        (x / d) * d <= x < (x / d + 1) * d,
{
    assert((x / d) * d <= x < (x / d + 1) * d) by (nonlinear_arith)
        requires
            0 <= x,
            0 < d,
    ;
}

/// A pair `(a, b)` with ratio `sa : sb` and `a <= bound` has `b <= sb * bound / sa`.
proof fn lemma_ratio_dominated(a: int, b: int, sa: int, sb: int, bound: int)
    requires
        0 <= a <= bound,
        0 <= b,
        0 < sa,
        0 < sb,
        a * sb == b * sa,
    ensures
        b <= sb * bound / sa,
{
    assert(b * sa <= sb * bound) by (nonlinear_arith)
        requires
            0 <= a <= bound,
            0 < sb,
            a * sb == b * sa,
    ;
    assert(b <= sb * bound / sa) by (nonlinear_arith)
        requires
            b * sa <= sb * bound,
            0 < sa,
            0 <= b,
    ;
}

proof fn lemma_product_fits(a: u128, b: u128)
    requires
        a <= usize::MAX,
        b <= usize::MAX,
    ensures
        a * b <= u128::MAX,
{
    assert(a * b <= usize::MAX as int * usize::MAX as int) by (nonlinear_arith)
        requires
            a <= usize::MAX,
            b <= usize::MAX,
    ;
    assert(usize::MAX as int * usize::MAX as int <= u128::MAX) by (nonlinear_arith);
}

/// `x / d` stays within `bound` when `x <= bound * d`.
proof fn lemma_div_bounded(x: int, d: int, bound: int)
    requires
        0 <= x,
        0 < d,
        0 <= bound,
        x <= bound * d,
    ensures
        x / d <= bound,
{
    assert(x / d <= bound) by (nonlinear_arith)
        requires
            0 <= x,
            0 < d,
            0 <= bound,
            x <= bound * d,
    ;
}

} // verus!
