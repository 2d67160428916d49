//! Where the final refinement samples scores: the 3x3 neighbourhood of the
//! best placement and the two neighbours of its angle on the circular grid.
//! The quadratic fit over the sampled scores is arithmetic on scores and is
//! left to the caller.

use vstd::prelude::*;
use crate::error::CorrMatchError;
use crate::error::CorrMatchResult;
use crate::kernel::ScanArea;
use crate::scalar::Scalar;

verus! {

/// Bits of the least curvature that a fit may have, `1e-6`.
pub const FIT_EPSILON_BITS: u32 = 0x3586_37bd;

/// Bits of the largest offset that a fit may give, `1.0`.
pub const UNIT_BITS: u32 = 0x3f80_0000;

/// Whether the quadratic through three samples at -1, 0 and +1 is accepted
/// as a peak: the samples `fm`, `f0`, `fp` are finite, the curvature
/// `fm - 2 f0 + fp` is negative and at least `1e-6` in size, and the offset
/// of the vertex, `0.5 (fm - fp) / curvature`, is finite and at most 1 in size.
pub open spec fn fit_accepted(
    fm: Scalar,
    f0: Scalar,
    fp: Scalar,
    curvature: Scalar,
    offset: Scalar,
) -> bool {
    &&& fm.is_finite()
    &&& f0.is_finite()
    &&& fp.is_finite()
    &&& !curvature.abs().lt(Scalar { bits: FIT_EPSILON_BITS })
    &&& !curvature.ge(Scalar { bits: 0 })
    &&& offset.is_finite()
    &&& offset.abs().le(Scalar { bits: UNIT_BITS })
}

/// Decides whether a quadratic fit is accepted, given the three samples, the
/// curvature and the offset computed from them; returns the offset where it is.
pub fn accept_fit(fm: Scalar, f0: Scalar, fp: Scalar, curvature: Scalar, offset: Scalar) -> (r:
    Option<Scalar>)
    ensures
        r == if fit_accepted(fm, f0, fp, curvature, offset) {
            Some(offset)
        } else {
            None
        },
{
    if !fm.check_finite() || !f0.check_finite() || !fp.check_finite() {
        return None;
    }
    if curvature.absolute().less(Scalar::from_bits(FIT_EPSILON_BITS)) || curvature.greater_eq(
        Scalar::zero(),
    ) {
        return None;
    }
    if offset.check_finite() && offset.absolute().less_eq(Scalar::from_bits(UNIT_BITS)) {
        Some(offset)
    } else {
        None
    }
}

/// The coordinate next to `center` at `step - 1` (`step` is 0, 1 or 2), if
/// it lies in `[0, max]`.
pub open spec fn shifted(center: int, step: int, max: int) -> Option<usize> {
    let v = center + step - 1;
    if 0 <= v <= max {
        Some(v as usize)
    } else {
        None
    }
}

/// The placement in row `iy` and column `ix` of the 3x3 neighbourhood of `(x, y)`,
/// if it is a valid placement.
pub open spec fn cell(x: int, y: int, ix: int, iy: int, area: ScanArea) -> Option<(usize, usize)> {
    match (shifted(x, ix, area.max_x()), shifted(y, iy, area.max_y())) {
        (Some(cx), Some(cy)) => Some((cx, cy)),
        _ => None,
    }
}

/// The error reported where the placement to refine is not a valid one.
pub open spec fn misplaced(x: usize, y: usize, area: ScanArea) -> CorrMatchError {
    CorrMatchError::RoiOutOfBounds {
        x,
        y,
        width: area.tpl_width,
        height: area.tpl_height,
        img_width: area.img_width,
        img_height: area.img_height,
    }
}

fn shift(center: usize, step: usize, max: usize) -> (r: Option<usize>)
    requires
        step <= 2,
        center <= max,
    ensures
        r == shifted(center as int, step as int, max as int),
{
    if step == 0 {
        if center == 0 {
            None
        } else {
            Some(center - 1)
        }
    } else if step == 1 {
        Some(center)
    } else {
        if center < max {
            Some(center + 1)
        } else {
            None
        }
    }
}

/// The nine placements at which the scores around `(x, y)` are sampled,
/// row by row: entry `3 * iy + ix` is the placement `(x + ix - 1, y + iy - 1)`,
/// or `None` where that is no valid placement. It is an error if `(x, y)`
/// itself is not a valid placement.
pub fn neighborhood(x: usize, y: usize, area: ScanArea) -> (r: CorrMatchResult<
    Vec<Option<(usize, usize)>>,
>)
    ensures
        match r {
            Ok(cells) => {
                &&& area.fits()
                &&& x <= area.max_x()
                &&& y <= area.max_y()
                &&& cells@.len() == 9
                &&& forall|ix: int, iy: int|
                    0 <= ix < 3 && 0 <= iy < 3 ==> #[trigger] cells@[3 * iy + ix] == cell(
                        x as int,
                        y as int,
                        ix,
                        iy,
                        area,
                    )
            },
            Err(e) => (!area.fits() || x > area.max_x() || y > area.max_y()) && e == misplaced(
                x,
                y,
                area,
            ),
        },
{
    if area.img_width < area.tpl_width || area.img_height < area.tpl_height {
        return Err(
            CorrMatchError::RoiOutOfBounds {
                x,
                y,
                width: area.tpl_width,
                height: area.tpl_height,
                img_width: area.img_width,
                img_height: area.img_height,
            },
        );
    }
    let max_x = area.img_width - area.tpl_width;
    let max_y = area.img_height - area.tpl_height;
    if x > max_x || y > max_y {
        return Err(
            CorrMatchError::RoiOutOfBounds {
                x,
                y,
                width: area.tpl_width,
                height: area.tpl_height,
                img_width: area.img_width,
                img_height: area.img_height,
            },
        );
    }
    let mut cells: Vec<Option<(usize, usize)>> = Vec::with_capacity(9);
    let mut iy: usize = 0;
    while iy < 3
        invariant
            iy <= 3,
            area.fits(),
            max_x == area.max_x(),
            max_y == area.max_y(),
            x <= max_x,
            y <= max_y,
            cells@.len() == 3 * iy,
            forall|jx: int, jy: int|
                0 <= jx < 3 && 0 <= jy < iy ==> #[trigger] cells@[3 * jy + jx] == cell(
                    x as int,
                    y as int,
                    jx,
                    jy,
                    area,
                ),
        decreases 3 - iy,
    {
        let cy = shift(y, iy, max_y);
        let mut ix: usize = 0;
        while ix < 3
            invariant
                ix <= 3,
                iy < 3,
                area.fits(),
                max_x == area.max_x(),
                max_y == area.max_y(),
                x <= max_x,
                y <= max_y,
                cy == shifted(y as int, iy as int, max_y as int),
                cells@.len() == 3 * iy + ix,
                forall|jx: int, jy: int|
                    0 <= jx < 3 && 0 <= jy < iy ==> #[trigger] cells@[3 * jy + jx] == cell(
                        x as int,
                        y as int,
                        jx,
                        jy,
                        area,
                    ),
                forall|jx: int|
                    0 <= jx < ix ==> #[trigger] cells@[3 * iy + jx] == cell(
                        x as int,
                        y as int,
                        jx,
                        iy as int,
                        area,
                    ),
            decreases 3 - ix,
        {
            let cx = shift(x, ix, max_x);
            let entry = match (cx, cy) {
                (Some(px), Some(py)) => Some((px, py)),
                _ => None,
            };
            cells.push(entry);
            ix += 1;
        }
        iy += 1;
    }
    Ok(cells)
}

/// The angle indices before and after `idx` on a circular grid of `len` angles.
pub fn ring_neighbors(idx: usize, len: usize) -> (r: (usize, usize))
    requires
        len > 0,
    ensures
        r.0 == (idx + len - 1) % (len as int),
        r.1 == (idx + 1) % (len as int),
{
    let at = idx % len;
    let before = if at == 0 {
        len - 1
    } else {
        at - 1
    };
    let after = if at + 1 == len {
        0
    } else {
        at + 1
    };
    proof {
        let n = len as int;
        vstd::arithmetic::div_mod::lemma_fundamental_div_mod(idx as int, n);
        let q = idx as int / n;
        assert(idx == n * q + at);
        if at == 0 {
            assert(idx + len - 1 == (q * n) + (n - 1)) by (nonlinear_arith)
                requires
                    idx == n * q + at,
                    at == 0,
                    n == len,
            ;
            vstd::arithmetic::div_mod::lemma_fundamental_div_mod_converse(
                idx + len - 1,
                n,
                q,
                n - 1,
            );
        } else {
            assert(idx + len - 1 == ((q + 1) * n) + (at - 1)) by (nonlinear_arith)
                requires
                    idx == n * q + at,
                    n == len,
            ;
            vstd::arithmetic::div_mod::lemma_fundamental_div_mod_converse(
                idx + len - 1,
                n,
                q + 1,
                at - 1,
            );
        }
        if at + 1 == len {
            assert(idx + 1 == ((q + 1) * n) + 0) by (nonlinear_arith)
                requires
                    idx == n * q + at,
                    at + 1 == n,
            ;
            vstd::arithmetic::div_mod::lemma_fundamental_div_mod_converse(idx + 1, n, q + 1, 0);
        } else {
            assert(idx + 1 == (q * n) + (at + 1)) by (nonlinear_arith)
                requires
                    idx == n * q + at,
            ;
            vstd::arithmetic::div_mod::lemma_fundamental_div_mod_converse(idx + 1, n, q, at + 1);
        }
    }
    (before, after)
}

} // verus!
