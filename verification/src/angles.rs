//! Angle grids: which parameters make a grid, and the selection of angle
//! indices on a circular grid.
//!
//! The circular distance of each grid angle from a given angle is computed
//! by the caller. Which index is nearest, and which indices lie within a
//! half-range, is decided here over those distances.

use vstd::prelude::*;
use crate::error::CorrMatchError;
use crate::error::CorrMatchResult;
use crate::scalar::Scalar;
use crate::scalar::INFINITY_BITS;

verus! {

/// Why a grid over `[min_deg, max_deg)` with the given step cannot be made;
/// `None` where it can: all three are finite, the step is above zero, and
/// the interval is not empty.
pub open spec fn grid_fault(min_deg: Scalar, max_deg: Scalar, step_deg: Scalar) -> Option<
    CorrMatchError,
> {
    if !min_deg.is_finite() || !max_deg.is_finite() || !step_deg.is_finite() {
        Some(CorrMatchError::InvalidAngleGrid { reason: "non-finite angle grid parameters" })
    } else if step_deg.le(Scalar { bits: 0 }) {
        Some(CorrMatchError::InvalidAngleGrid { reason: "step_deg must be > 0" })
    } else if max_deg.le(min_deg) {
        Some(CorrMatchError::InvalidAngleGrid { reason: "max_deg must be greater than min_deg" })
    } else {
        None
    }
}

/// Checks the parameters of an angle grid over `[min_deg, max_deg)`.
pub fn validate_grid(min_deg: Scalar, max_deg: Scalar, step_deg: Scalar) -> (r: CorrMatchResult<()>)
    ensures
        match r {
            Ok(_) => grid_fault(min_deg, max_deg, step_deg) is None,
            Err(e) => grid_fault(min_deg, max_deg, step_deg) == Some(e),
        },
{
    if !min_deg.check_finite() || !max_deg.check_finite() || !step_deg.check_finite() {
        return Err(
            CorrMatchError::InvalidAngleGrid { reason: "non-finite angle grid parameters" },
        );
    }
    if step_deg.less_eq(Scalar::zero()) {
        return Err(CorrMatchError::InvalidAngleGrid { reason: "step_deg must be > 0" });
    }
    if max_deg.less_eq(min_deg) {
        return Err(
            CorrMatchError::InvalidAngleGrid { reason: "max_deg must be greater than min_deg" },
        );
    }
    Ok(())
}

/// The index found nearest among `dists` and its distance: the search starts
/// from index 0 at distance positive infinity and moves on to every index
/// whose distance is below the best so far.
pub open spec fn nearest_fold(dists: Seq<Scalar>) -> (int, Scalar)
    decreases dists.len(),
{
    if dists.len() == 0 {
        (0, Scalar { bits: INFINITY_BITS })
    } else {
        let before = nearest_fold(dists.drop_last());
        if dists.last().lt(before.1) {
            (dists.len() - 1, dists.last())
        } else {
            before
        }
    }
}

/// The nearest index is the first one of least distance: no distance is
/// below its distance, and every distance before it is above its distance
/// or a NaN. Where no distance is below positive infinity, it is index 0.
pub proof fn lemma_nearest_fold(dists: Seq<Scalar>)
    ensures
        forall|i: int| 0 <= i < dists.len() ==> !(#[trigger] dists[i]).lt(nearest_fold(dists).1),
        nearest_fold(dists).1.bits == INFINITY_BITS ==> nearest_fold(dists).0 == 0,
        nearest_fold(dists).1.bits != INFINITY_BITS ==> {
            &&& 0 <= nearest_fold(dists).0 < dists.len()
            &&& dists[nearest_fold(dists).0] == nearest_fold(dists).1
            &&& forall|i: int|
                0 <= i < nearest_fold(dists).0 ==> !(#[trigger] dists[i]).le(
                    nearest_fold(dists).1,
                )
        },
        dists.len() == 0 ==> nearest_fold(dists).0 == 0,
        dists.len() > 0 ==> 0 <= nearest_fold(dists).0 < dists.len(),
    decreases dists.len(),
{
    if dists.len() > 0 {
        let head = dists.drop_last();
        lemma_nearest_fold(head);
        let before = nearest_fold(head);
        let after = nearest_fold(dists);
        assert forall|i: int| 0 <= i < dists.len() implies !(#[trigger] dists[i]).lt(after.1) by {
            if i < head.len() {
                assert(!head[i].lt(before.1));
            }
        }
        if after.1.bits != INFINITY_BITS {
            assert forall|i: int| 0 <= i < after.0 implies !(#[trigger] dists[i]).le(after.1) by {
                assert(!head[i].lt(before.1));
                if before.1.bits != INFINITY_BITS && !dists.last().lt(before.1) {
                    assert(!head[i].le(before.1));
                }
            }
        }
    }
}

/// Returns the index of the least of the distances, the first such; 0 where
/// there is no distance below positive infinity.
pub fn nearest_index(dists: &[Scalar]) -> (idx: usize)
    ensures
        idx == nearest_fold(dists@).0,
{
    let mut best_idx: usize = 0;
    let mut best_dist = Scalar::from_bits(INFINITY_BITS);
    let mut i: usize = 0;
    while i < dists.len()
        invariant
            i <= dists@.len(),
            nearest_fold(dists@.take(i as int)) == (best_idx as int, best_dist),
        decreases dists@.len() - i,
    {
        proof {
            assert(dists@.take(i + 1).drop_last() =~= dists@.take(i as int));
        }
        if dists[i].less(best_dist) {
            best_dist = dists[i];
            best_idx = i;
        }
        i += 1;
    }
    proof {
        assert(dists@.take(dists@.len() as int) =~= dists@);
    }
    best_idx
}

/// The indices whose distance is at most `half_range`, in rising order;
/// none where `half_range` is below zero.
pub open spec fn within(dists: Seq<Scalar>, half_range: Scalar) -> Seq<usize>
    decreases dists.len(),
{
    if dists.len() == 0 || half_range.lt(Scalar { bits: 0 }) {
        Seq::empty()
    } else {
        let before = within(dists.drop_last(), half_range);
        if dists.last().le(half_range) {
            before.push((dists.len() - 1) as usize)
        } else {
            before
        }
    }
}

/// An index is selected iff its distance is at most the half-range and the
/// half-range is not below zero; the selected indices rise.
pub proof fn lemma_within(dists: Seq<Scalar>, half_range: Scalar)
    requires
        dists.len() <= usize::MAX,
    ensures
        forall|k: int|
            0 <= k < within(dists, half_range).len() ==> {
                let i = #[trigger] within(dists, half_range)[k];
                i < dists.len() && dists[i as int].le(half_range) && !half_range.lt(
                    Scalar { bits: 0 },
                )
            },
        forall|i: int|
            0 <= i < dists.len() && (#[trigger] dists[i]).le(half_range) && !half_range.lt(
                Scalar { bits: 0 },
            ) ==> within(dists, half_range).contains(i as usize),
        forall|j: int, k: int|
            0 <= j < k < within(dists, half_range).len() ==> (#[trigger] within(
                dists,
                half_range,
            )[j]) < (#[trigger] within(dists, half_range)[k]),
    decreases dists.len(),
{
    let out = within(dists, half_range);
    if dists.len() > 0 && !half_range.lt(Scalar { bits: 0 }) {
        let head = dists.drop_last();
        let before = within(head, half_range);
        lemma_within(head, half_range);
        assert forall|i: int|
            0 <= i < dists.len() && (#[trigger] dists[i]).le(half_range) implies out.contains(
            i as usize,
        ) by {
            if i < head.len() {
                assert(head[i].le(half_range));
                let k = choose|k: int| 0 <= k < before.len() && before[k] == i as usize;
                assert(out[k] == i as usize);
            } else {
                assert(out[out.len() - 1] == i as usize);
            }
        }
        assert forall|j: int, k: int| 0 <= j < k < out.len() implies (#[trigger] out[j]) < (
        #[trigger] out[k]) by {
            if k < before.len() {
                assert(before[j] < before[k]);
            } else {
                assert(before[j] < head.len());
            }
        }
    }
}

/// Returns the indices whose distance is at most `half_range`, in rising order.
pub fn indices_within(dists: &[Scalar], half_range: Scalar) -> (indices: Vec<usize>)
    ensures
        indices@ == within(dists@, half_range),
{
    let mut indices: Vec<usize> = Vec::new();
    if half_range.less(Scalar::zero()) {
        return indices;
    }
    let mut i: usize = 0;
    while i < dists.len()
        invariant
            i <= dists@.len(),
            !half_range.lt(Scalar { bits: 0 }),
            indices@ == within(dists@.take(i as int), half_range),
        decreases dists@.len() - i,
    {
        proof {
            assert(dists@.take(i + 1).drop_last() =~= dists@.take(i as int));
        }
        if dists[i].less_eq(half_range) {
            indices.push(i);
        }
        i += 1;
    }
    proof {
        assert(dists@.take(dists@.len() as int) =~= dists@);
    }
    indices
}

} // verus!
