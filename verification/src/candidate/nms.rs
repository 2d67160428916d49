//! Non-maximum suppression of peaks.
//!
//! Peaks are taken in canonical ranking, best first. A peak is kept if it is
//! farther than the radius, in Chebyshev distance, from every peak kept
//! before it. With radius 0 nothing is suppressed.

use vstd::prelude::*;
use vstd::slice::slice_to_vec;
use crate::candidate::topk::is_ranked;
use crate::candidate::topk::lemma_sorted_desc;
use crate::candidate::topk::sort_peaks_desc;
use crate::candidate::topk::sorted_desc;
use crate::candidate::topk::Peak;

verus! {

/// Chebyshev distance between the positions of two peaks: `max(|dx|, |dy|)`.
pub open spec fn chebyshev(a: Peak, b: Peak) -> int {
    let dx = if a.x >= b.x {
        a.x - b.x
    } else {
        b.x - a.x
    };
    let dy = if a.y >= b.y {
        a.y - b.y
    } else {
        b.y - a.y
    };
    if dx >= dy {
        dx
    } else {
        dy
    }
}

/// Whether `p` is farther than `radius` from every peak of `kept`.
pub open spec fn clear_of(kept: Seq<Peak>, p: Peak, radius: nat) -> bool {
    forall|i: int| 0 <= i < kept.len() ==> #[trigger] chebyshev(kept[i], p) > radius
}

/// Greedy suppression over a sequence taken front to back: a peak is kept
/// iff it is clear of all peaks kept before it.
pub open spec fn suppress(ranked: Seq<Peak>, radius: nat) -> Seq<Peak>
    decreases ranked.len(),
{
    if ranked.len() == 0 {
        ranked
    } else {
        let kept = suppress(ranked.drop_last(), radius);
        if clear_of(kept, ranked.last(), radius) {
            kept.push(ranked.last())
        } else {
            kept
        }
    }
}

/// Non-maximum suppression of `peaks`: ranked best first, then suppressed;
/// with radius 0 only ranked.
pub open spec fn nms(peaks: Seq<Peak>, radius: nat) -> Seq<Peak> {
    if radius == 0 {
        sorted_desc(peaks)
    } else {
        suppress(sorted_desc(peaks), radius)
    }
}

/// Greedy suppression keeps no more peaks than it is given, and always the first.
pub proof fn lemma_suppress_first(ranked: Seq<Peak>, radius: nat)
    ensures
        suppress(ranked, radius).len() <= ranked.len(),
        ranked.len() > 0 ==> suppress(ranked, radius).len() > 0 && suppress(ranked, radius)[0]
            == ranked[0],
    decreases ranked.len(),
{
    if ranked.len() > 0 {
        let head = ranked.drop_last();
        lemma_suppress_first(head, radius);
        if head.len() > 0 {
            assert(head[0] == ranked[0]);
        }
    }
}

/// Any two peaks that greedy suppression keeps are farther apart than the radius.
pub proof fn lemma_suppress_separated(ranked: Seq<Peak>, radius: nat)
    ensures
        forall|i: int, j: int|
            0 <= i < j < suppress(ranked, radius).len() ==> #[trigger] chebyshev(
                suppress(ranked, radius)[i],
                suppress(ranked, radius)[j],
            ) > radius,
    decreases ranked.len(),
{
    let out = suppress(ranked, radius);
    if ranked.len() > 0 {
        let kept = suppress(ranked.drop_last(), radius);
        lemma_suppress_separated(ranked.drop_last(), radius);
        assert forall|i: int, j: int| 0 <= i < j < out.len() implies #[trigger] chebyshev(
            out[i],
            out[j],
        ) > radius by {
            if j < kept.len() {
                assert(chebyshev(kept[i], kept[j]) > radius);
            } else {
                assert(chebyshev(kept[i], ranked.last()) > radius);
            }
        }
    }
}

/// Greedy suppression keeps peaks of its input, in the order of the input.
pub proof fn lemma_suppress_members(ranked: Seq<Peak>, radius: nat)
    ensures
        forall|i: int|
            0 <= i < suppress(ranked, radius).len() ==> ranked.contains(
                #[trigger] suppress(ranked, radius)[i],
            ),
        is_ranked(ranked) ==> is_ranked(suppress(ranked, radius)),
    decreases ranked.len(),
{
    let out = suppress(ranked, radius);
    if ranked.len() > 0 {
        let head = ranked.drop_last();
        let last = ranked.last();
        let kept = suppress(head, radius);
        lemma_suppress_members(head, radius);
        assert forall|i: int| 0 <= i < out.len() implies ranked.contains(#[trigger] out[i]) by {
            if i < kept.len() {
                assert(head.contains(kept[i]));
                let at = choose|at: int| 0 <= at < head.len() && head[at] == kept[i];
                assert(ranked[at] == kept[i]);
            } else {
                assert(ranked[ranked.len() - 1] == last);
            }
        }
        if is_ranked(ranked) {
            assert forall|i: int, j: int| 0 <= i < j < head.len() implies (
            #[trigger] head[i]).ranks_no_later(#[trigger] head[j]) by {
                assert(ranked[i].ranks_no_later(ranked[j]));
            }
            assert forall|i: int, j: int| 0 <= i < j < out.len() implies (
            #[trigger] out[i]).ranks_no_later(#[trigger] out[j]) by {
                if j < kept.len() {
                    assert(kept[i].ranks_no_later(kept[j]));
                } else {
                    assert(head.contains(kept[i]));
                    let at = choose|at: int| 0 <= at < head.len() && head[at] == kept[i];
                    assert(ranked[at].ranks_no_later(ranked[ranked.len() - 1]));
                }
            }
        }
    }
}

/// Every peak given to greedy suppression lies within the radius of a peak kept.
pub proof fn lemma_suppress_covers(ranked: Seq<Peak>, radius: nat, j: int)
    requires
        0 <= j < ranked.len(),
    ensures
        !clear_of(suppress(ranked, radius), ranked[j], radius),
    decreases ranked.len(),
{
    let out = suppress(ranked, radius);
    let head = ranked.drop_last();
    let last = ranked.last();
    let kept = suppress(head, radius);
    if j < head.len() {
        lemma_suppress_covers(head, radius, j);
        assert(ranked[j] == head[j]);
        let at = choose|at: int|
            0 <= at < kept.len() && #[trigger] chebyshev(kept[at], head[j]) <= radius;
        assert(out[at] == kept[at]);
        assert(chebyshev(out[at], ranked[j]) <= radius);
    } else if clear_of(kept, last, radius) {
        assert(out[out.len() - 1] == last);
        assert(chebyshev(out[out.len() - 1], last) == 0);
    } else {
        let at = choose|at: int|
            0 <= at < kept.len() && #[trigger] chebyshev(kept[at], last) <= radius;
        assert(out[at] == kept[at]);
        assert(chebyshev(out[at], last) <= radius);
    }
}

/// Any two peaks that suppression with a positive radius returns are farther
/// apart than the radius; they come best first; each is one of the peaks
/// given; the best peak of all is among them; and every peak given lies
/// within the radius of one that is returned.
pub proof fn lemma_nms_separated(peaks: Seq<Peak>, radius: nat)
    requires
        radius > 0,
    ensures
        forall|i: int, j: int|
            0 <= i < j < nms(peaks, radius).len() ==> #[trigger] chebyshev(
                nms(peaks, radius)[i],
                nms(peaks, radius)[j],
            ) > radius,
        is_ranked(nms(peaks, radius)),
        forall|i: int|
            0 <= i < nms(peaks, radius).len() ==> peaks.contains(#[trigger] nms(peaks, radius)[i]),
        forall|j: int|
            0 <= j < peaks.len() ==> !clear_of(nms(peaks, radius), #[trigger] peaks[j], radius),
        peaks.len() > 0 ==> nms(peaks, radius).len() > 0 && nms(peaks, radius)[0] == sorted_desc(
            peaks,
        )[0],
{
    broadcast use vstd::seq_lib::group_to_multiset_ensures;

    let ranked = sorted_desc(peaks);
    let out = nms(peaks, radius);
    lemma_sorted_desc(peaks);
    lemma_suppress_first(ranked, radius);
    lemma_suppress_separated(ranked, radius);
    lemma_suppress_members(ranked, radius);
    assert forall|i: int| 0 <= i < out.len() implies peaks.contains(#[trigger] out[i]) by {
        assert(ranked.contains(out[i]));
        assert(ranked.to_multiset().count(out[i]) > 0);
    }
    assert forall|j: int| 0 <= j < peaks.len() implies !clear_of(out, #[trigger] peaks[j], radius) by {
        assert(peaks.contains(peaks[j]));
        assert(peaks.to_multiset().count(peaks[j]) > 0);
        assert(ranked.contains(peaks[j]));
        let at = choose|at: int| 0 <= at < ranked.len() && ranked[at] == peaks[j];
        lemma_suppress_covers(ranked, radius, at);
    }
}

/// Suppression goes by which peaks are given, not by the order in which they are given.
pub proof fn lemma_nms_order_free(a: Seq<Peak>, b: Seq<Peak>, radius: nat)
    requires
        a.to_multiset() == b.to_multiset(),
    ensures
        nms(a, radius) == nms(b, radius),
{
    lemma_sorted_desc(a);
    lemma_sorted_desc(b);
    crate::candidate::topk::lemma_ranking_unique(sorted_desc(a), sorted_desc(b));
}

/// Applies 2D non-maximum suppression using Chebyshev distance.
///
/// Sorts `peaks` into canonical ranking and returns the peaks that are
/// farther than `radius` from every better peak returned. With `radius == 0`
/// all peaks are returned, ranked.
pub fn nms_2d(peaks: &mut [Peak], radius: usize) -> (kept: Vec<Peak>)
    ensures
        final(peaks)@ == sorted_desc(old(peaks)@),
        kept@ == nms(old(peaks)@, radius as nat),
        is_ranked(kept@),
        radius > 0 ==> forall|i: int, j: int|
            0 <= i < j < kept@.len() ==> #[trigger] chebyshev(kept@[i], kept@[j]) > radius,
{
    proof {
        lemma_sorted_desc(peaks@);
        if radius > 0 {
            lemma_nms_separated(peaks@, radius as nat);
        }
    }
    sort_peaks_desc(peaks);
    if radius == 0 {
        return slice_to_vec(peaks);
    }
    let n = peaks.len();
    let mut kept: Vec<Peak> = Vec::new();
    let mut i: usize = 0;
    while i < n
        invariant
            n == peaks@.len(),
            i <= n,
            kept@ == suppress(peaks@.take(i as int), radius as nat),
        decreases n - i,
    {
        let peak = peaks[i];
        let mut clear = true;
        let mut t: usize = 0;
        while t < kept.len() && clear
            invariant
                t <= kept@.len(),
                clear ==> forall|u: int| 0 <= u < t ==> #[trigger] chebyshev(kept@[u], peak) > radius,
                !clear ==> !clear_of(kept@, peak, radius as nat),
            decreases kept@.len() - t + (if clear {
                1int
            } else {
                0int
            }),
        {
            let other = kept[t];
            let dx = if peak.x >= other.x {
                peak.x - other.x
            } else {
                other.x - peak.x
            };
            let dy = if peak.y >= other.y {
                peak.y - other.y
            } else {
                other.y - peak.y
            };
            let dist = if dx >= dy {
                dx
            } else {
                dy
            };
            if dist <= radius {
                clear = false;
                proof {
                    assert(chebyshev(kept@[t as int], peak) <= radius);
                }
            } else {
                t += 1;
            }
        }
        proof {
            let grown = peaks@.take(i + 1);
            assert(grown.drop_last() =~= peaks@.take(i as int));
            assert(grown.last() == peak);
            assert(clear ==> clear_of(kept@, peak, radius as nat));
        }
        if clear {
            kept.push(peak);
        }
        i += 1;
    }
    proof {
        assert(peaks@.take(n as int) =~= peaks@);
    }
    kept
}

} // verus!
