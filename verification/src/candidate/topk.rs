//! Peaks, their canonical ranking, and the best-K collector.
//!
//! A peak ranks before another if its score is higher in the total order of
//! scores; equal scores rank by smaller `y`, then smaller `x`, then smaller
//! angle index. No two different peaks rank equally, so a set of peaks has
//! exactly one ranking, and "the best K" names exactly one sequence.

use vstd::prelude::*;
use vstd::relations::sorted_by;
use vstd::relations::total_ordering;
use vstd::seq_lib::lemma_sorted_unique;
use crate::scalar::lemma_total_key_injective;
use crate::scalar::Scalar;

verus! {

/// Peak candidate in image space for a specific rotation angle.
///
/// Two peaks are equal when all four fields are, the score by its bits.
#[derive(Clone, Copy, Debug, PartialEq)]
pub struct Peak {
    /// X coordinate (column) of the peak.
    pub x: usize,
    /// Y coordinate (row) of the peak.
    pub y: usize,
    /// Score at the peak location.
    pub score: Scalar,
    /// Index into the angle grid.
    pub angle_idx: usize,
}

impl Peak {
    /// Whether `self` comes strictly before `other` in the canonical ranking.
    pub open spec fn ranks_before(self, other: Peak) -> bool {
        let mine = self.score.total_key();
        let theirs = other.score.total_key();
        mine > theirs || (mine == theirs && (self.y < other.y || (self.y == other.y && (self.x
            < other.x || (self.x == other.x && self.angle_idx < other.angle_idx)))))
    }

    /// Whether `self` comes before `other` in the canonical ranking, or is `other`.
    pub open spec fn ranks_no_later(self, other: Peak) -> bool {
        self == other || self.ranks_before(other)
    }

    /// Whether `self` comes strictly before `other` in the canonical ranking.
    pub fn outranks(&self, other: &Peak) -> (b: bool)
        ensures
            b == self.ranks_before(*other),
    {
        let mine = self.score.total_rank();
        let theirs = other.score.total_rank();
        mine > theirs || (mine == theirs && (self.y < other.y || (self.y == other.y && (self.x
            < other.x || (self.x == other.x && self.angle_idx < other.angle_idx)))))
    }
}

/// The canonical ranking as a relation: best first.
pub open spec fn peak_order() -> spec_fn(Peak, Peak) -> bool {
    |a: Peak, b: Peak| a.ranks_no_later(b)
}

/// The peaks of `s` in canonical ranking, best first.
pub open spec fn sorted_desc(s: Seq<Peak>) -> Seq<Peak> {
    s.sort_by(peak_order())
}

/// The best `k` peaks of `s`, best first; all of them where `s` has fewer.
pub open spec fn top_k(s: Seq<Peak>, k: nat) -> Seq<Peak> {
    sorted_desc(s).take(
        if k < s.len() {
            k as int
        } else {
            s.len() as int
        },
    )
}

/// Whether `s` is in canonical ranking, best first.
pub open spec fn is_ranked(s: Seq<Peak>) -> bool {
    forall|i: int, j: int| 0 <= i < j < s.len() ==> (#[trigger] s[i]).ranks_no_later(#[trigger] s[j])
}

/// The canonical ranking is a total order: of two different peaks exactly one
/// ranks before the other.
pub proof fn lemma_peak_order_total()
    ensures
        total_ordering(peak_order()),
{
    let ord = peak_order();
    assert forall|a: Peak, b: Peak| #[trigger] ord(a, b) || #[trigger] ord(b, a) by {
        if !a.ranks_before(b) && !b.ranks_before(a) {
            lemma_total_key_injective(a.score, b.score);
            assert(a == b);
        }
    }
    assert forall|a: Peak, b: Peak| #[trigger] ord(a, b) && #[trigger] ord(b, a) implies a
        == b by {}
    assert forall|a: Peak, b: Peak, c: Peak| #[trigger] ord(a, b) && #[trigger] ord(b, c) implies ord(
        a,
        c,
    ) by {}
    assert forall|a: Peak| #[trigger] ord(a, a) by {}
    assert(vstd::relations::reflexive(ord));
    assert(vstd::relations::antisymmetric(ord));
    assert(vstd::relations::transitive(ord));
    assert(vstd::relations::strongly_connected(ord));
}

/// `is_ranked` says the same as vstd's `sorted_by` under the canonical ranking.
pub proof fn lemma_ranked_is_sorted(s: Seq<Peak>)
    ensures
        is_ranked(s) <==> sorted_by(s, peak_order()),
{
    let ord = peak_order();
    if is_ranked(s) {
        assert forall|i: int, j: int| 0 <= i < j < s.len() implies #[trigger] ord(s[i], s[j]) by {
            assert(s[i].ranks_no_later(s[j]));
        }
    }
    if sorted_by(s, ord) {
        assert forall|i: int, j: int| 0 <= i < j < s.len() implies (#[trigger] s[i]).ranks_no_later(
            #[trigger] s[j],
        ) by {
            assert(ord(s[i], s[j]));
        }
    }
}

/// The ranking of a sequence holds the same peaks, as often, and is ranked.
pub proof fn lemma_sorted_desc(s: Seq<Peak>)
    ensures
        sorted_desc(s).to_multiset() == s.to_multiset(),
        sorted_desc(s).len() == s.len(),
        is_ranked(sorted_desc(s)),
{
    broadcast use vstd::seq_lib::group_to_multiset_ensures;

    lemma_peak_order_total();
    s.lemma_sort_by_ensures(peak_order());
    lemma_ranked_is_sorted(sorted_desc(s));
    assert(sorted_desc(s).to_multiset().len() == s.to_multiset().len());
}

/// A set of peaks has one ranking only: two ranked sequences that hold the
/// same peaks, as often, are the same sequence.
pub proof fn lemma_ranking_unique(a: Seq<Peak>, b: Seq<Peak>)
    requires
        is_ranked(a),
        is_ranked(b),
        a.to_multiset() == b.to_multiset(),
    ensures
        a == b,
{
    lemma_peak_order_total();
    lemma_ranked_is_sorted(a);
    lemma_ranked_is_sorted(b);
    lemma_sorted_unique(a, b, peak_order());
}

/// A ranked sequence with the same peaks as `s` is the ranking of `s`.
pub proof fn lemma_is_sorted_desc(s: Seq<Peak>, r: Seq<Peak>)
    requires
        is_ranked(r),
        r.to_multiset() == s.to_multiset(),
    ensures
        r == sorted_desc(s),
{
    lemma_sorted_desc(s);
    lemma_ranking_unique(r, sorted_desc(s));
}

/// Exchanging two elements keeps the elements of a sequence.
pub proof fn lemma_swap_keeps_elements(s: Seq<Peak>, i: int, j: int)
    requires
        0 <= i < s.len(),
        0 <= j < s.len(),
    ensures
        s.update(i, s[j]).update(j, s[i]).to_multiset() == s.to_multiset(),
{
    broadcast use vstd::multiset::group_multiset_axioms;
    broadcast use vstd::seq_lib::group_to_multiset_ensures;

    let mid = s.update(i, s[j]);
    let end = mid.update(j, s[i]);
    vstd::seq_lib::to_multiset_update(s, i, s[j]);
    vstd::seq_lib::to_multiset_update(mid, j, s[i]);
    assert(s.contains(s[i]));
    assert(s.contains(s[j]));
    assert(mid[j] == s[j]);
    assert forall|v: Peak| end.to_multiset().count(v) == s.to_multiset().count(v) by {
        assert(mid.to_multiset().count(v) == s.to_multiset().insert(s[j]).remove(s[i]).count(v));
        assert(end.to_multiset().count(v) == mid.to_multiset().insert(s[i]).remove(s[j]).count(v));
    }
    assert(end.to_multiset() =~= s.to_multiset());
}

/// Sorts peaks into canonical ranking, best first.
pub fn sort_peaks_desc(peaks: &mut [Peak])
    ensures
        final(peaks)@ == sorted_desc(old(peaks)@),
{
    let n = peaks.len();
    let ghost orig = peaks@;
    let mut i: usize = 0;
    while i < n
        invariant
            n == peaks@.len(),
            i <= n,
            peaks@.to_multiset() == orig.to_multiset(),
            is_ranked(peaks@.take(i as int)),
        decreases n - i,
    {
        let mut j: usize = i;
        proof {
            assert forall|a: int, b: int| 0 <= a < b <= i && a != j && b != j implies (
            #[trigger] peaks@[a]).ranks_no_later(#[trigger] peaks@[b]) by {
                assert(peaks@.take(i as int)[a].ranks_no_later(peaks@.take(i as int)[b]));
            }
        }
        while j > 0 && peaks[j].outranks(&peaks[j - 1])
            invariant
                n == peaks@.len(),
                j <= i < n,
                peaks@.to_multiset() == orig.to_multiset(),
                forall|a: int, b: int|
                    0 <= a < b <= i && a != j && b != j ==> (#[trigger] peaks@[a]).ranks_no_later(
                        #[trigger] peaks@[b],
                    ),
                forall|b: int| j < b <= i ==> peaks@[j as int].ranks_no_later(#[trigger] peaks@[b]),
            decreases j,
        {
            let ghost before = peaks@;
            let moved = peaks[j];
            let other = peaks[j - 1];
            peaks[j - 1] = moved;
            peaks[j] = other;
            proof {
                lemma_swap_keeps_elements(before, j - 1, j as int);
                assert(peaks@ == before.update(j - 1, before[j as int]).update(
                    j as int,
                    before[j - 1],
                ));
                assert forall|a: int, b: int| 0 <= a < b <= i && a != j - 1 && b != j
                    - 1 implies (#[trigger] peaks@[a]).ranks_no_later(#[trigger] peaks@[b]) by {
                    if b == j {
                        assert(before[a].ranks_no_later(before[j - 1]));
                    } else if a == j {
                        assert(before[j - 1].ranks_no_later(before[b]));
                    } else {
                        assert(before[a].ranks_no_later(before[b]));
                    }
                }
                assert forall|b: int| j - 1 < b <= i implies peaks@[j - 1].ranks_no_later(
                    #[trigger] peaks@[b],
                ) by {
                    if b > j {
                        assert(before[j as int].ranks_no_later(before[b]));
                    }
                }
            }
            j -= 1;
        }
        proof {
            let grown = peaks@.take(i + 1);
            assert forall|a: int, b: int| 0 <= a < b < grown.len() implies (
            #[trigger] grown[a]).ranks_no_later(#[trigger] grown[b]) by {
                if a == j {
                    assert(peaks@[j as int].ranks_no_later(peaks@[b]));
                } else if b == j {
                    lemma_peak_order_total();
                    assert(peaks@[j - 1].ranks_no_later(peaks@[j as int]));
                    if a < j - 1 {
                        assert(peaks@[a].ranks_no_later(peaks@[j - 1]));
                    }
                } else {
                    assert(peaks@[a].ranks_no_later(peaks@[b]));
                }
            }
        }
        i += 1;
    }
    proof {
        assert(peaks@.take(n as int) =~= peaks@);
        lemma_is_sorted_desc(orig, peaks@);
    }
}

/// A prefix of a ranked sequence is ranked.
pub proof fn lemma_prefix_ranked(s: Seq<Peak>, n: int)
    requires
        is_ranked(s),
        0 <= n <= s.len(),
    ensures
        is_ranked(s.take(n)),
{
    let t = s.take(n);
    assert forall|i: int, j: int| 0 <= i < j < t.len() implies (#[trigger] t[i]).ranks_no_later(
        #[trigger] t[j],
    ) by {
        assert(s[i].ranks_no_later(s[j]));
    }
}

/// In a ranked sequence, a peak that every element ranks no later than is the last one.
pub proof fn lemma_last_is_worst(t: Seq<Peak>, worst: Peak)
    requires
        is_ranked(t),
        t.contains(worst),
        forall|i: int| 0 <= i < t.len() ==> (#[trigger] t[i]).ranks_no_later(worst),
    ensures
        t.last() == worst,
{
    let idx = choose|idx: int| 0 <= idx < t.len() && t[idx] == worst;
    if idx < t.len() - 1 {
        assert(t[idx].ranks_no_later(t[t.len() - 1]));
        assert(t[t.len() - 1].ranks_no_later(worst));
    }
}

/// Dropping the last element removes one occurrence of it.
pub proof fn lemma_drop_last_elements(t: Seq<Peak>)
    requires
        t.len() > 0,
    ensures
        t.drop_last().to_multiset() == t.to_multiset().remove(t.last()),
{
    vstd::seq_lib::to_multiset_remove(t, t.len() - 1);
    assert(t.remove(t.len() - 1) =~= t.drop_last());
}

/// `p` put into the ranked sequence `s` at its place.
pub open spec fn insert_ranked(s: Seq<Peak>, p: Peak) -> Seq<Peak>
    decreases s.len(),
{
    if s.len() == 0 {
        seq![p]
    } else if s.last().ranks_no_later(p) {
        s.push(p)
    } else {
        insert_ranked(s.drop_last(), p).push(s.last())
    }
}

/// Putting a peak at its place in a ranking gives the ranking with that peak.
pub proof fn lemma_insert_ranked(s: Seq<Peak>, p: Peak)
    requires
        is_ranked(s),
    ensures
        is_ranked(insert_ranked(s, p)),
        insert_ranked(s, p).len() == s.len() + 1,
        insert_ranked(s, p).to_multiset() == s.to_multiset().insert(p),
        insert_ranked(s, p) == sorted_desc(s.push(p)),
    decreases s.len(),
{
    broadcast use vstd::multiset::group_multiset_axioms;
    broadcast use vstd::seq_lib::group_to_multiset_ensures;

    lemma_peak_order_total();
    let r = insert_ranked(s, p);
    if s.len() == 0 {
        assert(s =~= Seq::<Peak>::empty());
        assert(r =~= s.push(p));
    } else if s.last().ranks_no_later(p) {
        assert forall|i: int, j: int| 0 <= i < j < r.len() implies (#[trigger] r[i]).ranks_no_later(
            #[trigger] r[j],
        ) by {
            if j == s.len() {
                if i < s.len() - 1 {
                    assert(s[i].ranks_no_later(s[s.len() - 1]));
                }
            } else {
                assert(s[i].ranks_no_later(s[j]));
            }
        }
    } else {
        let head = s.drop_last();
        let last = s.last();
        lemma_prefix_ranked(s, s.len() - 1);
        lemma_insert_ranked(head, p);
        let inner = insert_ranked(head, p);
        assert(s =~= head.push(last));
        assert(p.ranks_before(last));
        assert forall|i: int| 0 <= i < inner.len() implies (#[trigger] inner[i]).ranks_no_later(
            last,
        ) by {
            assert(inner.contains(inner[i]));
            assert(inner.to_multiset().count(inner[i]) > 0);
            if inner[i] != p {
                assert(head.to_multiset().count(inner[i]) > 0);
                assert(head.contains(inner[i]));
                let k = choose|k: int| 0 <= k < head.len() && head[k] == inner[i];
                assert(s[k].ranks_no_later(s[s.len() - 1]));
            }
        }
        assert forall|i: int, j: int| 0 <= i < j < r.len() implies (#[trigger] r[i]).ranks_no_later(
            #[trigger] r[j],
        ) by {
            if j == inner.len() {
                assert(inner[i].ranks_no_later(last));
            } else {
                assert(inner[i].ranks_no_later(inner[j]));
            }
        }
        assert(r.to_multiset() =~= s.to_multiset().insert(p));
    }
    lemma_is_sorted_desc(s.push(p), r);
}

/// Cutting a ranking after `k` peaks and putting a new peak at its place
/// commute, as far as the first `k` peaks go.
pub proof fn lemma_insert_take(s: Seq<Peak>, p: Peak, k: int)
    requires
        is_ranked(s),
        0 <= k <= s.len(),
    ensures
        insert_ranked(s, p).take(k) == insert_ranked(s.take(k), p).take(k),
    decreases s.len(),
{
    lemma_peak_order_total();
    if s.len() == k {
        assert(s.take(k) =~= s);
    } else if s.last().ranks_no_later(p) {
        let head = s.take(k);
        assert(insert_ranked(s, p).take(k) =~= head);
        if k == 0 {
            assert(insert_ranked(head, p).take(k) =~= head);
        } else {
            assert(head.last() == s[k - 1]);
            assert(s[k - 1].ranks_no_later(s[s.len() - 1]));
            assert(head.last().ranks_no_later(p));
            assert(insert_ranked(head, p).take(k) =~= head);
        }
    } else {
        let front = s.drop_last();
        lemma_prefix_ranked(s, s.len() - 1);
        lemma_insert_ranked(front, p);
        lemma_insert_take(front, p, k);
        assert(front.take(k) =~= s.take(k));
        assert(insert_ranked(s, p).take(k) =~= insert_ranked(front, p).take(k));
    }
}

/// Keeping the best `k` while peaks arrive one by one gives the best `k` of
/// all of them: what was dropped earlier would be dropped now.
pub proof fn lemma_top_k_incremental(s: Seq<Peak>, p: Peak, k: nat)
    ensures
        top_k(top_k(s, k).push(p), k) == top_k(s.push(p), k),
{
    broadcast use vstd::seq_lib::group_to_multiset_ensures;

    let ranked = sorted_desc(s);
    lemma_sorted_desc(s);
    lemma_insert_ranked(ranked, p);
    lemma_sorted_desc(s.push(p));
    assert(ranked.push(p).to_multiset() == s.push(p).to_multiset());
    lemma_is_sorted_desc(s.push(p), insert_ranked(ranked, p));
    let m: int = if k < s.len() {
        k as int
    } else {
        s.len() as int
    };
    let kept = top_k(s, k);
    assert(kept == ranked.take(m));
    lemma_prefix_ranked(ranked, m);
    lemma_insert_ranked(kept, p);
    if s.len() < k {
        assert(kept =~= ranked);
    } else {
        lemma_insert_take(ranked, p, k as int);
    }
}

/// What a collector of capacity `k` keeps after the peaks of `s` were
/// pushed one by one onto what it kept before.
pub open spec fn pushed(kept: Seq<Peak>, s: Seq<Peak>, k: nat) -> Seq<Peak>
    decreases s.len(),
{
    if s.len() == 0 {
        kept
    } else {
        top_k(pushed(kept, s.drop_last(), k).push(s.last()), k)
    }
}

/// A collector that starts empty keeps, after any pushes, the best `k` of
/// all peaks pushed.
pub proof fn lemma_pushed_is_top_k(s: Seq<Peak>, k: nat)
    ensures
        pushed(Seq::empty(), s, k) == top_k(s, k),
    decreases s.len(),
{
    if s.len() == 0 {
        lemma_sorted_desc(s);
        assert(top_k(s, k) =~= Seq::<Peak>::empty());
    } else {
        lemma_pushed_is_top_k(s.drop_last(), k);
        lemma_top_k_incremental(s.drop_last(), s.last(), k);
        assert(s.drop_last().push(s.last()) =~= s);
    }
}

/// The best `k` of a sequence are ranked best first, so their scores never
/// rise; there are `k` of them, or all where the sequence is shorter; each is
/// a peak of the sequence; and every peak left out ranks behind every peak
/// kept.
pub proof fn lemma_top_k_is_best(s: Seq<Peak>, k: nat)
    ensures
        is_ranked(top_k(s, k)),
        forall|i: int, j: int|
            0 <= i < j < top_k(s, k).len() ==> (#[trigger] top_k(s, k)[i]).score.total_key() >= (
            #[trigger] top_k(s, k)[j]).score.total_key(),
        top_k(s, k).len() == (if k < s.len() {
            k
        } else {
            s.len()
        }),
        top_k(s, k).to_multiset().subset_of(s.to_multiset()),
        top_k(s, k) + sorted_desc(s).skip(top_k(s, k).len() as int) == sorted_desc(s),
        forall|i: int, j: int|
            0 <= i < top_k(s, k).len() <= j < s.len() ==> (#[trigger] top_k(s, k)[i]).ranks_no_later(
                #[trigger] sorted_desc(s)[j],
            ),
{
    broadcast use vstd::multiset::group_multiset_axioms;
    broadcast use vstd::seq_lib::group_to_multiset_ensures;

    let ranked = sorted_desc(s);
    let best = top_k(s, k);
    lemma_sorted_desc(s);
    lemma_prefix_ranked(ranked, best.len() as int);
    assert forall|i: int, j: int| 0 <= i < j < best.len() implies (
    #[trigger] best[i]).score.total_key() >= (#[trigger] best[j]).score.total_key() by {
        assert(best[i].ranks_no_later(best[j]));
    }
    let rest = ranked.skip(best.len() as int);
    assert(best + rest =~= ranked);
    vstd::seq_lib::lemma_multiset_commutative(best, rest);
    assert(best.to_multiset().subset_of(s.to_multiset()));
    assert forall|i: int, j: int| 0 <= i < best.len() <= j < s.len() implies (
    #[trigger] best[i]).ranks_no_later(#[trigger] ranked[j]) by {
        assert(ranked[i].ranks_no_later(ranked[j]));
    }
}

/// The best `k` do not depend on the order in which the peaks arrive.
pub proof fn lemma_top_k_order_free(a: Seq<Peak>, b: Seq<Peak>, k: nat)
    requires
        a.to_multiset() == b.to_multiset(),
    ensures
        top_k(a, k) == top_k(b, k),
{
    broadcast use vstd::seq_lib::group_to_multiset_ensures;

    lemma_sorted_desc(a);
    lemma_sorted_desc(b);
    lemma_ranking_unique(sorted_desc(a), sorted_desc(b));
    assert(a.len() == a.to_multiset().len());
    assert(b.len() == b.to_multiset().len());
}

/// Top-K container with O(k) insertion cost.
pub struct TopK<T> {
    k: usize,
    items: Vec<T>,
}

impl<T> TopK<T> {
    /// The most items the collector keeps.
    pub closed spec fn capacity(self) -> nat {
        self.k as nat
    }

    /// The items held, in the order of the buffer.
    pub closed spec fn held(self) -> Seq<T> {
        self.items@
    }

    /// Holds of every collector: it holds no more than its capacity.
    #[verifier::type_invariant]
    pub open spec fn inv(self) -> bool {
        self.held().len() <= self.capacity()
    }
}

impl TopK<Peak> {
    /// The peaks kept, best first.
    pub open spec fn kept(self) -> Seq<Peak> {
        sorted_desc(self.held())
    }

    /// Creates a new Top-K collector.
    pub fn new(k: usize) -> (t: Self)
        ensures
            t.capacity() == k,
            t.kept() == Seq::<Peak>::empty(),
    {
        let t = Self { k, items: Vec::with_capacity(k) };
        proof {
            lemma_sorted_desc(t.held());
            assert(t.kept() =~= Seq::<Peak>::empty());
        }
        t
    }

    /// Pushes a peak, evicting the lowest-ranked one if at capacity.
    pub fn push(&mut self, peak: Peak)
        ensures
            final(self).capacity() == old(self).capacity(),
            final(self).kept() == top_k(old(self).kept().push(peak), old(self).capacity()),
    {
        proof {
            use_type_invariant(&*self);
            broadcast use vstd::multiset::group_multiset_axioms;
            broadcast use vstd::seq_lib::group_to_multiset_ensures;

            lemma_sorted_desc(self.held());
            lemma_sorted_desc(self.kept().push(peak));
            lemma_peak_order_total();
        }
        let ghost held = self.items@;
        let ghost kept = self.kept();
        let ghost grown = sorted_desc(kept.push(peak));
        let k = self.k;
        if k == 0 {
            proof {
                assert(grown.take(0) =~= kept);
            }
            return ;
        }
        let mut items: Vec<Peak> = Vec::new();
        core::mem::swap(&mut self.items, &mut items);
        if items.len() < k {
            items.push(peak);
            proof {
                assert(grown.take(grown.len() as int) =~= grown);
                lemma_is_sorted_desc(items@, grown);
            }
            core::mem::swap(&mut self.items, &mut items);
            return ;
        }
        let mut worst_idx: usize = 0;
        let mut idx: usize = 1;
        while idx < items.len()
            invariant
                items@ == held,
                0 <= worst_idx < idx <= held.len(),
                forall|i: int| 0 <= i < idx ==> (#[trigger] held[i]).ranks_no_later(held[worst_idx as int]),
            decreases held.len() - idx,
        {
            if items[worst_idx].outranks(&items[idx]) {
                worst_idx = idx;
            }
            idx += 1;
        }
        let ghost worst = held[worst_idx as int];
        proof {
            assert forall|i: int| 0 <= i < grown.len() && grown[i] != peak implies (
            #[trigger] grown[i]).ranks_no_later(worst) by {
                assert(grown.contains(grown[i]));
                assert(grown.to_multiset().count(grown[i]) > 0);
                assert(held.to_multiset().count(grown[i]) > 0);
                assert(held.contains(grown[i]));
                let at = choose|at: int| 0 <= at < held.len() && held[at] == grown[i];
                assert(held[at].ranks_no_later(worst));
            }
            assert(held.contains(worst));
            assert(grown.to_multiset().count(worst) > 0);
            assert(grown.contains(worst));
            assert(grown.to_multiset().count(peak) > 0);
            assert(grown.contains(peak));
            lemma_prefix_ranked(grown, grown.len() - 1);
            lemma_drop_last_elements(grown);
            assert(grown.take(k as int) =~= grown.drop_last());
        }
        if peak.outranks(&items[worst_idx]) {
            items[worst_idx] = peak;
            proof {
                lemma_last_is_worst(grown, worst);
                vstd::seq_lib::to_multiset_update(held, worst_idx as int, peak);
                assert(items@ == held.update(worst_idx as int, peak));
                assert(grown.drop_last().to_multiset() =~= items@.to_multiset());
                lemma_is_sorted_desc(items@, grown.drop_last());
            }
        } else {
            proof {
                assert(worst.ranks_no_later(peak));
                lemma_last_is_worst(grown, peak);
                assert(grown.drop_last().to_multiset() =~= held.to_multiset());
                lemma_is_sorted_desc(held, grown.drop_last());
            }
        }
        core::mem::swap(&mut self.items, &mut items);
    }

    /// Returns the peaks kept, best first.
    pub fn into_sorted_desc(self) -> (v: Vec<Peak>)
        ensures
            v@ == self.kept(),
    {
        let mut items = self.items;
        sort_peaks_desc(items.as_mut_slice());
        items
    }
}

} // verus!
