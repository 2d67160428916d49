//! Candidates of a level: how the peaks of a level are merged, suppressed,
//! cut to the beam width and resolved into candidates, and what it means
//! that a level selected its candidates from a batch of scans.

use vstd::prelude::*;
use crate::candidate::nms::chebyshev;
use crate::candidate::topk::is_ranked;
use crate::candidate::topk::lemma_prefix_ranked;
use crate::candidate::topk::Peak;
use crate::error::CorrMatchError;
use crate::error::CorrMatchResult;
use crate::image::pyramid::ImagePyramid;
use crate::image::Raster;
use crate::kernel::concat_rows;
use crate::kernel::row_lists;
use crate::kernel::ScanArea;
use crate::scalar::Scalar;
use crate::candidate::nms::lemma_nms_separated;
use crate::candidate::nms::lemma_nms_order_free;
use crate::candidate::nms::lemma_suppress_first;
use crate::candidate::nms::nms;
use crate::candidate::nms::nms_2d;
use crate::candidate::topk::lemma_sorted_desc;
use crate::candidate::topk::sorted_desc;
use crate::search::MatchConfig;

verus! {

/// A peak together with the level it was found at and its resolved angle.
#[derive(Clone, Copy, Debug)]
pub struct Candidate {
    pub level: usize,
    pub x: usize,
    pub y: usize,
    pub angle_idx: usize,
    pub angle_deg: Scalar,
    pub score: Scalar,
}

impl Candidate {
    /// The peak of the candidate.
    pub open spec fn peak(self) -> Peak {
        Peak { x: self.x, y: self.y, score: self.score, angle_idx: self.angle_idx }
    }

    /// The candidate made of a peak, its level and its resolved angle.
    pub open spec fn of(level: usize, angle_deg: Scalar, peak: Peak) -> Candidate {
        Candidate {
            level,
            x: peak.x,
            y: peak.y,
            angle_idx: peak.angle_idx,
            angle_deg,
            score: peak.score,
        }
    }

    /// The peak of the candidate.
    pub fn to_peak(self) -> (p: Peak)
        ensures
            p == self.peak(),
    {
        Peak { x: self.x, y: self.y, score: self.score, angle_idx: self.angle_idx }
    }

    /// The candidate made of a peak, its level and its resolved angle.
    pub fn from_peak(level: usize, angle_deg: Scalar, peak: Peak) -> (c: Self)
        ensures
            c == Candidate::of(level, angle_deg, peak),
    {
        Self {
            level,
            x: peak.x,
            y: peak.y,
            angle_idx: peak.angle_idx,
            angle_deg,
            score: peak.score,
        }
    }
}

/// The beam of a level: the peaks after non-maximum suppression, cut to the
/// best `width`.
pub open spec fn beam(peaks: Seq<Peak>, radius: nat, width: nat) -> Seq<Peak> {
    let kept = nms(peaks, radius);
    kept.take(
        if width < kept.len() {
            width as int
        } else {
            kept.len() as int
        },
    )
}

/// Suppresses non-maxima among `peaks` and cuts the rest to the beam width.
/// The peaks are left in canonical ranking.
pub fn prune_peaks(peaks: &mut [Peak], nms_radius: usize, beam_width: usize) -> (kept: Vec<Peak>)
    ensures
        kept@ == beam(old(peaks)@, nms_radius as nat, beam_width as nat),
        kept@.len() <= beam_width,
        kept@.len() <= old(peaks)@.len(),
{
    let ghost given = peaks@;
    let mut kept = nms_2d(peaks, nms_radius);
    proof {
        crate::candidate::topk::lemma_sorted_desc(given);
        crate::candidate::nms::lemma_suppress_first(
            crate::candidate::topk::sorted_desc(given),
            nms_radius as nat,
        );
    }
    if kept.len() > beam_width {
        kept.truncate(beam_width);
    } else {
        proof {
            assert(kept@.take(kept@.len() as int) =~= kept@);
        }
    }
    kept
}

/// The candidates of `peaks` at `level`, each with the angle that the table
/// `angles` holds for its angle index; the error of the first peak whose
/// angle index the table does not hold.
pub open spec fn resolved(level: usize, angles: Seq<Scalar>, peaks: Seq<Peak>) -> Result<
    Seq<Candidate>,
    CorrMatchError,
>
    decreases peaks.len(),
{
    if peaks.len() == 0 {
        Ok(Seq::empty())
    } else {
        match resolved(level, angles, peaks.drop_last()) {
            Err(e) => Err(e),
            Ok(before) => if peaks.last().angle_idx < angles.len() {
                Ok(
                    before.push(
                        Candidate::of(level, angles[peaks.last().angle_idx as int], peaks.last()),
                    ),
                )
            } else {
                Err(
                    CorrMatchError::IndexOutOfBounds {
                        index: peaks.last().angle_idx,
                        len: angles.len() as usize,
                        context: "angle_idx",
                    },
                )
            },
        }
    }
}

/// Turns the peaks of a level into candidates, resolving each angle index
/// through the level's table of angles.
pub fn resolve_candidates(level: usize, angles: &[Scalar], peaks: &[Peak]) -> (r: CorrMatchResult<
    Vec<Candidate>,
>)
    ensures
        match r {
            Ok(c) => resolved(level, angles@, peaks@) == Ok::<Seq<Candidate>, CorrMatchError>(c@),
            Err(e) => resolved(level, angles@, peaks@) == Err::<Seq<Candidate>, CorrMatchError>(e),
        },
{
    let mut out: Vec<Candidate> = Vec::with_capacity(peaks.len());
    let mut i: usize = 0;
    while i < peaks.len()
        invariant
            i <= peaks@.len(),
            resolved(level, angles@, peaks@.take(i as int)) == Ok::<Seq<Candidate>, CorrMatchError>(
                out@,
            ),
        decreases peaks@.len() - i,
    {
        let peak = peaks[i];
        proof {
            assert(peaks@.take(i + 1).drop_last() =~= peaks@.take(i as int));
        }
        if peak.angle_idx >= angles.len() {
            proof {
                lemma_resolved_error_stays(level, angles@, peaks@, i + 1);
            }
            return Err(
                CorrMatchError::IndexOutOfBounds {
                    index: peak.angle_idx,
                    len: angles.len(),
                    context: "angle_idx",
                },
            );
        }
        out.push(Candidate::from_peak(level, angles[peak.angle_idx], peak));
        i += 1;
    }
    proof {
        assert(peaks@.take(peaks@.len() as int) =~= peaks@);
    }
    Ok(out)
}

/// Once a prefix of the peaks fails to resolve, the whole fails with the same error.
pub proof fn lemma_resolved_error_stays(level: usize, angles: Seq<Scalar>, peaks: Seq<Peak>, n: int)
    requires
        0 <= n <= peaks.len(),
        resolved(level, angles, peaks.take(n)) is Err,
    ensures
        resolved(level, angles, peaks) == resolved(level, angles, peaks.take(n)),
    decreases peaks.len() - n,
{
    if n < peaks.len() {
        assert(peaks.take(n + 1).drop_last() =~= peaks.take(n));
        lemma_resolved_error_stays(level, angles, peaks, n + 1);
    } else {
        assert(peaks.take(n) =~= peaks);
    }
}

/// What resolving yields where it succeeds: one candidate per peak, in the
/// order of the peaks, at the given level, with the angle of the table.
pub proof fn lemma_resolved_ok(level: usize, angles: Seq<Scalar>, peaks: Seq<Peak>)
    requires
        resolved(level, angles, peaks) is Ok,
    ensures
        resolved(level, angles, peaks)->Ok_0.len() == peaks.len(),
        forall|i: int|
            0 <= i < peaks.len() ==> {
                let c = #[trigger] resolved(level, angles, peaks)->Ok_0[i];
                &&& c.peak() == peaks[i]
                &&& c.level == level
                &&& peaks[i].angle_idx < angles.len()
                &&& c.angle_deg == angles[peaks[i].angle_idx as int]
            },
    decreases peaks.len(),
{
    if peaks.len() > 0 {
        lemma_resolved_ok(level, angles, peaks.drop_last());
    }
}

/// Merges the peak lists of a level, suppresses non-maxima, cuts to the beam
/// width, and resolves the survivors into candidates.
pub fn select_candidates(
    lists: &Vec<Vec<Peak>>,
    level: usize,
    angles: &[Scalar],
    nms_radius: usize,
    beam_width: usize,
) -> (r: CorrMatchResult<Vec<Candidate>>)
    ensures
        match r {
            Ok(c) => resolved(
                level,
                angles@,
                beam(concat_rows(row_lists(lists@)), nms_radius as nat, beam_width as nat),
            ) == Ok::<Seq<Candidate>, CorrMatchError>(c@),
            Err(e) => resolved(
                level,
                angles@,
                beam(concat_rows(row_lists(lists@)), nms_radius as nat, beam_width as nat),
            ) == Err::<Seq<Candidate>, CorrMatchError>(e),
        },
{
    let mut all: Vec<Peak> = Vec::new();
    let mut i: usize = 0;
    proof {
        assert(row_lists(lists@).take(0) =~= Seq::<Seq<Peak>>::empty());
    }
    while i < lists.len()
        invariant
            i <= lists@.len(),
            all@ == concat_rows(row_lists(lists@).take(i as int)),
        decreases lists@.len() - i,
    {
        let list = &lists[i];
        let ghost done = all@;
        let mut j: usize = 0;
        while j < list.len()
            invariant
                j <= list@.len(),
                all@ == done + list@.take(j as int),
            decreases list@.len() - j,
        {
            all.push(list[j]);
            proof {
                assert(list@.take(j + 1) =~= list@.take(j as int).push(list@[j as int]));
            }
            j += 1;
        }
        proof {
            let rows = row_lists(lists@);
            assert(list@.take(list@.len() as int) =~= list@);
            assert(rows.take(i + 1).drop_last() =~= rows.take(i as int));
            assert(rows.take(i + 1).last() == list@);
        }
        i += 1;
    }
    proof {
        assert(row_lists(lists@).take(lists@.len() as int) =~= row_lists(lists@));
    }
    let kept = prune_peaks(all.as_mut_slice(), nms_radius, beam_width);
    resolve_candidates(level, angles, kept.as_slice())
}

/// One scan that the search asks for: the placements `[x0, x1] x [y0, y1]`
/// of a level, under one angle of that level.
#[derive(Clone, Copy, Debug, PartialEq, Eq)]
pub struct ScanRequest {
    pub level: usize,
    pub angle_idx: usize,
    pub x0: usize,
    pub y0: usize,
    pub x1: usize,
    pub y1: usize,
}

/// What the search knows of one level of the compiled template.
pub struct LevelPlan {
    /// Width of the template at this level.
    pub tpl_width: usize,
    /// Height of the template at this level.
    pub tpl_height: usize,
    /// The angle in degrees of each angle index of the level. A level
    /// without rotation has the one angle 0.
    pub angles: Vec<Scalar>,
    /// For each angle index of the next coarser level, the angle indices of
    /// this level that are scanned around a candidate found under it.
    pub neighbors: Vec<Vec<usize>>,
}

/// The lists held by a vector of index vectors.
pub open spec fn index_lists(lists: Seq<Vec<usize>>) -> Seq<Seq<usize>> {
    Seq::new(lists.len(), |i: int| lists[i]@)
}

/// The peaks of a sequence of candidates.
pub open spec fn peaks_of(cands: Seq<Candidate>) -> Seq<Peak> {
    Seq::new(cands.len(), |i: int| cands[i].peak())
}

/// What holds of every beam: it is no longer than the beam width, it comes
/// best first, and its peaks are peaks that were given. With a positive
/// radius any two of its peaks are farther apart than the radius.
pub proof fn lemma_beam(peaks: Seq<Peak>, radius: nat, width: nat)
    ensures
        beam(peaks, radius, width).len() <= width,
        beam(peaks, radius, width).len() <= peaks.len(),
        is_ranked(beam(peaks, radius, width)),
        forall|i: int|
            0 <= i < beam(peaks, radius, width).len() ==> peaks.contains(
                #[trigger] beam(peaks, radius, width)[i],
            ),
        radius > 0 ==> forall|i: int, j: int|
            0 <= i < j < beam(peaks, radius, width).len() ==> #[trigger] chebyshev(
                beam(peaks, radius, width)[i],
                beam(peaks, radius, width)[j],
            ) > radius,
        width > 0 && peaks.len() > 0 ==> beam(peaks, radius, width).len() > 0,
{
    broadcast use vstd::seq_lib::group_to_multiset_ensures;

    let kept = nms(peaks, radius);
    let out = beam(peaks, radius, width);
    lemma_sorted_desc(peaks);
    crate::candidate::nms::lemma_suppress_first(crate::candidate::topk::sorted_desc(peaks), radius);
    if radius > 0 {
        lemma_nms_separated(peaks, radius);
        assert forall|i: int, j: int| 0 <= i < j < out.len() implies #[trigger] chebyshev(
            out[i],
            out[j],
        ) > radius by {
            assert(chebyshev(kept[i], kept[j]) > radius);
        }
    } else {
        assert forall|i: int| 0 <= i < kept.len() implies peaks.contains(#[trigger] kept[i]) by {
            assert(kept.contains(kept[i]));
            assert(kept.to_multiset().count(kept[i]) > 0);
        }
    }
    lemma_prefix_ranked(kept, out.len() as int);
    assert forall|i: int| 0 <= i < out.len() implies peaks.contains(#[trigger] out[i]) by {
        assert(peaks.contains(kept[i]));
    }
}

/// The beam goes by which peaks are given, not by the order in which they
/// are given: lists merged in another order leave the same beam.
pub proof fn lemma_beam_order_free(a: Seq<Peak>, b: Seq<Peak>, radius: nat, width: nat)
    requires
        a.to_multiset() == b.to_multiset(),
    ensures
        beam(a, radius, width) == beam(b, radius, width),
{
    crate::candidate::nms::lemma_nms_order_free(a, b, radius);
}

/// What holds of the candidates that a level hands on: there is at least
/// one and no more than the beam width; each lies at the level and carries
/// the angle that the level's table holds for its angle index; they come best
/// first; and with a positive radius any two lie farther apart than the radius.
pub open spec fn is_beam_of(
    seeds: Seq<Candidate>,
    level: usize,
    angles: Seq<Scalar>,
    nms_radius: usize,
    beam_width: usize,
) -> bool {
    &&& 1 <= seeds.len() <= beam_width
    &&& forall|i: int|
        0 <= i < seeds.len() ==> {
            let c = #[trigger] seeds[i];
            &&& c.level == level
            &&& c.angle_idx < angles.len()
            &&& c.angle_deg == angles[c.angle_idx as int]
        }
    &&& is_ranked(peaks_of(seeds))
    &&& nms_radius > 0 ==> forall|i: int, j: int|
        0 <= i < j < seeds.len() ==> #[trigger] chebyshev(seeds[i].peak(), seeds[j].peak())
            > nms_radius
}

/// Candidates selected from the peak lists of a level form a beam of that level.
pub proof fn lemma_selected_is_beam(
    seeds: Seq<Candidate>,
    lists: Seq<Seq<Peak>>,
    level: usize,
    angles: Seq<Scalar>,
    nms_radius: usize,
    beam_width: usize,
)
    requires
        resolved(level, angles, beam(concat_rows(lists), nms_radius as nat, beam_width as nat))
            == Ok::<Seq<Candidate>, CorrMatchError>(seeds),
        seeds.len() > 0,
    ensures
        is_beam_of(seeds, level, angles, nms_radius, beam_width),
{
    let kept = beam(concat_rows(lists), nms_radius as nat, beam_width as nat);
    lemma_beam(concat_rows(lists), nms_radius as nat, beam_width as nat);
    lemma_resolved_ok(level, angles, kept);
    assert(peaks_of(seeds) =~= kept);
    assert forall|i: int| 0 <= i < seeds.len() implies {
        let c = #[trigger] seeds[i];
        &&& c.level == level
        &&& c.angle_idx < angles.len()
        &&& c.angle_deg == angles[c.angle_idx as int]
    } by {
        assert(seeds[i].peak() == kept[i]);
    }
    if nms_radius > 0 {
        assert forall|i: int, j: int| 0 <= i < j < seeds.len() implies #[trigger] chebyshev(
            seeds[i].peak(),
            seeds[j].peak(),
        ) > nms_radius by {
            assert(chebyshev(kept[i], kept[j]) > nms_radius);
        }
    }
}

/// Sizes of the search at a level: the image of the pyramid under the
/// template of the level.
pub open spec fn level_area(pyramid: Seq<Raster<u8>>, levels: Seq<LevelPlan>, level: int) -> ScanArea {
    ScanArea {
        img_width: pyramid[level].width as usize,
        img_height: pyramid[level].height as usize,
        tpl_width: levels[level].tpl_width,
        tpl_height: levels[level].tpl_height,
    }
}

/// Number of levels that a search visits: as many as the pyramid and the
/// template both have.
pub open spec fn shared_levels(pyramid: Seq<Raster<u8>>, levels: Seq<LevelPlan>) -> int {
    if pyramid.len() < levels.len() {
        pyramid.len() as int
    } else {
        levels.len() as int
    }
}

/// Whether a request asks for placements that exist: its level is one that
/// the pyramid and the template both have, the template fits there, and its
/// rectangle is not empty and lies within the valid placements.
pub open spec fn valid_request(
    req: ScanRequest,
    pyramid: Seq<Raster<u8>>,
    levels: Seq<LevelPlan>,
) -> bool {
    let area = level_area(pyramid, levels, req.level as int);
    &&& req.level < shared_levels(pyramid, levels)
    &&& area.fits()
    &&& req.x0 <= req.x1 <= area.max_x()
    &&& req.y0 <= req.y1 <= area.max_y()
}

/// Whether every request of a batch asks for placements that exist.
pub open spec fn valid_requests(
    reqs: Seq<ScanRequest>,
    pyramid: Seq<Raster<u8>>,
    levels: Seq<LevelPlan>,
) -> bool {
    forall|i: int| 0 <= i < reqs.len() ==> valid_request(#[trigger] reqs[i], pyramid, levels)
}

/// Whether `found` is what a level selects from the scans `plan`: `run`
/// gave, for these requests, peak lists whose beam resolves into `found`.
pub open spec fn selected_from<R: Fn(&ImagePyramid, Vec<ScanRequest>) -> CorrMatchResult<Vec<Vec<Peak>>>>(
    run: R,
    pyramid: &ImagePyramid,
    plan: Seq<ScanRequest>,
    level: int,
    levels: Seq<LevelPlan>,
    cfg: MatchConfig,
    found: Seq<Candidate>,
) -> bool {
    exists|reqs: Vec<ScanRequest>, lists: Vec<Vec<Peak>>|
        reqs@ == plan && #[trigger] call_ensures(
            run,
            (pyramid, reqs),
            Ok::<Vec<Vec<Peak>>, CorrMatchError>(lists),
        ) && resolved(
            level as usize,
            levels[level].angles@,
            beam(concat_rows(row_lists(lists@)), cfg.nms_radius as nat, cfg.beam_width as nat),
        ) == Ok::<Seq<Candidate>, CorrMatchError>(found)
}

/// Whether `run` gives, for the same pyramid and the same requests, the
/// same peak lists, however often and in whatever way it performs the scans.
pub open spec fn repeatable<R: Fn(&ImagePyramid, Vec<ScanRequest>) -> CorrMatchResult<Vec<Vec<Peak>>>>(
    run: R,
) -> bool {
    forall|
        first_pyramid: &ImagePyramid,
        second_pyramid: &ImagePyramid,
        first_reqs: Vec<ScanRequest>,
        second_reqs: Vec<ScanRequest>,
        first_lists: Vec<Vec<Peak>>,
        second_lists: Vec<Vec<Peak>>,
    |
        first_pyramid@ == second_pyramid@ && first_reqs@ == second_reqs@ && #[trigger] call_ensures(
            run,
            (first_pyramid, first_reqs),
            Ok::<Vec<Vec<Peak>>, CorrMatchError>(first_lists),
        ) && #[trigger] call_ensures(run, (second_pyramid, second_reqs), Ok::<Vec<Vec<Peak>>, CorrMatchError>(second_lists))
            ==> row_lists(first_lists@) == row_lists(second_lists@)
}

/// With repeatable scans, what a level selects from a plan is determined.
pub proof fn lemma_selection_is_determined<R: Fn(&ImagePyramid, Vec<ScanRequest>) -> CorrMatchResult<Vec<Vec<Peak>>>>(
    run: R,
    first_pyramid: &ImagePyramid,
    second_pyramid: &ImagePyramid,
    plan: Seq<ScanRequest>,
    level: int,
    levels: Seq<LevelPlan>,
    cfg: MatchConfig,
    first: Seq<Candidate>,
    second: Seq<Candidate>,
)
    requires
        repeatable(run),
        first_pyramid@ == second_pyramid@,
        selected_from(run, first_pyramid, plan, level, levels, cfg, first),
        selected_from(run, second_pyramid, plan, level, levels, cfg, second),
    ensures
        first == second,
{
    let (first_reqs, first_lists) = choose|reqs: Vec<ScanRequest>, lists: Vec<Vec<Peak>>|
        reqs@ == plan && #[trigger] call_ensures(
            run,
            (first_pyramid, reqs),
            Ok::<Vec<Vec<Peak>>, CorrMatchError>(lists),
        ) && resolved(
            level as usize,
            levels[level].angles@,
            beam(concat_rows(row_lists(lists@)), cfg.nms_radius as nat, cfg.beam_width as nat),
        ) == Ok::<Seq<Candidate>, CorrMatchError>(first);
    let (second_reqs, second_lists) = choose|reqs: Vec<ScanRequest>, lists: Vec<Vec<Peak>>|
        reqs@ == plan && #[trigger] call_ensures(
            run,
            (second_pyramid, reqs),
            Ok::<Vec<Vec<Peak>>, CorrMatchError>(lists),
        ) && resolved(
            level as usize,
            levels[level].angles@,
            beam(concat_rows(row_lists(lists@)), cfg.nms_radius as nat, cfg.beam_width as nat),
        ) == Ok::<Seq<Candidate>, CorrMatchError>(second);
    assert(row_lists(first_lists@) == row_lists(second_lists@));
}

/// Whether a level can fail with `e` on the scans `plan`: `run` gave that
/// error for these requests, or it gave peak lists whose beam holds a peak
/// that does not resolve.
pub open spec fn selection_failed<R: Fn(&ImagePyramid, Vec<ScanRequest>) -> CorrMatchResult<Vec<Vec<Peak>>>>(
    run: R,
    pyramid: &ImagePyramid,
    plan: Seq<ScanRequest>,
    level: int,
    levels: Seq<LevelPlan>,
    cfg: MatchConfig,
    e: CorrMatchError,
) -> bool {
    ||| exists|reqs: Vec<ScanRequest>|
        reqs@ == plan && #[trigger] call_ensures(
            run,
            (pyramid, reqs),
            Err::<Vec<Vec<Peak>>, CorrMatchError>(e),
        )
    ||| exists|reqs: Vec<ScanRequest>, lists: Vec<Vec<Peak>>|
        reqs@ == plan && #[trigger] call_ensures(
            run,
            (pyramid, reqs),
            Ok::<Vec<Vec<Peak>>, CorrMatchError>(lists),
        ) && resolved(
            level as usize,
            levels[level].angles@,
            beam(concat_rows(row_lists(lists@)), cfg.nms_radius as nat, cfg.beam_width as nat),
        ) == Err::<Seq<Candidate>, CorrMatchError>(e)
}

/// Performs the scans `requests` of a level and selects its candidates.
pub(crate) fn run_and_select<R: Fn(&ImagePyramid, Vec<ScanRequest>) -> CorrMatchResult<Vec<Vec<Peak>>>>(
    pyramid: &ImagePyramid,
    levels: &Vec<LevelPlan>,
    level: usize,
    requests: Vec<ScanRequest>,
    cfg: &MatchConfig,
    run: &R,
) -> (r: CorrMatchResult<Vec<Candidate>>)
    requires
        level < levels@.len(),
        valid_requests(requests@, pyramid@, levels@),
        forall|reqs: Vec<ScanRequest>|
            valid_requests(reqs@, pyramid@, levels@) ==> #[trigger] call_requires(
                *run,
                (pyramid, reqs),
            ),
    ensures
        match r {
            Ok(found) => selected_from(
                *run,
                pyramid,
                requests@,
                level as int,
                levels@,
                *cfg,
                found@,
            ),
            Err(e) => selection_failed(*run, pyramid, requests@, level as int, levels@, *cfg, e),
        },
{
    let ghost asked = requests;
    let lists = match run(pyramid, requests) {
        Ok(lists) => lists,
        Err(e) => {
            proof {
                assert(call_ensures(
                    *run,
                    (pyramid, asked),
                    Err::<Vec<Vec<Peak>>, CorrMatchError>(e),
                ));
            }
            return Err(e);
        },
    };
    proof {
        assert(call_ensures(*run, (pyramid, asked), Ok::<Vec<Vec<Peak>>, CorrMatchError>(lists)));
    }
    select_candidates(
        &lists,
        level,
        levels[level].angles.as_slice(),
        cfg.nms_radius,
        cfg.beam_width,
    )
}

/// The error for a level that the pyramid or the template does not have.
pub open spec fn no_such_level(level: usize, shared: int) -> CorrMatchError {
    CorrMatchError::IndexOutOfBounds { index: level, len: shared as usize, context: "level" }
}

/// A beam found by one selection is a beam of its level.
pub(crate) proof fn lemma_selection_is_beam<R: Fn(&ImagePyramid, Vec<ScanRequest>) -> CorrMatchResult<Vec<Vec<Peak>>>>(
    run: R,
    pyramid: &ImagePyramid,
    plan: Seq<ScanRequest>,
    level: int,
    levels: Seq<LevelPlan>,
    cfg: MatchConfig,
    found: Seq<Candidate>,
)
    requires
        selected_from(run, pyramid, plan, level, levels, cfg, found),
        found.len() > 0,
    ensures
        is_beam_of(found, level as usize, levels[level].angles@, cfg.nms_radius, cfg.beam_width),
{
    let (reqs, lists) = choose|reqs: Vec<ScanRequest>, lists: Vec<Vec<Peak>>|
        reqs@ == plan && #[trigger] call_ensures(
            run,
            (pyramid, reqs),
            Ok::<Vec<Vec<Peak>>, CorrMatchError>(lists),
        ) && resolved(
            level as usize,
            levels[level].angles@,
            beam(concat_rows(row_lists(lists@)), cfg.nms_radius as nat, cfg.beam_width as nat),
        ) == Ok::<Seq<Candidate>, CorrMatchError>(found);
    lemma_selected_is_beam(
        found,
        row_lists(lists@),
        level as usize,
        levels[level].angles@,
        cfg.nms_radius,
        cfg.beam_width,
    );
}

/// The first candidates of a beam are a beam.
pub proof fn lemma_beam_prefix(
    all: Seq<Candidate>,
    k: int,
    level: usize,
    angles: Seq<Scalar>,
    nms_radius: usize,
    beam_width: usize,
)
    requires
        is_beam_of(all, level, angles, nms_radius, beam_width),
        1 <= k <= all.len(),
    ensures
        is_beam_of(all.take(k), level, angles, nms_radius, beam_width),
{
    let cut = all.take(k);
    assert(peaks_of(cut) =~= peaks_of(all).take(k));
    lemma_prefix_ranked(peaks_of(all), k);
    assert forall|i: int| 0 <= i < cut.len() implies {
        let c = #[trigger] cut[i];
        &&& c.level == level
        &&& c.angle_idx < angles.len()
        &&& c.angle_deg == angles[c.angle_idx as int]
    } by {
        assert(cut[i] == all[i]);
    }
    if nms_radius > 0 {
        assert forall|i: int, j: int| 0 <= i < j < cut.len() implies #[trigger] chebyshev(
            cut[i].peak(),
            cut[j].peak(),
        ) > nms_radius by {
            assert(chebyshev(all[i].peak(), all[j].peak()) > nms_radius);
        }
    }
}

} // verus!
