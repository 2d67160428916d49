//! The finer levels of the search: the region around each candidate of
//! the level above is scanned under the angles near the candidate's.

use vstd::prelude::*;
use crate::candidate::topk::Peak;
use crate::error::CorrMatchError;
use crate::error::CorrMatchResult;
use crate::image::pyramid::ImagePyramid;
use crate::kernel::ScanArea;
use crate::search::select::index_lists;
use crate::search::select::level_area;
use crate::search::select::no_such_level;
use crate::search::select::run_and_select;
use crate::search::select::selected_from;
use crate::search::select::selection_failed;
use crate::search::select::shared_levels;
use crate::search::select::valid_request;
use crate::search::select::valid_requests;
use crate::search::select::Candidate;
use crate::search::select::LevelPlan;
use crate::search::select::ScanRequest;
use crate::search::MatchConfig;

verus! {

/// Twice a coordinate, capped at the largest machine word.
pub open spec fn doubled(v: usize) -> usize {
    if 2 * v > usize::MAX {
        usize::MAX
    } else {
        (2 * v) as usize
    }
}

/// Position at the next finer level of a position at a level: both coordinates doubled.
pub fn upscale_pos(x: usize, y: usize) -> (r: (usize, usize))
    ensures
        r.0 == doubled(x),
        r.1 == doubled(y),
{
    let ux = if x > usize::MAX / 2 {
        usize::MAX
    } else {
        2 * x
    };
    let uy = if y > usize::MAX / 2 {
        usize::MAX
    } else {
        2 * y
    };
    (ux, uy)
}

/// The placements within `radius` of `(x, y)`, cut to the valid placements
/// `[0, max_x] x [0, max_y]`, as `(x0, y0, x1, y1)`; `None` where none is valid.
pub open spec fn roi_around(x: int, y: int, radius: int, max_x: int, max_y: int) -> Option<
    (usize, usize, usize, usize),
> {
    let x0 = if x - radius > 0 {
        x - radius
    } else {
        0
    };
    let y0 = if y - radius > 0 {
        y - radius
    } else {
        0
    };
    let x1 = if x + radius < max_x {
        x + radius
    } else {
        max_x
    };
    let y1 = if y + radius < max_y {
        y + radius
    } else {
        max_y
    };
    if x0 > max_x || y0 > max_y {
        None
    } else {
        Some((x0 as usize, y0 as usize, x1 as usize, y1 as usize))
    }
}

/// Region of placements to scan around an upscaled candidate position.
pub fn roi_bounds(x: usize, y: usize, radius: usize, max_x: usize, max_y: usize) -> (r: Option<
    (usize, usize, usize, usize),
>)
    ensures
        r == roi_around(x as int, y as int, radius as int, max_x as int, max_y as int),
        r matches Some((x0, y0, x1, y1)) ==> x0 <= x1 <= max_x && y0 <= y1 <= max_y,
{
    let x0 = x.saturating_sub(radius);
    let y0 = y.saturating_sub(radius);
    let x1 = x.saturating_add(radius);
    let y1 = y.saturating_add(radius);
    if x0 > max_x || y0 > max_y {
        return None;
    }
    let x1 = if x1 < max_x {
        x1
    } else {
        max_x
    };
    let y1 = if y1 < max_y {
        y1
    } else {
        max_y
    };
    if x0 > x1 || y0 > y1 {
        return None;
    }
    Some((x0, y0, x1, y1))
}

/// The scans around one region, one per angle index of `around`.
pub open spec fn region_plan(
    level: usize,
    around: Seq<usize>,
    roi: (usize, usize, usize, usize),
) -> Seq<ScanRequest> {
    Seq::new(
        around.len(),
        |i: int|
            ScanRequest {
                level,
                angle_idx: around[i],
                x0: roi.0,
                y0: roi.1,
                x1: roi.2,
                y1: roi.3,
            },
    )
}

/// The scans that refine the candidates `prev` of the next coarser level:
/// for each candidate in turn, the region within `radius` of its doubled
/// position, under each angle that `neighbors` lists for its angle index. A
/// candidate whose region holds no valid placement asks for nothing. A
/// candidate whose angle index `neighbors` does not hold is an error.
pub open spec fn refine_plan(
    prev: Seq<Candidate>,
    level: usize,
    neighbors: Seq<Seq<usize>>,
    radius: usize,
    max_x: usize,
    max_y: usize,
) -> Result<Seq<ScanRequest>, CorrMatchError>
    decreases prev.len(),
{
    if prev.len() == 0 {
        Ok(Seq::empty())
    } else {
        let cand = prev.last();
        match refine_plan(prev.drop_last(), level, neighbors, radius, max_x, max_y) {
            Err(e) => Err(e),
            Ok(before) => match roi_around(
                doubled(cand.x) as int,
                doubled(cand.y) as int,
                radius as int,
                max_x as int,
                max_y as int,
            ) {
                None => Ok(before),
                Some(roi) => if cand.angle_idx < neighbors.len() {
                    Ok(before + region_plan(level, neighbors[cand.angle_idx as int], roi))
                } else {
                    Err(
                        CorrMatchError::IndexOutOfBounds {
                            index: cand.angle_idx,
                            len: neighbors.len() as usize,
                            context: "angle_idx",
                        },
                    )
                },
            },
        }
    }
}

/// Every scan of a refinement plan lies at the level of the plan, and its
/// rectangle is not empty and lies within the valid placements.
pub proof fn lemma_refine_plan_within(
    prev: Seq<Candidate>,
    level: usize,
    neighbors: Seq<Seq<usize>>,
    radius: usize,
    max_x: usize,
    max_y: usize,
)
    requires
        refine_plan(prev, level, neighbors, radius, max_x, max_y) is Ok,
    ensures
        forall|i: int|
            0 <= i < refine_plan(prev, level, neighbors, radius, max_x, max_y)->Ok_0.len() ==> {
                let req = #[trigger] refine_plan(prev, level, neighbors, radius, max_x, max_y)->Ok_0[i];
                &&& req.level == level
                &&& req.x0 <= req.x1 <= max_x
                &&& req.y0 <= req.y1 <= max_y
            },
    decreases prev.len(),
{
    if prev.len() > 0 {
        lemma_refine_plan_within(prev.drop_last(), level, neighbors, radius, max_x, max_y);
    }
}

/// Once the plan for a prefix of the candidates fails, the whole plan fails alike.
pub proof fn lemma_refine_plan_error_stays(
    prev: Seq<Candidate>,
    level: usize,
    neighbors: Seq<Seq<usize>>,
    radius: usize,
    max_x: usize,
    max_y: usize,
    n: int,
)
    requires
        0 <= n <= prev.len(),
        refine_plan(prev.take(n), level, neighbors, radius, max_x, max_y) is Err,
    ensures
        refine_plan(prev, level, neighbors, radius, max_x, max_y) == refine_plan(
            prev.take(n),
            level,
            neighbors,
            radius,
            max_x,
            max_y,
        ),
    decreases prev.len() - n,
{
    if n < prev.len() {
        assert(prev.take(n + 1).drop_last() =~= prev.take(n));
        lemma_refine_plan_error_stays(prev, level, neighbors, radius, max_x, max_y, n + 1);
    } else {
        assert(prev.take(n) =~= prev);
    }
}

/// Lists the scans that refine the candidates of the next coarser level.
pub fn refine_requests(
    prev: &[Candidate],
    level: usize,
    neighbors: &Vec<Vec<usize>>,
    radius: usize,
    max_x: usize,
    max_y: usize,
) -> (r: CorrMatchResult<Vec<ScanRequest>>)
    ensures
        match r {
            Ok(reqs) => refine_plan(prev@, level, index_lists(neighbors@), radius, max_x, max_y)
                == Ok::<Seq<ScanRequest>, CorrMatchError>(reqs@),
            Err(e) => refine_plan(prev@, level, index_lists(neighbors@), radius, max_x, max_y)
                == Err::<Seq<ScanRequest>, CorrMatchError>(e),
        },
{
    let ghost near = index_lists(neighbors@);
    let mut out: Vec<ScanRequest> = Vec::new();
    let mut i: usize = 0;
    while i < prev.len()
        invariant
            i <= prev@.len(),
            near == index_lists(neighbors@),
            refine_plan(prev@.take(i as int), level, near, radius, max_x, max_y) == Ok::<
                Seq<ScanRequest>,
                CorrMatchError,
            >(out@),
        decreases prev@.len() - i,
    {
        let cand = prev[i];
        proof {
            assert(prev@.take(i + 1).drop_last() =~= prev@.take(i as int));
        }
        let (ux, uy) = upscale_pos(cand.x, cand.y);
        match roi_bounds(ux, uy, radius, max_x, max_y) {
            None => {},
            Some(roi) => {
                if cand.angle_idx >= neighbors.len() {
                    proof {
                        lemma_refine_plan_error_stays(
                            prev@,
                            level,
                            near,
                            radius,
                            max_x,
                            max_y,
                            i + 1,
                        );
                    }
                    return Err(
                        CorrMatchError::IndexOutOfBounds {
                            index: cand.angle_idx,
                            len: neighbors.len(),
                            context: "angle_idx",
                        },
                    );
                }
                let around = &neighbors[cand.angle_idx];
                let ghost before = out@;
                let mut j: usize = 0;
                while j < around.len()
                    invariant
                        j <= around@.len(),
                        out@ == before + region_plan(level, around@, roi).take(j as int),
                    decreases around@.len() - j,
                {
                    out.push(
                        ScanRequest {
                            level,
                            angle_idx: around[j],
                            x0: roi.0,
                            y0: roi.1,
                            x1: roi.2,
                            y1: roi.3,
                        },
                    );
                    proof {
                        let plan = region_plan(level, around@, roi);
                        assert(plan.take(j + 1) =~= plan.take(j as int).push(plan[j as int]));
                    }
                    j += 1;
                }
                proof {
                    let plan = region_plan(level, around@, roi);
                    assert(plan.take(around@.len() as int) =~= plan);
                }
            },
        }
        i += 1;
    }
    proof {
        assert(prev@.take(prev@.len() as int) =~= prev@);
    }
    Ok(out)
}

/// Whether `found` is what a finer level hands on after the candidates
/// `prev` of the level above: the template fits, the regions around the
/// candidates were scanned under the angles near theirs, and the selection
/// left a candidate.
pub open spec fn refine_step<R: Fn(&ImagePyramid, Vec<ScanRequest>) -> CorrMatchResult<Vec<Vec<Peak>>>>(
    run: R,
    pyramid: &ImagePyramid,
    levels: Seq<LevelPlan>,
    cfg: MatchConfig,
    level: int,
    prev: Seq<Candidate>,
    found: Seq<Candidate>,
) -> bool {
    let area = level_area(pyramid@, levels, level);
    let plan = refine_plan(
        prev,
        level as usize,
        index_lists(levels[level].neighbors@),
        cfg.roi_radius,
        area.max_x() as usize,
        area.max_y() as usize,
    );
    &&& area.fits()
    &&& found.len() > 0
    &&& plan is Ok
    &&& selected_from(run, pyramid, plan->Ok_0, level, levels, cfg, found)
}

/// The error of a level that selects no candidate at a finer level.
pub open spec fn no_refined_candidates() -> CorrMatchError {
    CorrMatchError::NoCandidates { reason: "no candidates after refinement" }
}

/// Whether a finer level can end the search with `e` after the candidates
/// `prev` of the level above: the template does not fit, a candidate's
/// angle has no neighbours listed, the scans or the selection fail, or no
/// candidate is selected.
pub open spec fn refine_failed<R: Fn(&ImagePyramid, Vec<ScanRequest>) -> CorrMatchResult<Vec<Vec<Peak>>>>(
    run: R,
    pyramid: &ImagePyramid,
    levels: Seq<LevelPlan>,
    cfg: MatchConfig,
    level: int,
    prev: Seq<Candidate>,
    e: CorrMatchError,
) -> bool {
    let area = level_area(pyramid@, levels, level);
    let plan = refine_plan(
        prev,
        level as usize,
        index_lists(levels[level].neighbors@),
        cfg.roi_radius,
        area.max_x() as usize,
        area.max_y() as usize,
    );
    if !area.fits() {
        e == area.misfit()
    } else if plan is Err {
        e == plan->Err_0
    } else {
        ||| selection_failed(run, pyramid, plan->Ok_0, level, levels, cfg, e)
        ||| e == no_refined_candidates() && selected_from(
            run,
            pyramid,
            plan->Ok_0,
            level,
            levels,
            cfg,
            Seq::empty(),
        )
    }
}

/// Refines the candidates `prev` of the level above at `finer_level`:
/// scans the region around each candidate under the angles near its angle
/// and selects the candidates of the finer level. Nothing is scanned for no
/// candidates.
///
/// It is an error if the pyramid or the template has no such level, or if
/// the template does not fit into the image at the level.
pub fn refine_to_finer_level<R: Fn(&ImagePyramid, Vec<ScanRequest>) -> CorrMatchResult<Vec<Vec<Peak>>>>(
    pyramid: &ImagePyramid,
    levels: &Vec<LevelPlan>,
    finer_level: usize,
    prev: &[Candidate],
    cfg: &MatchConfig,
    run: &R,
) -> (r: CorrMatchResult<Vec<Candidate>>)
    requires
        forall|reqs: Vec<ScanRequest>|
            valid_requests(reqs@, pyramid@, levels@) ==> #[trigger] call_requires(
                *run,
                (pyramid, reqs),
            ),
    ensures
        prev@.len() == 0 ==> r is Ok && r->Ok_0@.len() == 0,
        prev@.len() > 0 ==> match r {
            Ok(found) => {
                let area = level_area(pyramid@, levels@, finer_level as int);
                let plan = refine_plan(
                    prev@,
                    finer_level,
                    index_lists(levels@[finer_level as int].neighbors@),
                    cfg.roi_radius,
                    area.max_x() as usize,
                    area.max_y() as usize,
                );
                &&& finer_level < shared_levels(pyramid@, levels@)
                &&& area.fits()
                &&& plan is Ok
                &&& selected_from(
                    *run,
                    pyramid,
                    plan->Ok_0,
                    finer_level as int,
                    levels@,
                    *cfg,
                    found@,
                )
            },
            Err(e) => {
                let area = level_area(pyramid@, levels@, finer_level as int);
                let plan = refine_plan(
                    prev@,
                    finer_level,
                    index_lists(levels@[finer_level as int].neighbors@),
                    cfg.roi_radius,
                    area.max_x() as usize,
                    area.max_y() as usize,
                );
                if finer_level >= shared_levels(pyramid@, levels@) {
                    e == no_such_level(finer_level, shared_levels(pyramid@, levels@))
                } else if !area.fits() {
                    e == area.misfit()
                } else if plan is Err {
                    e == plan->Err_0
                } else {
                    selection_failed(
                        *run,
                        pyramid,
                        plan->Ok_0,
                        finer_level as int,
                        levels@,
                        *cfg,
                        e,
                    )
                }
            },
        },
{
    if prev.len() == 0 {
        return Ok(Vec::new());
    }
    let image_levels = pyramid.levels().len();
    let shared = if image_levels < levels.len() {
        image_levels
    } else {
        levels.len()
    };
    let view = match pyramid.level(finer_level) {
        Some(view) if finer_level < shared => view,
        _ => {
            return Err(
                CorrMatchError::IndexOutOfBounds { index: finer_level, len: shared, context: "level" },
            );
        },
    };
    let area = ScanArea {
        img_width: view.width(),
        img_height: view.height(),
        tpl_width: levels[finer_level].tpl_width,
        tpl_height: levels[finer_level].tpl_height,
    };
    let (max_x, max_y) = match area.limits() {
        Ok(limits) => limits,
        Err(e) => {
            return Err(e);
        },
    };
    let requests = match refine_requests(
        prev,
        finer_level,
        &levels[finer_level].neighbors,
        cfg.roi_radius,
        max_x,
        max_y,
    ) {
        Ok(requests) => requests,
        Err(e) => {
            return Err(e);
        },
    };
    proof {
        assert(area == level_area(pyramid@, levels@, finer_level as int));
        let near = index_lists(levels@[finer_level as int].neighbors@);
        let plan = refine_plan(prev@, finer_level, near, cfg.roi_radius, max_x, max_y)->Ok_0;
        lemma_refine_plan_within(prev@, finer_level, near, cfg.roi_radius, max_x, max_y);
        assert forall|i: int| 0 <= i < requests@.len() implies valid_request(
            #[trigger] requests@[i],
            pyramid@,
            levels@,
        ) by {
            assert(requests@[i] == plan[i]);
        }
    }
    run_and_select(pyramid, levels, finer_level, requests, cfg, run)
}

} // verus!
