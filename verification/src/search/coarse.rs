//! The coarsest level of the search: every angle is scanned over all
//! valid placements.

use vstd::prelude::*;
use crate::candidate::topk::Peak;
use crate::error::CorrMatchError;
use crate::error::CorrMatchResult;
use crate::image::pyramid::ImagePyramid;
use crate::kernel::ScanArea;
use crate::search::select::level_area;
use crate::search::select::no_such_level;
use crate::search::select::run_and_select;
use crate::search::select::selected_from;
use crate::search::select::selection_failed;
use crate::search::select::shared_levels;
use crate::search::select::valid_requests;
use crate::search::select::Candidate;
use crate::search::select::LevelPlan;
use crate::search::select::ScanRequest;
use crate::search::MatchConfig;

verus! {

/// The scans of the coarsest level: all valid placements, once per angle.
pub open spec fn coarse_plan(level: usize, angles: nat, max_x: usize, max_y: usize) -> Seq<
    ScanRequest,
> {
    Seq::new(
        angles,
        |a: int| ScanRequest { level, angle_idx: a as usize, x0: 0, y0: 0, x1: max_x, y1: max_y },
    )
}

/// Lists the scans of the coarsest level.
pub fn coarse_requests(level: usize, angles: usize, max_x: usize, max_y: usize) -> (r: Vec<
    ScanRequest,
>)
    ensures
        r@ == coarse_plan(level, angles as nat, max_x, max_y),
{
    let mut out: Vec<ScanRequest> = Vec::with_capacity(angles);
    let mut a: usize = 0;
    while a < angles
        invariant
            a <= angles,
            out@ == coarse_plan(level, a as nat, max_x, max_y),
        decreases angles - a,
    {
        out.push(ScanRequest { level, angle_idx: a, x0: 0, y0: 0, x1: max_x, y1: max_y });
        a += 1;
        proof {
            assert(out@ =~= coarse_plan(level, a as nat, max_x, max_y));
        }
    }
    out
}

/// Whether `found` is what the coarsest level hands on: the template fits,
/// every angle was scanned over all valid placements, and the selection left
/// a candidate.
pub open spec fn coarse_step<R: Fn(&ImagePyramid, Vec<ScanRequest>) -> CorrMatchResult<Vec<Vec<Peak>>>>(
    run: R,
    pyramid: &ImagePyramid,
    levels: Seq<LevelPlan>,
    cfg: MatchConfig,
    level: int,
    found: Seq<Candidate>,
) -> bool {
    let area = level_area(pyramid@, levels, level);
    &&& area.fits()
    &&& found.len() > 0
    &&& selected_from(
        run,
        pyramid,
        coarse_plan(
            level as usize,
            levels[level].angles@.len(),
            area.max_x() as usize,
            area.max_y() as usize,
        ),
        level,
        levels,
        cfg,
        found,
    )
}

/// The error of a level that selects no candidate at the coarsest level.
pub open spec fn no_coarse_candidates() -> CorrMatchError {
    CorrMatchError::NoCandidates { reason: "no coarse candidates" }
}

/// Whether the coarsest level can end the search with `e`: the template
/// does not fit, the scans or the selection fail, or no candidate is selected.
pub open spec fn coarse_failed<R: Fn(&ImagePyramid, Vec<ScanRequest>) -> CorrMatchResult<Vec<Vec<Peak>>>>(
    run: R,
    pyramid: &ImagePyramid,
    levels: Seq<LevelPlan>,
    cfg: MatchConfig,
    level: int,
    e: CorrMatchError,
) -> bool {
    let area = level_area(pyramid@, levels, level);
    let plan = coarse_plan(
        level as usize,
        levels[level].angles@.len(),
        area.max_x() as usize,
        area.max_y() as usize,
    );
    if !area.fits() {
        e == area.misfit()
    } else {
        ||| selection_failed(run, pyramid, plan, level, levels, cfg, e)
        ||| e == no_coarse_candidates() && selected_from(
            run,
            pyramid,
            plan,
            level,
            levels,
            cfg,
            Seq::empty(),
        )
    }
}

/// Scans every angle of a level over all valid placements and selects the
/// candidates of the level.
///
/// It is an error if the pyramid or the template has no such level, or if
/// the template does not fit into the image at the level.
pub fn coarse_search_level<R: Fn(&ImagePyramid, Vec<ScanRequest>) -> CorrMatchResult<Vec<Vec<Peak>>>>(
    pyramid: &ImagePyramid,
    levels: &Vec<LevelPlan>,
    level: usize,
    cfg: &MatchConfig,
    run: &R,
) -> (r: CorrMatchResult<Vec<Candidate>>)
    requires
        forall|reqs: Vec<ScanRequest>|
            valid_requests(reqs@, pyramid@, levels@) ==> #[trigger] call_requires(
                *run,
                (pyramid, reqs),
            ),
    ensures
        match r {
            Ok(found) => {
                let area = level_area(pyramid@, levels@, level as int);
                &&& level < shared_levels(pyramid@, levels@)
                &&& area.fits()
                &&& selected_from(
                    *run,
                    pyramid,
                    coarse_plan(
                        level,
                        levels@[level as int].angles@.len(),
                        area.max_x() as usize,
                        area.max_y() as usize,
                    ),
                    level as int,
                    levels@,
                    *cfg,
                    found@,
                )
            },
            Err(e) => {
                let area = level_area(pyramid@, levels@, level as int);
                if level >= shared_levels(pyramid@, levels@) {
                    e == no_such_level(level, shared_levels(pyramid@, levels@))
                } else if !area.fits() {
                    e == area.misfit()
                } else {
                    selection_failed(
                        *run,
                        pyramid,
                        coarse_plan(
                            level,
                            levels@[level as int].angles@.len(),
                            area.max_x() as usize,
                            area.max_y() as usize,
                        ),
                        level as int,
                        levels@,
                        *cfg,
                        e,
                    )
                }
            },
        },
{
    let image_levels = pyramid.levels().len();
    let shared = if image_levels < levels.len() {
        image_levels
    } else {
        levels.len()
    };
    let view = match pyramid.level(level) {
        Some(view) if level < shared => view,
        _ => {
            return Err(CorrMatchError::IndexOutOfBounds { index: level, len: shared, context: "level" });
        },
    };
    let area = ScanArea {
        img_width: view.width(),
        img_height: view.height(),
        tpl_width: levels[level].tpl_width,
        tpl_height: levels[level].tpl_height,
    };
    let (max_x, max_y) = match area.limits() {
        Ok(limits) => limits,
        Err(e) => {
            return Err(e);
        },
    };
    let requests = coarse_requests(level, levels[level].angles.len(), max_x, max_y);
    proof {
        assert(area == level_area(pyramid@, levels@, level as int));
    }
    run_and_select(pyramid, levels, level, requests, cfg, run)
}

} // verus!
