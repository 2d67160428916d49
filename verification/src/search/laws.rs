//! The search has one outcome only, however its scans are performed.

use vstd::prelude::*;
use crate::candidate::topk::Peak;
use crate::error::CorrMatchResult;
use crate::image::pyramid::pyramid_levels;
use crate::image::pyramid::ImagePyramid;
use crate::image::Raster;
use crate::search::coarse::coarse_plan;
use crate::search::coarse::coarse_step;
use crate::search::descent;
use crate::search::refine::refine_plan;
use crate::search::refine::refine_step;
use crate::search::search_outcome;
use crate::search::searched;
use crate::search::select::index_lists;
use crate::search::select::lemma_selection_is_determined;
use crate::search::select::level_area;
use crate::search::select::repeatable;
use crate::search::select::shared_levels;
use crate::search::select::Candidate;
use crate::search::select::LevelPlan;
use crate::search::select::ScanRequest;
use crate::search::MatchConfig;

verus! {

/// With repeatable scans the search has one outcome only: whether the
/// scans of a level run one by one or side by side, the candidates at the
/// finest level are the same, in the same order.
pub proof fn lemma_search_is_determined<R: Fn(&ImagePyramid, Vec<ScanRequest>) -> CorrMatchResult<Vec<Vec<Peak>>>>(
    run: R,
    first_pyramid: &ImagePyramid,
    second_pyramid: &ImagePyramid,
    levels: Seq<LevelPlan>,
    cfg: MatchConfig,
    first: Seq<Candidate>,
    second: Seq<Candidate>,
)
    requires
        repeatable(run),
        first_pyramid@ == second_pyramid@,
        searched(run, first_pyramid, levels, cfg, first),
        searched(run, second_pyramid, levels, cfg, second),
    ensures
        first == second,
{
    let coarsest = shared_levels(first_pyramid@, levels) - 1;
    let first_path = choose|path: Seq<Seq<Candidate>>|
        path.len() == coarsest + 1 && coarse_step(run, first_pyramid, levels, cfg, coarsest, path[0])
            && #[trigger] descent(run, first_pyramid, levels, cfg, coarsest, path) && path.last() == first;
    let second_path = choose|path: Seq<Seq<Candidate>>|
        path.len() == coarsest + 1 && coarse_step(run, second_pyramid, levels, cfg, coarsest, path[0])
            && #[trigger] descent(run, second_pyramid, levels, cfg, coarsest, path) && path.last() == second;
    let area = level_area(first_pyramid@, levels, coarsest);
    lemma_selection_is_determined(
        run,
        first_pyramid,
        second_pyramid,
        coarse_plan(
            coarsest as usize,
            levels[coarsest].angles@.len(),
            area.max_x() as usize,
            area.max_y() as usize,
        ),
        coarsest,
        levels,
        cfg,
        first_path[0],
        second_path[0],
    );
    lemma_descents_agree(run, first_pyramid, second_pyramid, levels, cfg, coarsest, first_path, second_path, coarsest);
}

/// With repeatable scans the search for an image has one outcome only.
pub proof fn lemma_outcome_is_determined<R: Fn(&ImagePyramid, Vec<ScanRequest>) -> CorrMatchResult<Vec<Vec<Peak>>>>(
    run: R,
    image: Raster<u8>,
    levels: Seq<LevelPlan>,
    cfg: MatchConfig,
    first: Seq<Candidate>,
    second: Seq<Candidate>,
)
    requires
        repeatable(run),
        search_outcome(run, image, levels, cfg, first),
        search_outcome(run, image, levels, cfg, second),
    ensures
        first == second,
{
    let first_pyramid = choose|pyramid: &ImagePyramid|
        pyramid@ == pyramid_levels(image, cfg.max_image_levels as nat) && #[trigger] searched(
            run,
            pyramid,
            levels,
            cfg,
            first,
        );
    let second_pyramid = choose|pyramid: &ImagePyramid|
        pyramid@ == pyramid_levels(image, cfg.max_image_levels as nat) && #[trigger] searched(
            run,
            pyramid,
            levels,
            cfg,
            second,
        );
    lemma_search_is_determined(run, first_pyramid, second_pyramid, levels, cfg, first, second);
}

/// Two descents from the same candidates agree entry by entry.
pub proof fn lemma_descents_agree<R: Fn(&ImagePyramid, Vec<ScanRequest>) -> CorrMatchResult<Vec<Vec<Peak>>>>(
    run: R,
    first_pyramid: &ImagePyramid,
    second_pyramid: &ImagePyramid,
    levels: Seq<LevelPlan>,
    cfg: MatchConfig,
    from: int,
    first_path: Seq<Seq<Candidate>>,
    second_path: Seq<Seq<Candidate>>,
    upto: int,
)
    requires
        repeatable(run),
        first_pyramid@ == second_pyramid@,
        descent(run, first_pyramid, levels, cfg, from, first_path),
        descent(run, second_pyramid, levels, cfg, from, second_path),
        first_path[0] == second_path[0],
        0 <= upto < first_path.len(),
        upto < second_path.len(),
    ensures
        first_path[upto] == second_path[upto],
    decreases upto,
{
    if upto > 0 {
        let i = upto - 1;
        lemma_descents_agree(run, first_pyramid, second_pyramid, levels, cfg, from, first_path, second_path, i);
        let level = from - 1 - i;
        let area = level_area(first_pyramid@, levels, level);
        let plan = refine_plan(
            first_path[i],
            level as usize,
            index_lists(levels[level].neighbors@),
            cfg.roi_radius,
            area.max_x() as usize,
            area.max_y() as usize,
        );
        assert(refine_step(run, first_pyramid, levels, cfg, level, first_path[i], first_path[i + 1]));
        assert(refine_step(run, second_pyramid, levels, cfg, level, second_path[i], second_path[i + 1]));
        lemma_selection_is_determined(
            run,
            first_pyramid,
            second_pyramid,
            plan->Ok_0,
            level,
            levels,
            cfg,
            first_path[i + 1],
            second_path[i + 1],
        );
    }
}

} // verus!
