//! Coarse-to-fine search: configuration and the beam that is carried from
//! the coarsest pyramid level down to the finest.
//!
//! The search scores placements through a function supplied by the caller.
//! Everything else is decided here: which levels are visited, which region
//! and which angles are scanned around a candidate, how the peaks of a level
//! are merged, suppressed and cut to the beam width, and when the search
//! gives up.

use vstd::prelude::*;
use crate::candidate::topk::Peak;
use crate::error::CorrMatchError;
use crate::error::CorrMatchResult;
use crate::image::pyramid::pyramid_levels;
use crate::image::pyramid::ImagePyramid;
use crate::image::ImageView;
use crate::image::Raster;
use crate::scalar::Scalar;
use crate::scalar::NEG_INFINITY_BITS;
use crate::search::coarse::coarse_failed;
use crate::search::coarse::coarse_plan;
use crate::search::coarse::coarse_step;
use crate::search::coarse::no_coarse_candidates;
use crate::search::refine::no_refined_candidates;
use crate::search::refine::refine_failed;
use crate::search::refine::refine_plan;
use crate::search::refine::refine_step;
use crate::search::select::index_lists;
use crate::search::select::is_beam_of;
use crate::search::select::lemma_beam_prefix;
use crate::search::select::lemma_selection_is_beam;
use crate::search::select::level_area;
use crate::search::select::shared_levels;
use crate::search::select::valid_requests;

pub mod coarse;
pub mod laws;
pub mod refine;
pub mod select;

pub use crate::search::coarse::coarse_requests;
pub use crate::search::coarse::coarse_search_level;
pub use crate::search::refine::refine_requests;
pub use crate::search::refine::refine_to_finer_level;
pub use crate::search::refine::roi_bounds;
pub use crate::search::refine::upscale_pos;
pub use crate::search::select::prune_peaks;
pub use crate::search::select::resolve_candidates;
pub use crate::search::select::select_candidates;
pub use crate::search::select::Candidate;
pub use crate::search::select::LevelPlan;
pub use crate::search::select::ScanRequest;

verus! {

/// Bits of the default variance threshold, `1e-8`.
pub const DEFAULT_MIN_VAR_BITS: u32 = 0x322b_cc77;

/// Matching metric selector.
#[derive(Clone, Copy, Debug, PartialEq, Eq)]
pub enum Metric {
    /// Zero-mean normalized cross-correlation (higher is better, roughly [-1, 1]).
    Zncc,
    /// Sum of squared differences (reported as negative SSE, higher is better).
    Ssd,
}

/// Controls whether rotation is searched.
#[derive(Clone, Copy, Debug, PartialEq, Eq)]
pub enum RotationMode {
    /// Skip rotation and use the unmasked fast path.
    Disabled,
    /// Enable rotation search using masked kernels.
    Enabled,
}

/// Configuration for the coarse-to-fine matcher pipeline.
#[derive(Clone, Copy, Debug)]
pub struct MatchConfig {
    /// Matching metric to use.
    pub metric: Metric,
    /// Whether rotation search is enabled.
    pub rotation: RotationMode,
    /// Opts into data-parallel execution where the embedding offers it.
    pub parallel: bool,
    /// Maximum pyramid levels to build for the image.
    pub max_image_levels: usize,
    /// Beam width kept per level after merge and NMS.
    pub beam_width: usize,
    /// Peaks kept per angle and scan.
    pub per_angle_topk: usize,
    /// Spatial NMS radius in pixels for the current level.
    pub nms_radius: usize,
    /// Refinement ROI radius in pixels for the current level.
    pub roi_radius: usize,
    /// Angle neighborhood half-range in multiples of the grid step.
    pub angle_half_range_steps: usize,
    /// Minimum variance for image patches (ZNCC only).
    pub min_var_i: Scalar,
    /// Minimum score threshold (discard below this value).
    pub min_score: Scalar,
}

impl Default for MatchConfig {
    fn default() -> (cfg: Self)
        ensures
            cfg.metric == Metric::Zncc,
            cfg.rotation == RotationMode::Disabled,
            !cfg.parallel,
            cfg.max_image_levels == 6,
            cfg.beam_width == 8,
            cfg.per_angle_topk == 3,
            cfg.nms_radius == 6,
            cfg.roi_radius == 8,
            cfg.angle_half_range_steps == 1,
            cfg.min_var_i.bits == DEFAULT_MIN_VAR_BITS,
            cfg.min_score.bits == NEG_INFINITY_BITS,
            cfg.fault(false) is None,
    {
        Self {
            metric: Metric::Zncc,
            rotation: RotationMode::Disabled,
            parallel: false,
            max_image_levels: 6,
            beam_width: 8,
            per_angle_topk: 3,
            nms_radius: 6,
            roi_radius: 8,
            angle_half_range_steps: 1,
            min_var_i: Scalar::from_bits(DEFAULT_MIN_VAR_BITS),
            min_score: Scalar::neg_infinity(),
        }
    }
}

impl MatchConfig {
    /// Why the configuration is rejected; `None` where it is valid.
    /// `parallel_available` says whether the embedding can run in parallel.
    pub open spec fn fault(self, parallel_available: bool) -> Option<CorrMatchError> {
        if self.beam_width == 0 {
            Some(CorrMatchError::InvalidConfig { reason: "beam_width must be at least 1" })
        } else if self.per_angle_topk == 0 {
            Some(CorrMatchError::InvalidConfig { reason: "per_angle_topk must be at least 1" })
        } else if self.max_image_levels == 0 {
            Some(CorrMatchError::InvalidConfig { reason: "max_image_levels must be at least 1" })
        } else if !self.min_var_i.is_finite() || self.min_var_i.lt(Scalar { bits: 0 }) {
            Some(
                CorrMatchError::InvalidConfig {
                    reason: "min_var_i must be a non-negative finite value",
                },
            )
        } else if !self.min_score.is_finite() && !self.min_score.is_neg_infinity() {
            Some(
                CorrMatchError::InvalidConfig { reason: "min_score must be finite or NEG_INFINITY" },
            )
        } else if self.parallel && !parallel_available {
            Some(CorrMatchError::ParallelUnavailable)
        } else {
            None
        }
    }

    /// Validates the configuration, returning an error if any parameter is invalid.
    pub fn validate(&self, parallel_available: bool) -> (r: CorrMatchResult<()>)
        ensures
            match r {
                Ok(_) => self.fault(parallel_available) is None,
                Err(e) => self.fault(parallel_available) == Some(e),
            },
    {
        if self.beam_width == 0 {
            return Err(CorrMatchError::InvalidConfig { reason: "beam_width must be at least 1" });
        }
        if self.per_angle_topk == 0 {
            return Err(
                CorrMatchError::InvalidConfig { reason: "per_angle_topk must be at least 1" },
            );
        }
        if self.max_image_levels == 0 {
            return Err(
                CorrMatchError::InvalidConfig { reason: "max_image_levels must be at least 1" },
            );
        }
        if !self.min_var_i.check_finite() || self.min_var_i.less(Scalar::zero()) {
            return Err(
                CorrMatchError::InvalidConfig {
                    reason: "min_var_i must be a non-negative finite value",
                },
            );
        }
        if !self.min_score.check_finite() && !self.min_score.check_neg_infinity() {
            return Err(
                CorrMatchError::InvalidConfig { reason: "min_score must be finite or NEG_INFINITY" },
            );
        }
        if self.parallel && !parallel_available {
            return Err(CorrMatchError::ParallelUnavailable);
        }
        Ok(())
    }

    /// Whether the search runs in parallel: asked for and available.
    pub fn use_parallel(&self, parallel_available: bool) -> (b: bool)
        ensures
            b == (self.parallel && parallel_available),
    {
        self.parallel && parallel_available
    }
}

/// The error for rotation asked of assets that were compiled without it.
pub open spec fn rotation_unavailable() -> CorrMatchError {
    CorrMatchError::RotationUnavailable {
        reason: "rotation enabled but template compiled without angle banks",
    }
}

/// Whether `path` is a descent of the search from level `from`: `path[0]`
/// are the candidates of that level, and each further entry is what the
/// next finer level hands on after the entry before it.
pub open spec fn descent<R: Fn(&ImagePyramid, Vec<ScanRequest>) -> CorrMatchResult<Vec<Vec<Peak>>>>(
    run: R,
    pyramid: &ImagePyramid,
    levels: Seq<LevelPlan>,
    cfg: MatchConfig,
    from: int,
    path: Seq<Seq<Candidate>>,
) -> bool {
    &&& 1 <= path.len() <= from + 1
    &&& forall|i: int|
        0 <= i < path.len() - 1 ==> refine_step(
            run,
            pyramid,
            levels,
            cfg,
            from - 1 - i,
            #[trigger] path[i],
            path[i + 1],
        )
}

/// Whether `seeds` is an outcome of the coarse-to-fine search over a
/// pyramid: the coarsest shared level was scanned in full, every finer level
/// refined the candidates of the level above, and `seeds` is what the finest
/// level handed on.
pub open spec fn searched<R: Fn(&ImagePyramid, Vec<ScanRequest>) -> CorrMatchResult<Vec<Vec<Peak>>>>(
    run: R,
    pyramid: &ImagePyramid,
    levels: Seq<LevelPlan>,
    cfg: MatchConfig,
    seeds: Seq<Candidate>,
) -> bool {
    let coarsest = shared_levels(pyramid@, levels) - 1;
    &&& coarsest >= 0
    &&& exists|path: Seq<Seq<Candidate>>|
        path.len() == coarsest + 1 && coarse_step(run, pyramid, levels, cfg, coarsest, path[0])
            && #[trigger] descent(run, pyramid, levels, cfg, coarsest, path) && path.last()
            == seeds
}

/// Whether the search over a pyramid can end with the error `e`: the
/// coarsest shared level fails with it, or the search descends some levels
/// and the next level fails with it.
pub open spec fn search_failed<R: Fn(&ImagePyramid, Vec<ScanRequest>) -> CorrMatchResult<Vec<Vec<Peak>>>>(
    run: R,
    pyramid: &ImagePyramid,
    levels: Seq<LevelPlan>,
    cfg: MatchConfig,
    e: CorrMatchError,
) -> bool {
    let coarsest = shared_levels(pyramid@, levels) - 1;
    &&& coarsest >= 0
    &&& {
        ||| coarse_failed(run, pyramid, levels, cfg, coarsest, e)
        ||| exists|path: Seq<Seq<Candidate>>|
            path.len() <= coarsest && coarse_step(run, pyramid, levels, cfg, coarsest, path[0])
                && #[trigger] descent(run, pyramid, levels, cfg, coarsest, path) && refine_failed(
                run,
                pyramid,
                levels,
                cfg,
                coarsest - path.len(),
                path.last(),
                e,
            )
    }
}

/// Whether the search for `image` can end with the error `e`.
pub open spec fn failure_outcome<R: Fn(&ImagePyramid, Vec<ScanRequest>) -> CorrMatchResult<Vec<Vec<Peak>>>>(
    run: R,
    image: Raster<u8>,
    levels: Seq<LevelPlan>,
    cfg: MatchConfig,
    e: CorrMatchError,
) -> bool {
    exists|pyramid: &ImagePyramid|
        pyramid@ == pyramid_levels(image, cfg.max_image_levels as nat) && #[trigger] search_failed(
            run,
            pyramid,
            levels,
            cfg,
            e,
        )
}

/// A failure of the search over the pyramid of an image is a failure for that image.
pub proof fn lemma_failure_outcome<R: Fn(&ImagePyramid, Vec<ScanRequest>) -> CorrMatchResult<Vec<Vec<Peak>>>>(
    run: R,
    image: Raster<u8>,
    pyramid: &ImagePyramid,
    levels: Seq<LevelPlan>,
    cfg: MatchConfig,
    e: CorrMatchError,
)
    requires
        pyramid@ == pyramid_levels(image, cfg.max_image_levels as nat),
        search_failed(run, pyramid, levels, cfg, e),
    ensures
        failure_outcome(run, image, levels, cfg, e),
{
}

/// A failure of the level below a descent is a failure of the search.
pub proof fn lemma_descent_fails<R: Fn(&ImagePyramid, Vec<ScanRequest>) -> CorrMatchResult<Vec<Vec<Peak>>>>(
    run: R,
    pyramid: &ImagePyramid,
    levels: Seq<LevelPlan>,
    cfg: MatchConfig,
    path: Seq<Seq<Candidate>>,
    e: CorrMatchError,
)
    requires
        path.len() <= shared_levels(pyramid@, levels) - 1,
        coarse_step(run, pyramid, levels, cfg, shared_levels(pyramid@, levels) - 1, path[0]),
        descent(run, pyramid, levels, cfg, shared_levels(pyramid@, levels) - 1, path),
        refine_failed(
            run,
            pyramid,
            levels,
            cfg,
            shared_levels(pyramid@, levels) - 1 - path.len(),
            path.last(),
            e,
        ),
    ensures
        search_failed(run, pyramid, levels, cfg, e),
{
}

/// Whether `seeds` is an outcome of the coarse-to-fine search for `image`:
/// an outcome of the search over a pyramid of the image with at most
/// `cfg.max_image_levels` levels.
pub open spec fn search_outcome<R: Fn(&ImagePyramid, Vec<ScanRequest>) -> CorrMatchResult<Vec<Vec<Peak>>>>(
    run: R,
    image: Raster<u8>,
    levels: Seq<LevelPlan>,
    cfg: MatchConfig,
    seeds: Seq<Candidate>,
) -> bool {
    exists|pyramid: &ImagePyramid|
        pyramid@ == pyramid_levels(image, cfg.max_image_levels as nat) && #[trigger] searched(
            run,
            pyramid,
            levels,
            cfg,
            seeds,
        )
}

/// Whether `seeds` are the best `k` of an outcome of the search for `image`.
pub open spec fn seeds_outcome<R: Fn(&ImagePyramid, Vec<ScanRequest>) -> CorrMatchResult<Vec<Vec<Peak>>>>(
    run: R,
    image: Raster<u8>,
    levels: Seq<LevelPlan>,
    cfg: MatchConfig,
    k: int,
    seeds: Seq<Candidate>,
) -> bool {
    exists|all: Seq<Candidate>| #[trigger]
        search_outcome(run, image, levels, cfg, all) && seeds == all.take(
            if k < all.len() {
                k
            } else {
                all.len() as int
            },
        )
}

/// A search over the pyramid of an image is an outcome for that image.
pub proof fn lemma_search_outcome<R: Fn(&ImagePyramid, Vec<ScanRequest>) -> CorrMatchResult<Vec<Vec<Peak>>>>(
    run: R,
    image: Raster<u8>,
    pyramid: &ImagePyramid,
    levels: Seq<LevelPlan>,
    cfg: MatchConfig,
    seeds: Seq<Candidate>,
)
    requires
        pyramid@ == pyramid_levels(image, cfg.max_image_levels as nat),
        searched(run, pyramid, levels, cfg, seeds),
    ensures
        search_outcome(run, image, levels, cfg, seeds),
{
}

/// The best `k` of an outcome of the search.
pub proof fn lemma_seeds_outcome<R: Fn(&ImagePyramid, Vec<ScanRequest>) -> CorrMatchResult<Vec<Vec<Peak>>>>(
    run: R,
    image: Raster<u8>,
    levels: Seq<LevelPlan>,
    cfg: MatchConfig,
    k: int,
    all: Seq<Candidate>,
)
    requires
        search_outcome(run, image, levels, cfg, all),
    ensures
        seeds_outcome(
            run,
            image,
            levels,
            cfg,
            k,
            all.take(
                if k < all.len() {
                    k
                } else {
                    all.len() as int
                },
            ),
        ),
{
}

/// A descent goes on by one level with what that level hands on.
pub proof fn lemma_descent_extends<R: Fn(&ImagePyramid, Vec<ScanRequest>) -> CorrMatchResult<Vec<Vec<Peak>>>>(
    run: R,
    pyramid: &ImagePyramid,
    levels: Seq<LevelPlan>,
    cfg: MatchConfig,
    from: int,
    path: Seq<Seq<Candidate>>,
    found: Seq<Candidate>,
)
    requires
        descent(run, pyramid, levels, cfg, from, path),
        path.len() <= from,
        refine_step(run, pyramid, levels, cfg, from - path.len(), path.last(), found),
    ensures
        descent(run, pyramid, levels, cfg, from, path.push(found)),
        path.push(found)[0] == path[0],
        path.push(found).last() == found,
{
    let longer = path.push(found);
    assert forall|i: int| 0 <= i < longer.len() - 1 implies refine_step(
        run,
        pyramid,
        levels,
        cfg,
        from - 1 - i,
        #[trigger] longer[i],
        longer[i + 1],
    ) by {
        if i < path.len() - 1 {
            assert(longer[i] == path[i]);
            assert(longer[i + 1] == path[i + 1]);
        }
    }
}

/// A descent from the coarsest shared level down to the finest is an outcome of the search.
pub proof fn lemma_descent_is_search<R: Fn(&ImagePyramid, Vec<ScanRequest>) -> CorrMatchResult<Vec<Vec<Peak>>>>(
    run: R,
    pyramid: &ImagePyramid,
    levels: Seq<LevelPlan>,
    cfg: MatchConfig,
    path: Seq<Seq<Candidate>>,
)
    requires
        shared_levels(pyramid@, levels) >= 1,
        path.len() == shared_levels(pyramid@, levels),
        coarse_step(run, pyramid, levels, cfg, shared_levels(pyramid@, levels) - 1, path[0]),
        descent(run, pyramid, levels, cfg, shared_levels(pyramid@, levels) - 1, path),
    ensures
        searched(run, pyramid, levels, cfg, path.last()),
{
}

/// The error of a search that ends before its first scan: rotation asked
/// of assets without rotated plans, no template level, or a template that
/// does not fit into the image at the coarsest shared level. `None` where
/// the first scan is reached.
pub open spec fn search_fault(
    image: Raster<u8>,
    levels: Seq<LevelPlan>,
    rotated: bool,
    cfg: MatchConfig,
) -> Option<CorrMatchError> {
    let pyramid = pyramid_levels(image, cfg.max_image_levels as nat);
    let coarsest = shared_levels(pyramid, levels) - 1;
    if cfg.rotation == RotationMode::Enabled && !rotated {
        Some(rotation_unavailable())
    } else if coarsest < 0 {
        Some(
            CorrMatchError::InvalidDimensions {
                width: image.width as usize,
                height: image.height as usize,
            },
        )
    } else if !level_area(pyramid, levels, coarsest).fits() {
        Some(level_area(pyramid, levels, coarsest).misfit())
    } else {
        None
    }
}

/// Runs the coarse-to-fine beam search and returns the candidates that
/// survive at the finest level, best first.
///
/// The pyramid of `image` is built with at most `cfg.max_image_levels`
/// levels. `levels` is what is known of the compiled template, finest level
/// first; the search uses as many levels as the pyramid and the template both
/// have. `rotated` says whether the compiled assets hold rotated plans. `run`
/// performs a batch of scans on the pyramid and returns one peak list per
/// request, in the order of the requests; it may run them one by one or side
/// by side. It is only handed requests whose rectangles are not empty and lie
/// within the valid placements of their level.
///
/// At the coarsest level every angle is scanned over all valid placements.
/// At each finer level the region around each candidate is scanned under
/// the angles near the candidate's. After each level the peaks are merged,
/// suppressed, cut to the beam width and resolved into candidates. A level
/// that leaves no candidate ends the search with `NoCandidates`.
pub fn match_candidates<R: Fn(&ImagePyramid, Vec<ScanRequest>) -> CorrMatchResult<Vec<Vec<Peak>>>>(
    image: ImageView<'_, u8>,
    levels: &Vec<LevelPlan>,
    rotated: bool,
    cfg: &MatchConfig,
    run: R,
) -> (r: CorrMatchResult<Vec<Candidate>>)
    requires
        forall|pyramid: &ImagePyramid, reqs: Vec<ScanRequest>|
            pyramid@ == pyramid_levels(image@, cfg.max_image_levels as nat) && valid_requests(
                reqs@,
                pyramid@,
                levels@,
            ) ==> #[trigger] call_requires(run, (pyramid, reqs)),
    ensures
        search_fault(image@, levels@, rotated, *cfg) matches Some(e) ==> r == Err::<
            Vec<Candidate>,
            CorrMatchError,
        >(e),
        r matches Ok(seeds) ==> {
            &&& search_fault(image@, levels@, rotated, *cfg) is None
            &&& is_beam_of(seeds@, 0, levels@[0].angles@, cfg.nms_radius, cfg.beam_width)
            &&& search_outcome(run, image@, levels@, *cfg, seeds@)
        },
        r matches Err(e) ==> search_fault(image@, levels@, rotated, *cfg) == Some(e)
            || failure_outcome(run, image@, levels@, *cfg, e),
{
    if !rotated && matches!(cfg.rotation, RotationMode::Enabled) {
        return Err(
            CorrMatchError::RotationUnavailable {
                reason: "rotation enabled but template compiled without angle banks",
            },
        );
    }
    let pyramid = ImagePyramid::build_u8(image, cfg.max_image_levels)?;
    let image_levels = pyramid.levels().len();
    let num_levels = if image_levels < levels.len() {
        image_levels
    } else {
        levels.len()
    };
    if num_levels == 0 {
        return Err(CorrMatchError::InvalidDimensions { width: image.width(), height: image.height() });
    }
    let coarsest = num_levels - 1;
    let mut seeds = match coarse_search_level(&pyramid, levels, coarsest, cfg, &run) {
        Ok(seeds) => seeds,
        Err(e) => {
            proof {
                if level_area(pyramid@, levels@, coarsest as int).fits() {
                    assert(coarse_failed(run, &pyramid, levels@, *cfg, coarsest as int, e));
                    lemma_failure_outcome(run, image@, &pyramid, levels@, *cfg, e);
                }
            }
            return Err(e);
        },
    };
    if seeds.len() == 0 {
        proof {
            assert(seeds@ =~= Seq::<Candidate>::empty());
            assert(coarse_failed(
                run,
                &pyramid,
                levels@,
                *cfg,
                coarsest as int,
                no_coarse_candidates(),
            ));
            lemma_failure_outcome(run, image@, &pyramid, levels@, *cfg, no_coarse_candidates());
        }
        return Err(CorrMatchError::NoCandidates { reason: "no coarse candidates" });
    }
    let ghost start = seeds@;
    let ghost mut path: Seq<Seq<Candidate>> = seq![start];
    proof {
        assert(coarse_step(run, &pyramid, levels@, *cfg, coarsest as int, start));
        lemma_selection_is_beam(
            run,
            &pyramid,
            coarse_plan(
                coarsest,
                levels@[coarsest as int].angles@.len(),
                level_area(pyramid@, levels@, coarsest as int).max_x() as usize,
                level_area(pyramid@, levels@, coarsest as int).max_y() as usize,
            ),
            coarsest as int,
            levels@,
            *cfg,
            start,
        );
    }
    let mut level = coarsest;
    while level > 0
        invariant
            search_fault(image@, levels@, rotated, *cfg) is None,
            level <= coarsest,
            coarsest == shared_levels(pyramid@, levels@) - 1,
            seeds@.len() > 0,
            pyramid@ == pyramid_levels(image@, cfg.max_image_levels as nat),
            is_beam_of(
                seeds@,
                level,
                levels@[level as int].angles@,
                cfg.nms_radius,
                cfg.beam_width,
            ),
            descent(run, &pyramid, levels@, *cfg, coarsest as int, path),
            path.len() == coarsest - level + 1,
            path[0] == start,
            path.last() == seeds@,
            coarse_step(run, &pyramid, levels@, *cfg, coarsest as int, start),
            forall|pyramid: &ImagePyramid, reqs: Vec<ScanRequest>|
                pyramid@ == pyramid_levels(image@, cfg.max_image_levels as nat) && valid_requests(
                    reqs@,
                    pyramid@,
                    levels@,
                ) ==> #[trigger] call_requires(run, (pyramid, reqs)),
        decreases level,
    {
        let finer = level - 1;
        let found = match refine_to_finer_level(
            &pyramid,
            levels,
            finer,
            seeds.as_slice(),
            cfg,
            &run,
        ) {
            Ok(found) => found,
            Err(e) => {
                proof {
                    assert(refine_failed(run, &pyramid, levels@, *cfg, finer as int, seeds@, e));
                    lemma_descent_fails(run, &pyramid, levels@, *cfg, path, e);
                    lemma_failure_outcome(run, image@, &pyramid, levels@, *cfg, e);
                }
                return Err(e);
            },
        };
        if found.len() == 0 {
            proof {
                assert(found@ =~= Seq::<Candidate>::empty());
                assert(refine_failed(
                    run,
                    &pyramid,
                    levels@,
                    *cfg,
                    finer as int,
                    seeds@,
                    no_refined_candidates(),
                ));
                lemma_descent_fails(run, &pyramid, levels@, *cfg, path, no_refined_candidates());
                lemma_failure_outcome(
                    run,
                    image@,
                    &pyramid,
                    levels@,
                    *cfg,
                    no_refined_candidates(),
                );
            }
            return Err(CorrMatchError::NoCandidates { reason: "no candidates after refinement" });
        }
        proof {
            let area = level_area(pyramid@, levels@, finer as int);
            let plan = refine_plan(
                seeds@,
                finer,
                index_lists(levels@[finer as int].neighbors@),
                cfg.roi_radius,
                area.max_x() as usize,
                area.max_y() as usize,
            );
            assert(refine_step(run, &pyramid, levels@, *cfg, finer as int, seeds@, found@));
            lemma_descent_extends(run, &pyramid, levels@, *cfg, coarsest as int, path, found@);
            path = path.push(found@);
            lemma_selection_is_beam(run, &pyramid, plan->Ok_0, finer as int, levels@, *cfg, found@);
        }
        seeds = found;
        level = finer;
    }
    proof {
        lemma_descent_is_search(run, &pyramid, levels@, *cfg, path);
        lemma_search_outcome(run, image@, &pyramid, levels@, *cfg, seeds@);
    }
    Ok(seeds)
}

/// Validates the configuration, runs the coarse-to-fine search and returns
/// the best `k` of the candidates that survive at the finest level, best
/// first; all of them where fewer survive. With `k == 0` nothing is searched.
///
/// `parallel_available` says whether the embedding can run scans side by side.
pub fn match_seeds<R: Fn(&ImagePyramid, Vec<ScanRequest>) -> CorrMatchResult<Vec<Vec<Peak>>>>(
    image: ImageView<'_, u8>,
    levels: &Vec<LevelPlan>,
    rotated: bool,
    cfg: &MatchConfig,
    parallel_available: bool,
    k: usize,
    run: R,
) -> (r: CorrMatchResult<Vec<Candidate>>)
    requires
        forall|pyramid: &ImagePyramid, reqs: Vec<ScanRequest>|
            pyramid@ == pyramid_levels(image@, cfg.max_image_levels as nat) && valid_requests(
                reqs@,
                pyramid@,
                levels@,
            ) ==> #[trigger] call_requires(run, (pyramid, reqs)),
    ensures
        cfg.fault(parallel_available) matches Some(e) ==> r == Err::<Vec<Candidate>, CorrMatchError>(
            e,
        ),
        cfg.fault(parallel_available) is None && k == 0 ==> r is Ok && r->Ok_0@.len() == 0,
        cfg.fault(parallel_available) is None && k > 0 ==> (search_fault(
            image@,
            levels@,
            rotated,
            *cfg,
        ) matches Some(e) ==> r == Err::<Vec<Candidate>, CorrMatchError>(e)),
        r is Ok && k > 0 ==> {
            &&& cfg.fault(parallel_available) is None
            &&& search_fault(image@, levels@, rotated, *cfg) is None
            &&& 1 <= r->Ok_0@.len() <= k
            &&& is_beam_of(r->Ok_0@, 0, levels@[0].angles@, cfg.nms_radius, cfg.beam_width)
            &&& seeds_outcome(run, image@, levels@, *cfg, k as int, r->Ok_0@)
        },
        r matches Err(e) ==> {
            ||| cfg.fault(parallel_available) == Some(e)
            ||| cfg.fault(parallel_available) is None && k > 0 && (search_fault(
                image@,
                levels@,
                rotated,
                *cfg,
            ) == Some(e) || failure_outcome(run, image@, levels@, *cfg, e))
        },
{
    match cfg.validate(parallel_available) {
        Ok(_) => {},
        Err(e) => {
            return Err(e);
        },
    }
    if k == 0 {
        return Ok(Vec::new());
    }
    let mut seeds = match_candidates(image, levels, rotated, cfg, run)?;
    let ghost all = seeds@;
    proof {
        lemma_seeds_outcome(run, image@, levels@, *cfg, k as int, all);
    }
    if seeds.len() > k {
        seeds.truncate(k);
        proof {
            lemma_beam_prefix(all, k as int, 0, levels@[0].angles@, cfg.nms_radius, cfg.beam_width);
            assert(seeds@ == all.take(k as int));
        }
    } else {
        proof {
            assert(all.take(all.len() as int) =~= all);
        }
    }
    Ok(seeds)
}

} // verus!
