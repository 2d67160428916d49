use corrmatch::error::CorrMatchError;
use corrmatch::lowlevel::scan_roi;
use corrmatch::lowlevel::Candidate;
use corrmatch::lowlevel::LevelPlan;
use corrmatch::lowlevel::Peak;
use corrmatch::lowlevel::ScanArea;
use corrmatch::lowlevel::ScanParams;
use corrmatch::lowlevel::ScanRequest;
use corrmatch::scalar::Scalar;
use corrmatch::search::coarse_requests;
use corrmatch::search::coarse_search_level;
use corrmatch::search::match_seeds;
use corrmatch::search::refine_to_finer_level;
use corrmatch::search::match_candidates;
use corrmatch::search::prune_peaks;
use corrmatch::search::refine_requests;
use corrmatch::search::resolve_candidates;
use corrmatch::search::roi_bounds;
use corrmatch::search::select_candidates;
use corrmatch::search::upscale_pos;
use corrmatch::bank::step_divisor;
use corrmatch::CompileConfig;
use corrmatch::CompileConfigNoRot;
use corrmatch::ImagePyramid;
use corrmatch::ImageView;
use corrmatch::MatchConfig;
use corrmatch::Metric;
use corrmatch::RotationMode;

fn score(v: f32) -> Scalar {
    Scalar::from_bits(v.to_bits())
}

fn value(s: Scalar) -> f32 {
    f32::from_bits(s.to_bits())
}

fn peak(x: usize, y: usize, s: f32, angle_idx: usize) -> Peak {
    Peak {
        x,
        y,
        score: score(s),
        angle_idx,
    }
}

fn invalid(reason: &'static str) -> CorrMatchError {
    CorrMatchError::InvalidConfig { reason }
}

#[test]
fn default_match_config_is_valid() {
    let cfg = MatchConfig::default();
    assert_eq!(cfg.metric, Metric::Zncc);
    assert_eq!(cfg.rotation, RotationMode::Disabled);
    assert!(!cfg.parallel);
    assert_eq!(cfg.max_image_levels, 6);
    assert_eq!(cfg.beam_width, 8);
    assert_eq!(cfg.per_angle_topk, 3);
    assert_eq!(cfg.nms_radius, 6);
    assert_eq!(cfg.roi_radius, 8);
    assert_eq!(cfg.angle_half_range_steps, 1);
    assert_eq!(value(cfg.min_var_i), 1e-8);
    assert_eq!(value(cfg.min_score), f32::NEG_INFINITY);
    assert_eq!(cfg.validate(false), Ok(()));
    assert_eq!(cfg.validate(true), Ok(()));
}

#[test]
fn match_config_rejects_each_bad_knob() {
    let base = MatchConfig::default();

    let cfg = MatchConfig { beam_width: 0, ..base };
    assert_eq!(cfg.validate(true), Err(invalid("beam_width must be at least 1")));

    let cfg = MatchConfig { per_angle_topk: 0, ..base };
    assert_eq!(cfg.validate(true), Err(invalid("per_angle_topk must be at least 1")));

    let cfg = MatchConfig { max_image_levels: 0, ..base };
    assert_eq!(cfg.validate(true), Err(invalid("max_image_levels must be at least 1")));

    for bad in [-1.0e-3f32, f32::INFINITY, f32::NEG_INFINITY, f32::NAN] {
        let cfg = MatchConfig { min_var_i: score(bad), ..base };
        assert_eq!(
            cfg.validate(true),
            Err(invalid("min_var_i must be a non-negative finite value"))
        );
    }
    for good in [0.0f32, -0.0, 1.0e-8, 3.0] {
        let cfg = MatchConfig { min_var_i: score(good), ..base };
        assert_eq!(cfg.validate(true), Ok(()));
    }

    for bad in [f32::INFINITY, f32::NAN] {
        let cfg = MatchConfig { min_score: score(bad), ..base };
        assert_eq!(
            cfg.validate(true),
            Err(invalid("min_score must be finite or NEG_INFINITY"))
        );
    }
    for good in [f32::NEG_INFINITY, -5.0, 0.0, 0.99] {
        let cfg = MatchConfig { min_score: score(good), ..base };
        assert_eq!(cfg.validate(true), Ok(()));
    }
}

#[test]
fn match_config_reports_the_first_fault() {
    let cfg = MatchConfig {
        beam_width: 0,
        per_angle_topk: 0,
        min_score: score(f32::NAN),
        parallel: true,
        ..MatchConfig::default()
    };
    assert_eq!(cfg.validate(false), Err(invalid("beam_width must be at least 1")));
}

#[test]
fn parallel_needs_an_embedding_that_offers_it() {
    let cfg = MatchConfig { parallel: true, ..MatchConfig::default() };
    assert_eq!(cfg.validate(false), Err(CorrMatchError::ParallelUnavailable));
    assert_eq!(cfg.validate(true), Ok(()));
    assert!(cfg.use_parallel(true));
    assert!(!cfg.use_parallel(false));
    assert!(!MatchConfig::default().use_parallel(true));
}

#[test]
fn default_compile_config_is_valid() {
    let cfg = CompileConfig::default();
    assert_eq!(cfg.max_levels, 6);
    assert_eq!(value(cfg.coarse_step_deg), 10.0);
    assert_eq!(value(cfg.min_step_deg), 0.5);
    assert_eq!(cfg.fill_value, 0);
    assert!(cfg.precompute_coarsest);
    assert_eq!(cfg.validate(), Ok(()));
    assert_eq!(CompileConfigNoRot::default().max_levels, 6);
}

#[test]
fn compile_config_rejects_each_bad_knob() {
    let base = CompileConfig::default();

    let cfg = CompileConfig { max_levels: 0, ..base };
    assert_eq!(cfg.validate(), Err(invalid("max_levels must be at least 1")));

    for bad in [0.0f32, -0.0, -10.0, f32::INFINITY, f32::NAN] {
        let cfg = CompileConfig { coarse_step_deg: score(bad), ..base };
        assert_eq!(
            cfg.validate(),
            Err(invalid("coarse_step_deg must be a positive finite value"))
        );
        let cfg = CompileConfig { min_step_deg: score(bad), ..base };
        assert_eq!(
            cfg.validate(),
            Err(invalid("min_step_deg must be a positive finite value"))
        );
    }

    let cfg = CompileConfig {
        coarse_step_deg: score(1.0),
        min_step_deg: score(1.5),
        ..base
    };
    assert_eq!(cfg.validate(), Err(invalid("min_step_deg must not exceed coarse_step_deg")));

    let cfg = CompileConfig {
        coarse_step_deg: score(30.0),
        min_step_deg: score(30.0),
        ..base
    };
    assert_eq!(cfg.validate(), Ok(()));
}

#[test]
fn upscaling_doubles_and_saturates() {
    assert_eq!(upscale_pos(0, 0), (0, 0));
    assert_eq!(upscale_pos(13, 20), (26, 40));
    assert_eq!(upscale_pos(usize::MAX / 2, usize::MAX / 2 + 1), (usize::MAX - 1, usize::MAX));
    assert_eq!(upscale_pos(usize::MAX, 1), (usize::MAX, 2));
}

#[test]
fn roi_is_the_square_around_cut_to_the_valid_range() {
    assert_eq!(roi_bounds(10, 20, 3, 100, 100), Some((7, 17, 13, 23)));
    assert_eq!(roi_bounds(1, 2, 3, 100, 100), Some((0, 0, 4, 5)));
    assert_eq!(roi_bounds(99, 98, 3, 100, 100), Some((96, 95, 100, 100)));
    assert_eq!(roi_bounds(5, 5, 0, 100, 100), Some((5, 5, 5, 5)));
    // The centre may lie outside as long as the square reaches in.
    assert_eq!(roi_bounds(103, 50, 3, 100, 100), Some((100, 47, 100, 53)));
    assert_eq!(roi_bounds(usize::MAX, 0, usize::MAX, 7, 9), Some((0, 0, 7, 9)));
}

#[test]
fn roi_wholly_outside_is_skipped() {
    assert_eq!(roi_bounds(104, 50, 3, 100, 100), None);
    assert_eq!(roi_bounds(50, 104, 3, 100, 100), None);
    assert_eq!(roi_bounds(1, 0, 0, 0, 0), None);
    assert_eq!(roi_bounds(0, 0, 0, 0, 0), Some((0, 0, 0, 0)));
}

#[test]
fn candidates_and_peaks_convert_both_ways() {
    let p = peak(3, 4, 0.5, 2);
    let c = Candidate::from_peak(1, score(45.0), p);
    assert_eq!(c.level, 1);
    assert_eq!((c.x, c.y, c.angle_idx), (3, 4, 2));
    assert_eq!(value(c.angle_deg), 45.0);
    assert_eq!(value(c.score), 0.5);
    assert_eq!(c.to_peak(), p);
}

#[test]
fn pruning_suppresses_then_cuts_to_the_beam() {
    let mut peaks = vec![
        peak(0, 0, 0.1, 0),
        peak(10, 0, 0.9, 0),
        peak(11, 0, 0.8, 0),
        peak(20, 0, 0.7, 0),
        peak(30, 0, 0.6, 0),
    ];
    let kept = prune_peaks(&mut peaks, 2, 2);
    assert_eq!(kept, vec![peak(10, 0, 0.9, 0), peak(20, 0, 0.7, 0)]);

    let mut peaks = vec![peak(0, 0, 0.1, 0), peak(10, 0, 0.9, 0)];
    let kept = prune_peaks(&mut peaks, 2, 8);
    assert_eq!(kept, vec![peak(10, 0, 0.9, 0), peak(0, 0, 0.1, 0)]);

    let mut peaks = vec![peak(0, 0, 0.1, 0)];
    assert!(prune_peaks(&mut peaks, 2, 0).is_empty());
}

#[test]
fn resolving_reads_the_angle_table() {
    let angles = [score(-180.0), score(-90.0), score(0.0), score(90.0)];
    let peaks = [peak(1, 2, 0.5, 3), peak(4, 5, 0.25, 0)];
    let cands = resolve_candidates(2, &angles, &peaks).unwrap();
    assert_eq!(cands.len(), 2);
    assert_eq!(cands[0].level, 2);
    assert_eq!(value(cands[0].angle_deg), 90.0);
    assert_eq!(cands[0].to_peak(), peaks[0]);
    assert_eq!(value(cands[1].angle_deg), -180.0);

    let bad = [peak(1, 2, 0.5, 1), peak(0, 0, 0.5, 4), peak(0, 0, 0.5, 9)];
    assert_eq!(
        resolve_candidates(2, &angles, &bad).err().unwrap(),
        CorrMatchError::IndexOutOfBounds {
            index: 4,
            len: 4,
            context: "angle_idx",
        }
    );
}

#[test]
fn selection_merges_all_lists_before_suppressing() {
    let angles = [score(0.0), score(90.0)];
    let lists = vec![
        vec![peak(10, 10, 0.8, 0), peak(40, 40, 0.3, 0)],
        vec![peak(11, 10, 0.9, 1), peak(40, 41, 0.4, 1), peak(70, 70, 0.1, 1)],
    ];
    let cands = select_candidates(&lists, 1, &angles, 2, 2).unwrap();
    assert_eq!(cands.len(), 2);
    assert_eq!(cands[0].to_peak(), peak(11, 10, 0.9, 1));
    assert_eq!(value(cands[0].angle_deg), 90.0);
    assert_eq!(cands[1].to_peak(), peak(40, 41, 0.4, 1));
    assert!(cands.iter().all(|c| c.level == 1));

    let none: Vec<Vec<Peak>> = vec![Vec::new()];
    assert!(select_candidates(&none, 0, &angles, 2, 2).unwrap().is_empty());
}

#[test]
fn selection_does_not_depend_on_the_order_of_the_lists() {
    let angles = [score(0.0), score(90.0), score(180.0)];
    let a = vec![peak(10, 10, 0.8, 0), peak(40, 40, 0.3, 0)];
    let b = vec![peak(11, 10, 0.8, 1), peak(40, 41, 0.3, 1)];
    let c = vec![peak(12, 10, 0.8, 2)];
    let one = select_candidates(&vec![a.clone(), b.clone(), c.clone()], 0, &angles, 1, 8).unwrap();
    let two = select_candidates(&vec![c, b, a], 0, &angles, 1, 8).unwrap();
    let peaks_one: Vec<Peak> = one.iter().map(|c| c.to_peak()).collect();
    let peaks_two: Vec<Peak> = two.iter().map(|c| c.to_peak()).collect();
    assert_eq!(peaks_one, peaks_two);
    assert_eq!(peaks_one, vec![peak(10, 10, 0.8, 0), peak(12, 10, 0.8, 2), peak(40, 40, 0.3, 0)]);
}

#[test]
fn coarse_level_asks_for_every_angle_in_full() {
    let reqs = coarse_requests(2, 3, 17, 9);
    assert_eq!(reqs.len(), 3);
    for (a, req) in reqs.iter().enumerate() {
        assert_eq!(
            *req,
            ScanRequest {
                level: 2,
                angle_idx: a,
                x0: 0,
                y0: 0,
                x1: 17,
                y1: 9,
            }
        );
    }
    assert!(coarse_requests(0, 0, 1, 1).is_empty());
}

#[test]
fn finer_level_asks_around_each_candidate() {
    let c = |x: usize, y: usize, angle_idx: usize| {
        Candidate::from_peak(1, score(0.0), peak(x, y, 0.5, angle_idx))
    };
    let neighbors = vec![vec![7, 0, 1], vec![1, 2, 3]];
    let prev = [c(5, 6, 1), c(1000, 6, 0), c(0, 20, 0)];
    let reqs = refine_requests(&prev, 0, &neighbors, 2, 50, 40).unwrap();
    // (5, 6) doubles to (10, 12); (1000, 6) lies outside and is skipped;
    // (0, 20) doubles to (0, 40).
    let expected: Vec<ScanRequest> = [1usize, 2, 3]
        .iter()
        .map(|&a| ScanRequest { level: 0, angle_idx: a, x0: 8, y0: 10, x1: 12, y1: 14 })
        .chain(
            [7usize, 0, 1]
                .iter()
                .map(|&a| ScanRequest { level: 0, angle_idx: a, x0: 0, y0: 38, x1: 2, y1: 40 }),
        )
        .collect();
    assert_eq!(reqs, expected);

    let unknown = [c(5, 6, 2)];
    assert_eq!(
        refine_requests(&unknown, 0, &neighbors, 2, 50, 40).err().unwrap(),
        CorrMatchError::IndexOutOfBounds {
            index: 2,
            len: 2,
            context: "angle_idx",
        }
    );
    // A candidate that is skipped is not looked up.
    let skipped = [c(1000, 6, 2)];
    assert!(refine_requests(&skipped, 0, &neighbors, 2, 50, 40).unwrap().is_empty());
}

fn make_template(width: usize, height: usize) -> Vec<u8> {
    let mut data = Vec::with_capacity(width * height);
    for y in 0..height {
        for x in 0..width {
            let value = ((x * 13) ^ (y * 7) ^ (x * y)) & 0xFF;
            data.push(value as u8);
        }
    }
    data
}

fn zncc_at(image: ImageView<'_, u8>, tpl: ImageView<'_, u8>, x: usize, y: usize) -> f32 {
    let (tw, th) = (tpl.width(), tpl.height());
    let n = (tw * th) as f32;
    let mut sum_t = 0.0f64;
    for ty in 0..th {
        for &t in tpl.row(ty).unwrap() {
            sum_t += t as f64;
        }
    }
    let mean = (sum_t / (tw * th) as f64) as f32;
    let mut var_t = 0.0f32;
    let mut dot = 0.0f32;
    let mut sum_i = 0.0f32;
    let mut sum_i2 = 0.0f32;
    for ty in 0..th {
        let row = image.row(y + ty).unwrap();
        let trow = tpl.row(ty).unwrap();
        for tx in 0..tw {
            let t = trow[tx] as f32 - mean;
            let v = row[x + tx] as f32;
            var_t += t * t;
            dot += t * v;
            sum_i += v;
            sum_i2 += v * v;
        }
    }
    let var_i = sum_i2 - sum_i * sum_i / n;
    if var_i <= 1e-8 {
        return f32::NEG_INFINITY;
    }
    let s = dot / (var_t * var_i).sqrt();
    if s.is_finite() {
        s
    } else {
        f32::NEG_INFINITY
    }
}

fn ssd_at(image: ImageView<'_, u8>, tpl: ImageView<'_, u8>, x: usize, y: usize) -> f32 {
    let mut sse = 0.0f32;
    for ty in 0..tpl.height() {
        let row = image.row(y + ty).unwrap();
        let trow = tpl.row(ty).unwrap();
        for tx in 0..tpl.width() {
            let d = row[x + tx] as f32 - trow[tx] as f32;
            sse += d * d;
        }
    }
    -sse
}

fn unrotated_levels(tpl: &ImagePyramid) -> Vec<LevelPlan> {
    tpl.levels()
        .iter()
        .map(|level| LevelPlan {
            tpl_width: level.width(),
            tpl_height: level.height(),
            angles: vec![score(0.0)],
            neighbors: vec![vec![0]],
        })
        .collect()
}

fn search(
    image: ImageView<'_, u8>,
    tpl: ImageView<'_, u8>,
    tpl_levels: usize,
    cfg: &MatchConfig,
    requested: &std::cell::RefCell<Vec<ScanRequest>>,
) -> Result<Vec<Candidate>, CorrMatchError> {
    let tpl_pyramid = ImagePyramid::build_u8(tpl, tpl_levels).unwrap();
    let levels = unrotated_levels(&tpl_pyramid);
    let params = ScanParams {
        topk: cfg.per_angle_topk,
        min_var_i: cfg.min_var_i,
        min_score: cfg.min_score,
    };
    let run = |pyramid: &ImagePyramid, reqs: Vec<ScanRequest>| {
        let mut lists = Vec::new();
        for req in reqs {
            requested.borrow_mut().push(req);
            let img = pyramid.level(req.level).unwrap();
            let t = tpl_pyramid.level(req.level).unwrap();
            let area = ScanArea {
                img_width: img.width(),
                img_height: img.height(),
                tpl_width: t.width(),
                tpl_height: t.height(),
            };
            let metric = cfg.metric;
            let at = |x: usize, y: usize| match metric {
                Metric::Zncc => score(zncc_at(img, t, x, y)),
                Metric::Ssd => score(ssd_at(img, t, x, y)),
            };
            lists.push(scan_roi(area, at, req.angle_idx, req.x0, req.y0, req.x1, req.y1, params)?);
        }
        Ok(lists)
    };
    match_candidates(image, &levels, false, cfg, run)
}

#[test]
fn beam_search_finds_a_stamped_template() {
    let (tw, th) = (32usize, 24usize);
    let tpl_data = make_template(tw, th);
    let (iw, ih) = (140usize, 110usize);
    let (x0, y0) = (21usize, 17usize);
    let mut image = vec![0u8; iw * ih];
    for y in 0..th {
        for x in 0..tw {
            image[(y0 + y) * iw + (x0 + x)] = tpl_data[y * tw + x];
        }
    }
    let image_view = ImageView::from_slice(&image, iw, ih).unwrap();
    let tpl_view = ImageView::from_slice(&tpl_data, tw, th).unwrap();
    let cfg = MatchConfig {
        max_image_levels: 3,
        beam_width: 5,
        per_angle_topk: 3,
        roi_radius: 6,
        nms_radius: 4,
        rotation: RotationMode::Disabled,
        ..MatchConfig::default()
    };
    let requested = std::cell::RefCell::new(Vec::new());
    let seeds = search(image_view, tpl_view, 3, &cfg, &requested).unwrap();

    assert!(!seeds.is_empty() && seeds.len() <= 5);
    let best = seeds[0];
    assert_eq!(best.level, 0);
    assert_eq!((best.x, best.y), (x0, y0));
    assert_eq!(best.angle_idx, 0);
    assert_eq!(value(best.angle_deg), 0.0);
    assert!(value(best.score) > 0.99);
    for i in 1..seeds.len() {
        assert!(value(seeds[i - 1].score) >= value(seeds[i].score));
        for j in 0..i {
            let dx = seeds[i].x.max(seeds[j].x) - seeds[i].x.min(seeds[j].x);
            let dy = seeds[i].y.max(seeds[j].y) - seeds[i].y.min(seeds[j].y);
            assert!(dx.max(dy) > 4);
        }
    }

    // The coarsest level is scanned in full, the finer ones around candidates.
    let reqs = requested.borrow();
    assert_eq!(
        reqs[0],
        ScanRequest {
            level: 2,
            angle_idx: 0,
            x0: 0,
            y0: 0,
            x1: 35 - 8,
            y1: 27 - 6,
        }
    );
    assert!(reqs[1..].iter().all(|r| r.level < 2 && r.x1 - r.x0 <= 12 && r.y1 - r.y0 <= 12));
    assert_eq!(reqs.last().unwrap().level, 0);
}

#[test]
fn beam_search_finds_a_patch_of_the_image() {
    let (iw, ih) = (64usize, 64usize);
    let mut image = Vec::with_capacity(iw * ih);
    for y in 0..ih {
        for x in 0..iw {
            let wave = 128.0
                + 60.0 * ((x as f32) * 0.37).sin()
                + 50.0 * ((y as f32) * 0.23 + (x as f32) * 0.11).cos()
                + 15.0 * (((x * y) % 17) as f32 / 17.0);
            image.push(wave.max(0.0).min(255.0) as u8);
        }
    }
    let (tw, th) = (16usize, 12usize);
    let (x0, y0) = (13usize, 20usize);
    let mut tpl_data = Vec::with_capacity(tw * th);
    for y in 0..th {
        for x in 0..tw {
            tpl_data.push(image[(y0 + y) * iw + (x0 + x)]);
        }
    }
    let image_view = ImageView::from_slice(&image, iw, ih).unwrap();
    let tpl_view = ImageView::from_slice(&tpl_data, tw, th).unwrap();
    let requested = std::cell::RefCell::new(Vec::new());

    let cfg = MatchConfig {
        max_image_levels: 3,
        beam_width: 5,
        roi_radius: 6,
        rotation: RotationMode::Disabled,
        ..MatchConfig::default()
    };
    let seeds = search(image_view, tpl_view, 3, &cfg, &requested).unwrap();
    let best = seeds[0];
    assert!(best.x.abs_diff(x0) <= 1 && best.y.abs_diff(y0) <= 1);
    assert!(value(best.score) > 0.99);

    let cfg = MatchConfig { metric: Metric::Ssd, ..cfg };
    let seeds = search(image_view, tpl_view, 3, &cfg, &requested).unwrap();
    let best = seeds[0];
    assert_eq!((best.x, best.y), (x0, y0));
    assert!(value(best.score) >= -1e-6);
}

#[test]
fn beam_search_on_one_level_is_the_coarse_scan() {
    let (tw, th) = (8usize, 6usize);
    let tpl_data = make_template(tw, th);
    let (iw, ih) = (20usize, 16usize);
    let mut image = vec![0u8; iw * ih];
    for y in 0..th {
        for x in 0..tw {
            image[(5 + y) * iw + (9 + x)] = tpl_data[y * tw + x];
        }
    }
    let image_view = ImageView::from_slice(&image, iw, ih).unwrap();
    let tpl_view = ImageView::from_slice(&tpl_data, tw, th).unwrap();
    let requested = std::cell::RefCell::new(Vec::new());
    let cfg = MatchConfig {
        max_image_levels: 1,
        rotation: RotationMode::Disabled,
        ..MatchConfig::default()
    };
    let seeds = search(image_view, tpl_view, 4, &cfg, &requested).unwrap();
    assert_eq!((seeds[0].x, seeds[0].y, seeds[0].level), (9, 5, 0));
    assert_eq!(requested.borrow().len(), 1);
}

#[test]
fn beam_search_reports_what_stops_it() {
    let tpl_data = make_template(8, 6);
    let tpl_view = ImageView::from_slice(&tpl_data, 8, 6).unwrap();
    let image = vec![0u8; 20 * 16];
    let image_view = ImageView::from_slice(&image, 20, 16).unwrap();
    let requested = std::cell::RefCell::new(Vec::new());

    // A flat image has no window of positive variance.
    let cfg = MatchConfig { rotation: RotationMode::Disabled, ..MatchConfig::default() };
    assert_eq!(
        search(image_view, tpl_view, 1, &cfg, &requested).err().unwrap(),
        CorrMatchError::NoCandidates { reason: "no coarse candidates" }
    );

    // Rotation asked of assets without rotated plans.
    let cfg = MatchConfig { rotation: RotationMode::Enabled, ..MatchConfig::default() };
    requested.borrow_mut().clear();
    assert_eq!(
        search(image_view, tpl_view, 1, &cfg, &requested).err().unwrap(),
        CorrMatchError::RotationUnavailable {
            reason: "rotation enabled but template compiled without angle banks",
        }
    );
    assert!(requested.borrow().is_empty());

    // A template larger than the image.
    let small = vec![0u8; 4 * 4];
    let small_view = ImageView::from_slice(&small, 4, 4).unwrap();
    let cfg = MatchConfig {
        rotation: RotationMode::Disabled,
        max_image_levels: 1,
        ..MatchConfig::default()
    };
    assert_eq!(
        search(small_view, tpl_view, 1, &cfg, &requested).err().unwrap(),
        CorrMatchError::RoiOutOfBounds {
            x: 0,
            y: 0,
            width: 8,
            height: 6,
            img_width: 4,
            img_height: 4,
        }
    );

    // No template level at all.
    let run = |_: &ImagePyramid, _: Vec<ScanRequest>| Ok(Vec::new());
    assert_eq!(
        match_candidates(image_view, &Vec::new(), false, &cfg, run).err().unwrap(),
        CorrMatchError::InvalidDimensions { width: 20, height: 16 }
    );
}

#[test]
fn beam_search_gives_up_when_refinement_finds_nothing() {
    let image = vec![0u8; 40 * 40];
    let image_view = ImageView::from_slice(&image, 40, 40).unwrap();
    let levels: Vec<LevelPlan> = (0..2)
        .map(|l| LevelPlan {
            tpl_width: 8 >> l,
            tpl_height: 8 >> l,
            angles: vec![score(0.0)],
            neighbors: vec![vec![0]],
        })
        .collect();
    let cfg = MatchConfig {
        rotation: RotationMode::Disabled,
        max_image_levels: 2,
        ..MatchConfig::default()
    };
    let run = |_: &ImagePyramid, reqs: Vec<ScanRequest>| {
        Ok(reqs
            .iter()
            .map(|r| if r.level == 1 { vec![peak(3, 3, 0.5, 0)] } else { Vec::new() })
            .collect())
    };
    assert_eq!(
        match_candidates(image_view, &levels, false, &cfg, run).err().unwrap(),
        CorrMatchError::NoCandidates { reason: "no candidates after refinement" }
    );

    // An error of a scan ends the search with that error.
    let failing = |_: &ImagePyramid, _: Vec<ScanRequest>| {
        Err(CorrMatchError::DegenerateTemplate { reason: "zero variance" })
    };
    assert_eq!(
        match_candidates(image_view, &levels, false, &cfg, failing).err().unwrap(),
        CorrMatchError::DegenerateTemplate { reason: "zero variance" }
    );
}

#[test]
fn beam_search_follows_angle_neighbours() {
    let image = vec![0u8; 40 * 40];
    let image_view = ImageView::from_slice(&image, 40, 40).unwrap();
    let levels = vec![
        LevelPlan {
            tpl_width: 8,
            tpl_height: 8,
            angles: vec![score(-180.0), score(-90.0), score(0.0), score(90.0)],
            neighbors: vec![vec![3, 0, 1], vec![1, 2, 3]],
        },
        LevelPlan {
            tpl_width: 4,
            tpl_height: 4,
            angles: vec![score(-180.0), score(0.0)],
            neighbors: Vec::new(),
        },
    ];
    let cfg = MatchConfig {
        rotation: RotationMode::Enabled,
        max_image_levels: 2,
        roi_radius: 1,
        nms_radius: 2,
        beam_width: 1,
        ..MatchConfig::default()
    };
    let seen = std::cell::RefCell::new(Vec::new());
    let run = |_: &ImagePyramid, reqs: Vec<ScanRequest>| {
        let lists = reqs
            .iter()
            .map(|r| {
                seen.borrow_mut().push(*r);
                if r.level == 1 {
                    // The second angle scores best at the coarse level.
                    vec![peak(5, 6, 0.4 + 0.1 * r.angle_idx as f32, r.angle_idx)]
                } else {
                    vec![peak(r.x0 + 1, r.y0 + 1, 0.1 * r.angle_idx as f32, r.angle_idx)]
                }
            })
            .collect();
        Ok(lists)
    };
    let seeds = match_candidates(image_view, &levels, true, &cfg, run).unwrap();
    assert_eq!(seeds.len(), 1);
    assert_eq!((seeds[0].x, seeds[0].y, seeds[0].angle_idx), (10, 12, 3));
    assert_eq!(value(seeds[0].angle_deg), 90.0);

    let seen = seen.borrow();
    assert_eq!(seen.len(), 2 + 3);
    assert_eq!((seen[0].level, seen[0].angle_idx, seen[0].x1, seen[0].y1), (1, 0, 16, 16));
    assert_eq!((seen[1].level, seen[1].angle_idx), (1, 1));
    for (req, angle) in seen[2..].iter().zip([1usize, 2, 3]) {
        assert_eq!(
            *req,
            ScanRequest {
                level: 0,
                angle_idx: angle,
                x0: 9,
                y0: 11,
                x1: 11,
                y1: 13,
            }
        );
    }
}

fn two_level_setup() -> (Vec<u8>, Vec<LevelPlan>) {
    let image = vec![0u8; 40 * 40];
    let levels = vec![
        LevelPlan {
            tpl_width: 8,
            tpl_height: 8,
            angles: vec![score(-90.0), score(0.0), score(90.0)],
            neighbors: vec![vec![0, 1], vec![1, 2]],
        },
        LevelPlan {
            tpl_width: 4,
            tpl_height: 4,
            angles: vec![score(-90.0), score(90.0)],
            neighbors: Vec::new(),
        },
    ];
    (image, levels)
}

#[test]
fn coarse_level_scans_every_angle_and_selects() {
    let (image, levels) = two_level_setup();
    let view = ImageView::from_slice(&image, 40, 40).unwrap();
    let pyramid = ImagePyramid::build_u8(view, 2).unwrap();
    let cfg = MatchConfig { nms_radius: 2, beam_width: 2, ..MatchConfig::default() };
    let asked = std::cell::RefCell::new(Vec::new());
    let run = |_: &ImagePyramid, reqs: Vec<ScanRequest>| {
        asked.borrow_mut().extend(reqs.iter().copied());
        Ok(reqs
            .iter()
            .map(|r| vec![peak(3 + 5 * r.angle_idx, 3, 0.5 + 0.1 * r.angle_idx as f32, r.angle_idx)])
            .collect())
    };
    let found = coarse_search_level(&pyramid, &levels, 1, &cfg, &run).unwrap();
    assert_eq!(asked.borrow().len(), 2);
    assert_eq!(asked.borrow()[1], ScanRequest { level: 1, angle_idx: 1, x0: 0, y0: 0, x1: 16, y1: 16 });
    assert_eq!(found.len(), 2);
    assert_eq!(found[0].to_peak(), peak(8, 3, 0.6, 1));
    assert_eq!(value(found[0].angle_deg), 90.0);
    assert_eq!(found[1].to_peak(), peak(3, 3, 0.5, 0));
    assert!(found.iter().all(|c| c.level == 1));

    assert_eq!(
        coarse_search_level(&pyramid, &levels, 2, &cfg, &run).err().unwrap(),
        CorrMatchError::IndexOutOfBounds { index: 2, len: 2, context: "level" }
    );
}

#[test]
fn finer_level_refines_candidates_or_does_nothing() {
    let (image, levels) = two_level_setup();
    let view = ImageView::from_slice(&image, 40, 40).unwrap();
    let pyramid = ImagePyramid::build_u8(view, 2).unwrap();
    let cfg = MatchConfig { nms_radius: 1, beam_width: 4, roi_radius: 2, ..MatchConfig::default() };
    let asked = std::cell::RefCell::new(Vec::new());
    let run = |_: &ImagePyramid, reqs: Vec<ScanRequest>| {
        asked.borrow_mut().extend(reqs.iter().copied());
        Ok(reqs.iter().map(|r| vec![peak(r.x0, r.y1, 0.25, r.angle_idx)]).collect())
    };
    let prev = [Candidate::from_peak(1, score(90.0), peak(5, 6, 0.9, 1))];
    let found = refine_to_finer_level(&pyramid, &levels, 0, &prev, &cfg, &run).unwrap();
    let expected: Vec<ScanRequest> = [1usize, 2]
        .iter()
        .map(|&a| ScanRequest { level: 0, angle_idx: a, x0: 8, y0: 10, x1: 12, y1: 14 })
        .collect();
    assert_eq!(*asked.borrow(), expected);
    // Both scans report the same placement with the same score: the smaller
    // angle index ranks first and suppresses the other.
    assert_eq!(found.len(), 1);
    assert_eq!(found[0].to_peak(), peak(8, 14, 0.25, 1));
    assert_eq!(value(found[0].angle_deg), 0.0);
    assert_eq!(found[0].level, 0);

    asked.borrow_mut().clear();
    let none = refine_to_finer_level(&pyramid, &levels, 0, &[], &cfg, &run).unwrap();
    assert!(none.is_empty());
    assert!(asked.borrow().is_empty());

    assert_eq!(
        refine_to_finer_level(&pyramid, &levels, 5, &prev, &cfg, &run).err().unwrap(),
        CorrMatchError::IndexOutOfBounds { index: 5, len: 2, context: "level" }
    );
}

#[test]
fn seeds_are_validated_searched_and_cut() {
    let (image, levels) = two_level_setup();
    let view = ImageView::from_slice(&image, 40, 40).unwrap();
    let run = |_: &ImagePyramid, reqs: Vec<ScanRequest>| {
        Ok(reqs
            .iter()
            .map(|r| {
                vec![
                    peak(r.x0, r.y0, 0.5, r.angle_idx),
                    peak(r.x1, r.y1, 0.4, r.angle_idx),
                ]
            })
            .collect())
    };
    let cfg = MatchConfig {
        rotation: RotationMode::Enabled,
        max_image_levels: 2,
        nms_radius: 1,
        roi_radius: 3,
        beam_width: 8,
        ..MatchConfig::default()
    };
    let all = match_seeds(view, &levels, true, &cfg, false, 10, run).unwrap();
    assert!(all.len() >= 2);
    let two = match_seeds(view, &levels, true, &cfg, false, 2, run).unwrap();
    assert_eq!(two.len(), 2);
    assert_eq!(two[0].to_peak(), all[0].to_peak());
    assert_eq!(two[1].to_peak(), all[1].to_peak());
    assert!(match_seeds(view, &levels, true, &cfg, false, 0, run).unwrap().is_empty());

    let bad = MatchConfig { beam_width: 0, ..cfg };
    assert_eq!(
        match_seeds(view, &levels, true, &bad, false, 1, run).err().unwrap(),
        invalid("beam_width must be at least 1")
    );
    // The configuration is checked before `k`.
    assert!(match_seeds(view, &levels, true, &bad, false, 0, run).is_err());
    let par = MatchConfig { parallel: true, ..cfg };
    assert_eq!(
        match_seeds(view, &levels, true, &par, false, 1, run).err().unwrap(),
        CorrMatchError::ParallelUnavailable
    );
    assert!(match_seeds(view, &levels, true, &par, true, 1, run).is_ok());
    assert_eq!(
        match_seeds(view, &levels, false, &cfg, false, 1, run).err().unwrap(),
        CorrMatchError::RotationUnavailable {
            reason: "rotation enabled but template compiled without angle banks",
        }
    );
}

#[test]
fn step_divisor_doubles_per_level_below_the_coarsest() {
    assert_eq!(step_divisor(2, 2), 1);
    assert_eq!(step_divisor(2, 1), 2);
    assert_eq!(step_divisor(2, 0), 4);
    assert_eq!(step_divisor(0, 0), 1);
    assert_eq!(step_divisor(0, 5), 1);
    assert_eq!(step_divisor(63, 0), 1u64 << 63);
    assert_eq!(step_divisor(64, 0), u64::MAX);
    assert_eq!(step_divisor(usize::MAX, 0), u64::MAX);
}

#[test]
fn angle_step_schedule_matches_expected() {
    let cfg = CompileConfig {
        max_levels: 3,
        coarse_step_deg: score(20.0),
        min_step_deg: score(1.0),
        fill_value: 0,
        precompute_coarsest: false,
    };
    assert_eq!(cfg.validate(), Ok(()));
    let coarsest = cfg.max_levels - 1;
    let step = |level: usize| {
        let divided = value(cfg.coarse_step_deg) / step_divisor(coarsest, level) as f32;
        divided.max(value(cfg.min_step_deg))
    };
    let step0 = step(0);
    let step1 = step(1);
    let step2 = step(2);

    assert!((step2 - 20.0).abs() < 1e-6);
    assert!((step1 - 10.0).abs() < 1e-6);
    assert!((step0 - 5.0).abs() < 1e-6);
}
