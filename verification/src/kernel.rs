//! Dense scans over template placements.
//!
//! A scan visits every placement of a window, row by row from the top and
//! from left to right in each row, asks the caller's scoring function for the
//! score of the placement, and keeps the best `topk` of the placements whose
//! score is finite and not below `min_score`. How a placement is scored
//! (which metric, which template plan) is the caller's part; the window, the
//! order of the visit, the filter and the selection are stated and proved
//! here.

use vstd::prelude::*;
use crate::candidate::topk::lemma_sorted_desc;
use crate::candidate::topk::lemma_top_k_incremental;
use crate::candidate::topk::top_k;
use crate::candidate::topk::Peak;
use crate::candidate::topk::TopK;
use crate::error::CorrMatchError;
use crate::error::CorrMatchResult;
use crate::scalar::Scalar;

verus! {

/// Scan configuration for kernel evaluations.
#[derive(Clone, Copy, Debug)]
pub struct ScanParams {
    /// Maximum number of peaks to retain.
    pub topk: usize,
    /// Minimum variance threshold for the image window (ZNCC only).
    pub min_var_i: Scalar,
    /// Minimum score threshold (discard below this value).
    pub min_score: Scalar,
}

/// Sizes of a search: the image and the template laid over it.
#[derive(Clone, Copy, Debug)]
pub struct ScanArea {
    pub img_width: usize,
    pub img_height: usize,
    pub tpl_width: usize,
    pub tpl_height: usize,
}

impl ScanArea {
    /// Whether the template fits into the image.
    pub open spec fn fits(self) -> bool {
        self.img_width >= self.tpl_width && self.img_height >= self.tpl_height
    }

    /// Largest valid `x` of a placement.
    pub open spec fn max_x(self) -> int {
        self.img_width - self.tpl_width
    }

    /// Largest valid `y` of a placement.
    pub open spec fn max_y(self) -> int {
        self.img_height - self.tpl_height
    }

    /// The error reported where the template does not fit.
    pub open spec fn misfit(self) -> CorrMatchError {
        CorrMatchError::RoiOutOfBounds {
            x: 0,
            y: 0,
            width: self.tpl_width,
            height: self.tpl_height,
            img_width: self.img_width,
            img_height: self.img_height,
        }
    }

    /// Whether `(x, y)` is a valid placement: the template laid there lies
    /// inside the image.
    pub open spec fn holds(self, x: int, y: int) -> bool {
        self.fits() && 0 <= x <= self.max_x() && 0 <= y <= self.max_y()
    }

    /// Whether `(x, y)` is a valid placement.
    pub fn is_placement(&self, x: usize, y: usize) -> (b: bool)
        ensures
            b == self.holds(x as int, y as int),
    {
        self.img_width >= self.tpl_width && self.img_height >= self.tpl_height && x
            <= self.img_width - self.tpl_width && y <= self.img_height - self.tpl_height
    }

    /// Largest valid placement `(max_x, max_y)`, or the error where the
    /// template does not fit into the image.
    pub fn limits(&self) -> (r: CorrMatchResult<(usize, usize)>)
        ensures
            match r {
                Ok((max_x, max_y)) => self.fits() && max_x == self.max_x() && max_y
                    == self.max_y(),
                Err(e) => !self.fits() && e == self.misfit(),
            },
    {
        if self.img_width < self.tpl_width || self.img_height < self.tpl_height {
            return Err(
                CorrMatchError::RoiOutOfBounds {
                    x: 0,
                    y: 0,
                    width: self.tpl_width,
                    height: self.tpl_height,
                    img_width: self.img_width,
                    img_height: self.img_height,
                },
            );
        }
        Ok((self.img_width - self.tpl_width, self.img_height - self.tpl_height))
    }
}

/// A non-empty rectangle of placements, corners included.
pub struct Window {
    pub x0: int,
    pub y0: int,
    pub x1: int,
    pub y1: int,
}

impl Window {
    /// Placements per row.
    pub open spec fn width(self) -> int {
        self.x1 - self.x0 + 1
    }

    /// Rows of placements.
    pub open spec fn height(self) -> int {
        self.y1 - self.y0 + 1
    }

    /// Whether `(x, y)` is a placement of the window.
    pub open spec fn contains(self, x: int, y: int) -> bool {
        self.x0 <= x <= self.x1 && self.y0 <= y <= self.y1
    }
}

/// The placements that a scan of `[x0, x1] x [y0, y1]` visits: the part of
/// the rectangle in which the template lies inside the image. `None` where
/// that part is empty.
pub open spec fn scan_window(area: ScanArea, x0: int, y0: int, x1: int, y1: int) -> Option<
    Window,
> {
    let cx1 = if x1 < area.max_x() {
        x1
    } else {
        area.max_x()
    };
    let cy1 = if y1 < area.max_y() {
        y1
    } else {
        area.max_y()
    };
    if !area.fits() || x0 > cx1 || y0 > cy1 {
        None
    } else {
        Some(Window { x0, y0, x1: cx1, y1: cy1 })
    }
}

/// Whether a placement with this score is reported: the score is finite
/// and not below the threshold.
pub open spec fn admits(min_score: Scalar, score: Scalar) -> bool {
    score.is_finite() && score.ge(min_score)
}

/// The reported placements of one row: `scores[c]` is the score at `(x0 + c, y)`.
pub open spec fn row_peaks(
    scores: Seq<Scalar>,
    x0: int,
    y: int,
    angle_idx: usize,
    min_score: Scalar,
) -> Seq<Peak>
    decreases scores.len(),
{
    if scores.len() == 0 {
        Seq::empty()
    } else {
        let before = row_peaks(scores.drop_last(), x0, y, angle_idx, min_score);
        if admits(min_score, scores.last()) {
            before.push(
                Peak {
                    x: (x0 + scores.len() - 1) as usize,
                    y: y as usize,
                    score: scores.last(),
                    angle_idx,
                },
            )
        } else {
            before
        }
    }
}

/// The reported placements of a table of scores, row after row:
/// `table[r][c]` is the score at `(x0 + c, y0 + r)`.
pub open spec fn table_peaks(
    table: Seq<Seq<Scalar>>,
    x0: int,
    y0: int,
    angle_idx: usize,
    min_score: Scalar,
) -> Seq<Peak>
    decreases table.len(),
{
    if table.len() == 0 {
        Seq::empty()
    } else {
        table_peaks(table.drop_last(), x0, y0, angle_idx, min_score) + row_peaks(
            table.last(),
            x0,
            y0 + table.len() - 1,
            angle_idx,
            min_score,
        )
    }
}

/// Whether `scores` holds, for each placement `(x0 + c, y)` of a row of
/// `width` placements, a score that the scoring function gave for it.
pub open spec fn row_observed<F: Fn(usize, usize) -> Scalar>(
    score: F,
    scores: Seq<Scalar>,
    x0: int,
    y: int,
    width: int,
) -> bool {
    &&& scores.len() == width
    &&& forall|c: int|
        0 <= c < width ==> call_ensures(score, ((x0 + c) as usize, y as usize), #[trigger] scores[c])
}

/// Whether `table` holds, for each placement of the window, a score that the
/// scoring function gave for it.
pub open spec fn observed<F: Fn(usize, usize) -> Scalar>(
    score: F,
    win: Window,
    table: Seq<Seq<Scalar>>,
) -> bool {
    &&& table.len() == win.height()
    &&& forall|r: int|
        0 <= r < win.height() ==> row_observed(score, #[trigger] table[r], win.x0, win.y0 + r, win.width())
}

/// What a scan returns for a table of scores: the best `topk` of the reported placements.
pub open spec fn scan_result(
    table: Seq<Seq<Scalar>>,
    win: Window,
    angle_idx: usize,
    params: ScanParams,
) -> Seq<Peak> {
    top_k(table_peaks(table, win.x0, win.y0, angle_idx, params.min_score), params.topk as nat)
}

/// Scans the placements `[x0, x1] x [y0, y1]`, as far as they are valid, and
/// returns the best `topk` of the reported ones, best first.
///
/// Nothing is scanned where `topk` is 0. A template that does not fit into the
/// image is an error. A rectangle without a valid placement gives no peaks.
pub fn scan_range<F: Fn(usize, usize) -> Scalar>(
    area: ScanArea,
    score: F,
    angle_idx: usize,
    x0: usize,
    y0: usize,
    x1: usize,
    y1: usize,
    params: ScanParams,
) -> (r: CorrMatchResult<Vec<Peak>>)
    requires
        forall|x: usize, y: usize|
            scan_window(area, x0 as int, y0 as int, x1 as int, y1 as int) matches Some(win)
                && win.contains(x as int, y as int) ==> #[trigger] call_requires(score, (x, y)),
    ensures
        match r {
            Err(e) => params.topk > 0 && !area.fits() && e == area.misfit(),
            Ok(peaks) => (params.topk == 0 || area.fits()) && {
                let found = scan_window(area, x0 as int, y0 as int, x1 as int, y1 as int);
                if params.topk > 0 && found is Some {
                    exists|table: Seq<Seq<Scalar>>|
                        observed(score, found->Some_0, table) && peaks@ == scan_result(
                            table,
                            found->Some_0,
                            angle_idx,
                            params,
                        )
                } else {
                    peaks@ == Seq::<Peak>::empty()
                }
            },
        },
{
    if params.topk == 0 {
        return Ok(Vec::new());
    }
    let (max_x, max_y) = match area.limits() {
        Ok(limits) => limits,
        Err(e) => {
            return Err(e);
        },
    };
    if x0 > max_x || y0 > max_y {
        return Ok(Vec::new());
    }
    let cx1 = if x1 < max_x {
        x1
    } else {
        max_x
    };
    let cy1 = if y1 < max_y {
        y1
    } else {
        max_y
    };
    if x0 > cx1 || y0 > cy1 {
        return Ok(Vec::new());
    }
    let ghost win = Window { x0: x0 as int, y0: y0 as int, x1: cx1 as int, y1: cy1 as int };
    proof {
        assert(scan_window(area, x0 as int, y0 as int, x1 as int, y1 as int) == Some(win));
    }
    let mut best = TopK::new(params.topk);
    let ghost mut table: Seq<Seq<Scalar>> = Seq::empty();
    proof {
        lemma_sorted_desc(Seq::<Peak>::empty());
        assert(top_k(Seq::<Peak>::empty(), params.topk as nat) =~= Seq::<Peak>::empty());
    }
    let mut y = y0;
    loop
        invariant_except_break
            table.len() == y - y0,
        invariant
            y0 <= y <= cy1,
            x0 <= cx1,
            win == (Window { x0: x0 as int, y0: y0 as int, x1: cx1 as int, y1: cy1 as int }),
            forall|px: usize, py: usize|
                win.contains(px as int, py as int) ==> #[trigger] call_requires(score, (px, py)),
            best.capacity() == params.topk,
            forall|r: int|
                0 <= r < table.len() ==> row_observed(
                    score,
                    #[trigger] table[r],
                    win.x0,
                    win.y0 + r,
                    win.width(),
                ),
            best.kept() == top_k(
                table_peaks(table, win.x0, win.y0, angle_idx, params.min_score),
                params.topk as nat,
            ),
        ensures
            table.len() == win.height(),
            observed(score, win, table),
            best.kept() == scan_result(table, win, angle_idx, params),
        decreases cy1 - y,
    {
        let ghost done = table_peaks(table, win.x0, win.y0, angle_idx, params.min_score);
        let ghost mut row: Seq<Scalar> = Seq::empty();
        let mut x = x0;
        proof {
            assert(done + row_peaks(row, win.x0, y as int, angle_idx, params.min_score) =~= done);
        }
        loop
            invariant_except_break
                row.len() == x - x0,
            invariant
                x0 <= x <= cx1,
                y0 <= y <= cy1,
                win == (Window { x0: x0 as int, y0: y0 as int, x1: cx1 as int, y1: cy1 as int }),
                forall|px: usize, py: usize|
                    win.contains(px as int, py as int) ==> #[trigger] call_requires(score, (px, py)),
                    best.capacity() == params.topk,
                forall|c: int|
                    0 <= c < row.len() ==> call_ensures(
                        score,
                        ((x0 + c) as usize, y),
                        #[trigger] row[c],
                    ),
                best.kept() == top_k(
                    done + row_peaks(row, win.x0, y as int, angle_idx, params.min_score),
                    params.topk as nat,
                ),
            ensures
                row.len() == win.width(),
            decreases cx1 - x,
        {
            let value = score(x, y);
            let ghost seen = row_peaks(row, win.x0, y as int, angle_idx, params.min_score);
            proof {
                assert(row.push(value).drop_last() =~= row);
            }
            if value.check_finite() && value.greater_eq(params.min_score) {
                let peak = Peak { x, y, score: value, angle_idx };
                best.push(peak);
                proof {
                    lemma_top_k_incremental(done + seen, peak, params.topk as nat);
                    assert((done + seen).push(peak) =~= done + seen.push(peak));
                }
            }
            proof {
                row = row.push(value);
            }
            if x == cx1 {
                break ;
            }
            x += 1;
        }
        proof {
            let grown = table.push(row);
            assert(grown.drop_last() =~= table);
            table = grown;
        }
        if y == cy1 {
            break ;
        }
        y += 1;
    }
    let peaks = best.into_sorted_desc();
    proof {
        let found = scan_window(area, x0 as int, y0 as int, x1 as int, y1 as int);
        assert(found == Some(win));
        assert(observed(score, found->Some_0, table) && peaks@ == scan_result(
            table,
            found->Some_0,
            angle_idx,
            params,
        ));
    }
    Ok(peaks)
}

/// Whether the scoring function gives one score only for each placement.
pub open spec fn single_valued<F: Fn(usize, usize) -> Scalar>(score: F) -> bool {
    forall|x: usize, y: usize, a: Scalar, b: Scalar|
        #[trigger] call_ensures(score, (x, y), a) && #[trigger] call_ensures(score, (x, y), b) ==> a
            == b
}

/// With a scoring function that gives one score only for each placement, a
/// scan has one outcome only.
pub proof fn lemma_scan_is_determined<F: Fn(usize, usize) -> Scalar>(
    score: F,
    win: Window,
    first: Seq<Seq<Scalar>>,
    second: Seq<Seq<Scalar>>,
    angle_idx: usize,
    params: ScanParams,
)
    requires
        single_valued(score),
        observed(score, win, first),
        observed(score, win, second),
    ensures
        first == second,
        scan_result(first, win, angle_idx, params) == scan_result(second, win, angle_idx, params),
{
    assert forall|r: int| 0 <= r < first.len() implies first[r] == second[r] by {
        assert(row_observed(score, first[r], win.x0, win.y0 + r, win.width()));
        assert(row_observed(score, second[r], win.x0, win.y0 + r, win.width()));
        assert forall|c: int| 0 <= c < first[r].len() implies first[r][c] == second[r][c] by {
            assert(call_ensures(
                score,
                ((win.x0 + c) as usize, (win.y0 + r) as usize),
                first[r][c],
            ));
            assert(call_ensures(
                score,
                ((win.x0 + c) as usize, (win.y0 + r) as usize),
                second[r][c],
            ));
        }
        assert(first[r] =~= second[r]);
    }
    assert(first =~= second);
}

/// The window of all valid placements.
pub open spec fn full_window(area: ScanArea) -> Window {
    Window { x0: 0, y0: 0, x1: area.max_x(), y1: area.max_y() }
}

/// Scans the full valid placement range and returns top-K peaks.
///
/// A template that does not fit into the image is an error, whatever `topk` is.
pub fn scan_full<F: Fn(usize, usize) -> Scalar>(
    area: ScanArea,
    score: F,
    angle_idx: usize,
    params: ScanParams,
) -> (r: CorrMatchResult<Vec<Peak>>)
    requires
        forall|x: usize, y: usize|
            area.fits() && full_window(area).contains(x as int, y as int) ==> #[trigger] call_requires(
                score,
                (x, y),
            ),
    ensures
        match r {
            Err(e) => !area.fits() && e == area.misfit(),
            Ok(peaks) => area.fits() && if params.topk > 0 {
                exists|table: Seq<Seq<Scalar>>|
                    observed(score, full_window(area), table) && peaks@ == scan_result(
                        table,
                        full_window(area),
                        angle_idx,
                        params,
                    )
            } else {
                peaks@ == Seq::<Peak>::empty()
            },
        },
{
    let (max_x, max_y) = match area.limits() {
        Ok(limits) => limits,
        Err(e) => {
            return Err(e);
        },
    };
    proof {
        assert(scan_window(area, 0, 0, max_x as int, max_y as int) == Some(full_window(area)));
    }
    scan_range(area, score, angle_idx, 0, 0, max_x, max_y, params)
}

/// Scans an ROI of placement coordinates and returns top-K peaks.
pub fn scan_roi<F: Fn(usize, usize) -> Scalar>(
    area: ScanArea,
    score: F,
    angle_idx: usize,
    x0: usize,
    y0: usize,
    x1: usize,
    y1: usize,
    params: ScanParams,
) -> (r: CorrMatchResult<Vec<Peak>>)
    requires
        forall|x: usize, y: usize|
            scan_window(area, x0 as int, y0 as int, x1 as int, y1 as int) matches Some(win)
                && win.contains(x as int, y as int) ==> #[trigger] call_requires(score, (x, y)),
    ensures
        match r {
            Err(e) => params.topk > 0 && !area.fits() && e == area.misfit(),
            Ok(peaks) => (params.topk == 0 || area.fits()) && {
                let found = scan_window(area, x0 as int, y0 as int, x1 as int, y1 as int);
                if params.topk > 0 && found is Some {
                    exists|table: Seq<Seq<Scalar>>|
                        observed(score, found->Some_0, table) && peaks@ == scan_result(
                            table,
                            found->Some_0,
                            angle_idx,
                            params,
                        )
                } else {
                    peaks@ == Seq::<Peak>::empty()
                }
            },
        },
{
    scan_range(area, score, angle_idx, x0, y0, x1, y1, params)
}

/// Scans the placements `(x0, y)` to `(x1, y)` of one row and returns the
/// reported ones from left to right, unranked and uncut. Nothing is scanned
/// where `x0 > x1`.
pub fn scan_row<F: Fn(usize, usize) -> Scalar>(
    score: F,
    y: usize,
    x0: usize,
    x1: usize,
    angle_idx: usize,
    min_score: Scalar,
) -> (peaks: Vec<Peak>)
    requires
        forall|x: usize| x0 <= x <= x1 ==> #[trigger] call_requires(score, (x, y)),
    ensures
        x0 > x1 ==> peaks@ == Seq::<Peak>::empty(),
        x0 <= x1 ==> exists|scores: Seq<Scalar>|
            row_observed(score, scores, x0 as int, y as int, x1 - x0 + 1) && peaks@ == row_peaks(
                scores,
                x0 as int,
                y as int,
                angle_idx,
                min_score,
            ),
{
    let mut peaks: Vec<Peak> = Vec::new();
    if x0 > x1 {
        return peaks;
    }
    let ghost mut row: Seq<Scalar> = Seq::empty();
    let mut x = x0;
    loop
        invariant_except_break
            row.len() == x - x0,
        invariant
            x0 <= x <= x1,
            forall|px: usize| x0 <= px <= x1 ==> #[trigger] call_requires(score, (px, y)),
            forall|c: int|
                0 <= c < row.len() ==> call_ensures(score, ((x0 + c) as usize, y), #[trigger] row[c]),
            peaks@ == row_peaks(row, x0 as int, y as int, angle_idx, min_score),
        ensures
            row.len() == x1 - x0 + 1,
        decreases x1 - x,
    {
        let value = score(x, y);
        proof {
            assert(row.push(value).drop_last() =~= row);
        }
        if value.check_finite() && value.greater_eq(min_score) {
            peaks.push(Peak { x, y, score: value, angle_idx });
        }
        proof {
            row = row.push(value);
        }
        if x == x1 {
            break ;
        }
        x += 1;
    }
    proof {
        assert(row_observed(score, row, x0 as int, y as int, x1 - x0 + 1));
    }
    peaks
}

/// The lists of `rows` one after the other.
pub open spec fn concat_rows(rows: Seq<Seq<Peak>>) -> Seq<Peak>
    decreases rows.len(),
{
    if rows.len() == 0 {
        Seq::empty()
    } else {
        concat_rows(rows.drop_last()) + rows.last()
    }
}

/// The lists held by a vector of vectors.
pub open spec fn row_lists(rows: Seq<Vec<Peak>>) -> Seq<Seq<Peak>> {
    Seq::new(rows.len(), |i: int| rows[i]@)
}

/// Merges per-row lists of reported placements into the best `topk`, best first.
pub fn merge_row_peaks(rows: &Vec<Vec<Peak>>, topk: usize) -> (peaks: Vec<Peak>)
    ensures
        peaks@ == top_k(concat_rows(row_lists(rows@)), topk as nat),
{
    let mut best = TopK::new(topk);
    proof {
        lemma_sorted_desc(Seq::<Peak>::empty());
        assert(top_k(Seq::<Peak>::empty(), topk as nat) =~= Seq::<Peak>::empty());
        assert(row_lists(rows@).take(0) =~= Seq::<Seq<Peak>>::empty());
    }
    let mut i: usize = 0;
    while i < rows.len()
        invariant
            i <= rows@.len(),
            best.capacity() == topk,
            best.kept() == top_k(concat_rows(row_lists(rows@).take(i as int)), topk as nat),
        decreases rows@.len() - i,
    {
        let row = &rows[i];
        let ghost done = concat_rows(row_lists(rows@).take(i as int));
        let mut j: usize = 0;
        proof {
            assert(done + row@.take(0) =~= done);
        }
        while j < row.len()
            invariant
                j <= row@.len(),
                    best.capacity() == topk,
                best.kept() == top_k(done + row@.take(j as int), topk as nat),
            decreases row@.len() - j,
        {
            let peak = row[j];
            best.push(peak);
            proof {
                lemma_top_k_incremental(done + row@.take(j as int), peak, topk as nat);
                assert((done + row@.take(j as int)).push(peak) =~= done + row@.take(j + 1));
            }
            j += 1;
        }
        proof {
            let lists = row_lists(rows@);
            assert(row@.take(row@.len() as int) =~= row@);
            assert(lists.take(i + 1).drop_last() =~= lists.take(i as int));
            assert(lists.take(i + 1).last() == row@);
        }
        i += 1;
    }
    proof {
        assert(row_lists(rows@).take(rows@.len() as int) =~= row_lists(rows@));
    }
    best.into_sorted_desc()
}

/// The lists that scanning row by row gives for a table of scores.
pub open spec fn table_rows(
    table: Seq<Seq<Scalar>>,
    x0: int,
    y0: int,
    angle_idx: usize,
    min_score: Scalar,
) -> Seq<Seq<Peak>> {
    Seq::new(table.len(), |r: int| row_peaks(table[r], x0, y0 + r, angle_idx, min_score))
}

/// Scanning the rows apart and merging their lists gives what one scan of
/// the whole window gives, peak for peak and in the same order.
pub proof fn lemma_rows_merge_to_scan(
    table: Seq<Seq<Scalar>>,
    win: Window,
    angle_idx: usize,
    params: ScanParams,
)
    ensures
        top_k(
            concat_rows(table_rows(table, win.x0, win.y0, angle_idx, params.min_score)),
            params.topk as nat,
        ) == scan_result(table, win, angle_idx, params),
{
    lemma_concat_table_rows(table, win.x0, win.y0, angle_idx, params.min_score);
}

/// The lists of the rows, one after the other, are the reported placements of the table.
pub proof fn lemma_concat_table_rows(
    table: Seq<Seq<Scalar>>,
    x0: int,
    y0: int,
    angle_idx: usize,
    min_score: Scalar,
)
    ensures
        concat_rows(table_rows(table, x0, y0, angle_idx, min_score)) == table_peaks(
            table,
            x0,
            y0,
            angle_idx,
            min_score,
        ),
    decreases table.len(),
{
    if table.len() > 0 {
        let rows = table_rows(table, x0, y0, angle_idx, min_score);
        lemma_concat_table_rows(table.drop_last(), x0, y0, angle_idx, min_score);
        assert(rows.drop_last() =~= table_rows(table.drop_last(), x0, y0, angle_idx, min_score));
    }
}

} // verus!
