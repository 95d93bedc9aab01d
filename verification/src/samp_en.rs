//! Template-match counting for the correlation-sum (NCM) sample-entropy
//! estimator.
//!
//! The estimator compares every pair of template windows of a signal under
//! the maximum norm.  All the arithmetic it needs from the signal is
//! captured by one triangular boolean matrix: row `i`, column `j` says
//! whether the two samples at distance `j + 1`, namely `signal[i]` and
//! `signal[i + j + 1]`, lie within the comparison radius of each other.
//! Two windows of length `e + 1` starting at `i` and `i + j + 1` then match
//! exactly when the whole column segment `close[i..=i+e][j]` is true — the
//! column-wise maximum of the difference matrix stays within the radius —
//! and the correlation sum at embedding order `e` is the match count scaled
//! by `2 / ((N - e) * (N - 1 - e))`.  This module counts the matches for
//! every order up to `m` over the shared matrix; building the matrix from
//! the signal and scaling the counts are one comparison and one division
//! per entry, left to the caller.

use vstd::prelude::*;

verus! {

/// The rows of the boolean closeness matrix as mathematical sequences.
pub open spec fn grid_view(close: Seq<Vec<bool>>) -> Seq<Seq<bool>> {
    Seq::new(close.len(), |i: int| close[i]@)
}

/// Triangular shape: for a signal of `N` samples the matrix has `N - 1`
/// rows and row `i` has one column per partner `i + j + 1 <= N - 1`.
pub open spec fn tri_wf(grid: Seq<Seq<bool>>) -> bool {
    forall|i: int| 0 <= i < grid.len() ==> (#[trigger] grid[i]).len() == grid.len() - i
}

/// The length-`(e + 1)` windows starting at `i` and `i + j + 1` match: every
/// samplewise distance along them stays within the radius.
pub open spec fn window_match(grid: Seq<Seq<bool>>, e: int, i: int, j: int) -> bool {
    forall|k: int| 0 <= k <= e ==> (#[trigger] grid[i + k])[j]
}

/// Matches of the window at row `i` against partners `j < j_bound`.
pub open spec fn row_match_count(grid: Seq<Seq<bool>>, e: int, i: int, j_bound: int) -> nat
    decreases j_bound,
{
    if j_bound <= 0 {
        0
    } else {
        row_match_count(grid, e, i, j_bound - 1) + if window_match(grid, e, i, j_bound - 1) {
            1nat
        } else {
            0nat
        }
    }
}

/// Matches at order `e` over the starting rows `i < i_bound`, each row
/// paired with every partner its columns reach.
pub open spec fn match_count_upto(grid: Seq<Seq<bool>>, e: int, i_bound: int) -> nat
    decreases i_bound,
{
    if i_bound <= 0 {
        0
    } else {
        match_count_upto(grid, e, i_bound - 1) + row_match_count(
            grid,
            e,
            i_bound - 1,
            grid.len() - (i_bound - 1) - e,
        )
    }
}

/// All template matches at embedding order `e`: every starting row with a
/// full window of `e + 1` rows, against every partner window.
pub open spec fn match_count(grid: Seq<Seq<bool>>, e: int) -> nat {
    match_count_upto(grid, e, grid.len() - e)
}

/// Whether one whole window column is within the radius.
fn window_all(close: &Vec<Vec<bool>>, e: usize, i: usize, j: usize) -> (r: bool)
    requires
        tri_wf(grid_view(close@)),
        i + e < close@.len(),
        i + j + e < close@.len(),
    ensures
        r == window_match(grid_view(close@), e as int, i as int, j as int),
{
    let ghost grid = grid_view(close@);
    let rows = close.len();
    let mut k: usize = 0;
    while k <= e
        invariant
            k <= e + 1,
            rows == close@.len(),
            i + e < close@.len(),
            i + j + e < close@.len(),
            tri_wf(grid),
            grid == grid_view(close@),
            forall|kk: int| 0 <= kk < k ==> (#[trigger] grid[i + kk])[j as int],
        decreases e + 1 - k,
    {
        assert(grid[i + k as int] == close@[i + k as int]@);
        assert(grid[i + k as int].len() == grid.len() - (i + k));
        if !close[i + k][j] {
            assert(!(grid[i + k as int])[j as int]);
            return false;
        }
        k = k + 1;
    }
    true
}

/// Counts the template matches of the closeness matrix for every embedding
/// order `0 ..= m`.  Entry `e` of the result is the number of window pairs
/// of length `e + 1` that match under the maximum norm; the correlation sum
/// at order `e` is that count scaled by `2 / ((N - e) * (N - 1 - e))`.
pub fn ncm_match_counts(close: &Vec<Vec<bool>>, m: usize) -> (counts: Vec<usize>)
    requires
        tri_wf(grid_view(close@)),
        m < usize::MAX,
        close@.len() * close@.len() <= usize::MAX,
    ensures
        counts@.len() == m + 1,
        forall|e: int| 0 <= e <= m ==> counts@[e] == match_count(grid_view(close@), e),
{
    let ghost grid = grid_view(close@);
    let rows = close.len();
    let mut counts: Vec<usize> = Vec::new();
    let mut e: usize = 0;
    while e <= m
        invariant
            e <= m + 1,
            m < usize::MAX,
            counts@.len() == e,
            forall|ee: int| 0 <= ee < e ==> counts@[ee] == match_count(grid, ee),
            rows == grid.len(),
            rows == close@.len(),
            tri_wf(grid),
            grid == grid_view(close@),
            rows * rows <= usize::MAX,
        decreases m + 1 - e,
    {
        let mut total: usize = 0;
        if e < rows {
            let i_bound = rows - e;
            let mut i: usize = 0;
            while i < i_bound
                invariant
                    i <= i_bound,
                    i_bound == rows - e,
                    e < rows,
                    total == match_count_upto(grid, e as int, i as int),
                    total <= i * rows,
                    rows == grid.len(),
                    rows == close@.len(),
                    tri_wf(grid),
                    grid == grid_view(close@),
                    rows * rows <= usize::MAX,
                decreases i_bound - i,
            {
                let j_bound = rows - i - e;
                let mut j: usize = 0;
                while j < j_bound
                    invariant
                        j <= j_bound,
                        j_bound == rows - i - e,
                        i < i_bound,
                        i_bound == rows - e,
                        e < rows,
                        total == match_count_upto(grid, e as int, i as int) + row_match_count(
                            grid,
                            e as int,
                            i as int,
                            j as int,
                        ),
                        total <= i * rows + j,
                        rows == grid.len(),
                        rows == close@.len(),
                        tri_wf(grid),
                        grid == grid_view(close@),
                        rows * rows <= usize::MAX,
                    decreases j_bound - j,
                {
                    if window_all(close, e, i, j) {
                        assert(i * rows + j + 1 <= rows * rows) by (nonlinear_arith)
                            requires
                                0 <= i,
                                0 <= j,
                                i + 1 <= rows,
                                j + 1 <= rows,
                        ;
                        total = total + 1;
                    }
                    j = j + 1;
                }
                i = i + 1;
                assert(i * rows == (i - 1) * rows + rows) by (nonlinear_arith);
            }
        } else {
            assert(match_count(grid, e as int) == 0);
        }
        counts.push(total);
        e = e + 1;
    }
    counts
}

/// Every entry of the matrix is true: every pair of samples lies within the
/// radius, as on a constant signal with a nonnegative radius.
pub open spec fn all_close(grid: Seq<Seq<bool>>) -> bool {
    forall|i: int, j: int|
        0 <= i < grid.len() && 0 <= j < grid[i].len() ==> (#[trigger] grid[i][j])
}

/// On an all-close matrix every reachable window pair matches, so a row
/// contributes one match per column considered.
proof fn lemma_row_full(grid: Seq<Seq<bool>>, e: int, i: int, j_bound: int)
    requires
        tri_wf(grid),
        all_close(grid),
        0 <= e,
        0 <= i,
        i + e < grid.len(),
        j_bound <= grid.len() - i - e,
    ensures
        row_match_count(grid, e, i, j_bound) == if j_bound <= 0 {
            0int
        } else {
            j_bound
        },
    decreases j_bound,
{
    if j_bound > 0 {
        lemma_row_full(grid, e, i, j_bound - 1);
        assert forall|k: int| 0 <= k <= e implies (#[trigger] grid[i + k])[j_bound - 1] by {
            assert(grid[i + k].len() == grid.len() - i - k);
        }
        assert(window_match(grid, e, i, j_bound - 1));
    }
}

/// Partial sums of the all-close match count follow the triangular-number
/// pattern.
proof fn lemma_upto_full(grid: Seq<Seq<bool>>, e: int, i_bound: int)
    requires
        tri_wf(grid),
        all_close(grid),
        0 <= e,
        0 <= i_bound <= grid.len() - e,
    ensures
        2 * match_count_upto(grid, e, i_bound) == i_bound * (2 * (grid.len() - e) - i_bound + 1),
    decreases i_bound,
{
    let full = grid.len() - e;
    if i_bound == 0 {
        assert(0int * (2 * full - 0 + 1) == 0) by (nonlinear_arith);
    } else {
        lemma_upto_full(grid, e, i_bound - 1);
        lemma_row_full(grid, e, i_bound - 1, grid.len() - (i_bound - 1) - e);
        assert((i_bound - 1) * (2 * full - i_bound + 2) + 2 * (full - i_bound + 1) == i_bound * (2
            * full - i_bound + 1)) by (nonlinear_arith);
    }
}

/// On an all-close matrix the match count at order `e` is the full number
/// of window pairs, `(L - e) * (L - e + 1) / 2` for `L` matrix rows: scaled
/// by the estimator's normalization the correlation sum is then exactly one.
pub proof fn lemma_match_count_all_close(grid: Seq<Seq<bool>>, e: int)
    requires
        tri_wf(grid),
        all_close(grid),
        0 <= e,
    ensures
        e <= grid.len() ==> 2 * match_count(grid, e) == (grid.len() - e) * (grid.len() - e + 1),
        e > grid.len() ==> match_count(grid, e) == 0,
{
    if e <= grid.len() {
        lemma_upto_full(grid, e, grid.len() - e);
        assert((grid.len() - e) * (2 * (grid.len() - e) - (grid.len() - e) + 1) == (grid.len()
            - e) * (grid.len() - e + 1)) by (nonlinear_arith);
    }
}

} // verus!
