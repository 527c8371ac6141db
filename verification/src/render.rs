//! The arithmetic of a render pass: which pixel an index names, and how far
//! the pass has come.

use vstd::prelude::*;

verus! {

/// The column and the row of the pixel with the given row-major index.
pub fn pixel_coordinates(idx: usize, width: usize) -> (at: (usize, usize))
    requires
        width > 0,
    ensures
        at.0 == idx % width,
        at.1 == idx / width,
        at.0 < width,
        at.1 * width + at.0 == idx,
{
    proof {
        vstd::arithmetic::div_mod::lemma_fundamental_div_mod(idx as int, width as int);
        assert(width * (idx / width) == (idx / width) * width) by (nonlinear_arith);
    }
    (idx % width, idx / width)
}

/// The row-major index of the pixel in column `x` of row `y`: the inverse of
/// `pixel_coordinates`.
pub proof fn lemma_coordinates_of_index(x: usize, y: usize, width: usize)
    requires
        x < width,
        y * width + x <= usize::MAX,
    ensures
        (y * width + x) % (width as int) == x,
        (y * width + x) / (width as int) == y,
{
    vstd::arithmetic::div_mod::lemma_fundamental_div_mod_converse(
        y * width + x,
        width as int,
        y as int,
        x as int,
    );
}

/// The number of rows between two progress reports: a hundredth of the rows,
/// and 1 for an image of fewer than 100 rows.
pub open spec fn progress_interval_spec(rows: usize) -> int {
    if rows < 100 {
        1
    } else {
        rows as int / 100
    }
}

/// The number of rows between two progress reports.
pub fn progress_interval(rows: usize) -> (interval: usize)
    ensures
        interval == progress_interval_spec(rows),
        interval >= 1,
{
    if rows < 100 {
        1
    } else {
        rows / 100
    }
}

/// Whether progress is reported after `row`: for every row that is a multiple
/// of the interval, so about once for each hundredth of the image.
pub fn reports_progress(row: usize, rows: usize) -> (due: bool)
    ensures
        due == (row as int % progress_interval_spec(rows) == 0),
{
    row % progress_interval(rows) == 0
}

/// The part of the work that is done, in hundredths and rounded down: 100
/// where all of it is done, or more, or where there is none.
pub open spec fn percent_done_spec(done: usize, total: usize) -> int {
    if done >= total {
        100
    } else {
        done * 100 / (total as int)
    }
}

/// The part of the work that is done, in hundredths and rounded down.
pub fn percent_done(done: usize, total: usize) -> (percent: usize)
    ensures
        percent == percent_done_spec(done, total),
        percent <= 100,
{
    if done >= total {
        100
    } else {
        let scaled: u128 = done as u128 * 100;
        proof {
            vstd::arithmetic::div_mod::lemma_div_is_ordered(
                done * 100,
                total * 100,
                total as int,
            );
            vstd::arithmetic::div_mod::lemma_div_multiples_vanish(100, total as int);
            assert(total * 100 == 100 * total) by (nonlinear_arith);
            assert(0 <= scaled / (total as u128)) by (nonlinear_arith)
                requires
                    scaled >= 0,
                    total > 0,
            ;
        }
        (scaled / (total as u128)) as usize
    }
}

} // verus!
