use vstd::prelude::*;
use vstd::arithmetic::div_mod::{
    lemma_div_is_ordered_by_denominator, lemma_fundamental_div_mod,
    lemma_fundamental_div_mod_converse, lemma_mod_bound,
};
use crate::geometry::UNIT;

verus! {

/// Side of one cell in coordinate steps.
pub open spec fn cell_span(cell_size: nat) -> int {
    cell_size * (UNIT as int)
}

/// Largest cell coordinate whose lower edge is at or below `v`.
pub open spec fn floor_cell(v: int, span: int) -> int {
    v / span
}

/// Smallest cell coordinate whose lower edge is at or above `v`.
pub open spec fn ceil_cell(v: int, span: int) -> int {
    -((-v) / span)
}

/// The inclusive range of cell coordinates `(low_x, high_x, low_y, high_y)`
/// that a box `(min_x, max_x, min_y, max_y)` is filed under: lower edges are
/// rounded down and upper edges are rounded up.
pub open spec fn spec_cell_range(bounds: (i64, i64, i64, i64), cell_size: nat) -> (
    i64,
    i64,
    i64,
    i64,
) {
    let span = cell_span(cell_size);
    (
        floor_cell(bounds.0 as int, span) as i64,
        ceil_cell(bounds.1 as int, span) as i64,
        floor_cell(bounds.2 as int, span) as i64,
        ceil_cell(bounds.3 as int, span) as i64,
    )
}

/// Whether the cell `(cx, cy)` lies in the inclusive range.
pub open spec fn covers(range: (i64, i64, i64, i64), cx: int, cy: int) -> bool {
    range.0 <= cx <= range.1 && range.2 <= cy <= range.3
}

/// Column of the cell stored at flat index `i`.
pub open spec fn col(i: int, grid_size: int) -> int {
    i / grid_size
}

/// Row of the cell stored at flat index `i`.
pub open spec fn row(i: int, grid_size: int) -> int {
    i % grid_size
}

/// Whether the cell at flat index `i` lies in the inclusive range.
pub open spec fn covers_index(range: (i64, i64, i64, i64), i: int, grid_size: int) -> bool {
    covers(range, col(i, grid_size), row(i, grid_size))
}

pub proof fn lemma_flat_index(x: int, y: int, grid_size: int)
    requires
        0 <= x < grid_size,
        0 <= y < grid_size,
    ensures
        0 <= x * grid_size + y < grid_size * grid_size,
        col(x * grid_size + y, grid_size) == x,
        row(x * grid_size + y, grid_size) == y,
{
    lemma_fundamental_div_mod_converse(x * grid_size + y, grid_size, x, y);
    assert(0 <= x * grid_size + y < grid_size * grid_size) by (nonlinear_arith)
        requires
            0 <= x < grid_size,
            0 <= y < grid_size,
    ;
}

pub proof fn lemma_cell_of_index(i: int, grid_size: int)
    requires
        0 < grid_size,
        0 <= i < grid_size * grid_size,
    ensures
        0 <= col(i, grid_size) < grid_size,
        0 <= row(i, grid_size) < grid_size,
        col(i, grid_size) * grid_size + row(i, grid_size) == i,
{
    lemma_fundamental_div_mod(i, grid_size);
    lemma_mod_bound(i, grid_size);
    let c = i / grid_size;
    let r = i % grid_size;
    assert(0 <= c < grid_size) by (nonlinear_arith)
        requires
            0 < grid_size,
            0 <= i < grid_size * grid_size,
            i == grid_size * c + r,
            0 <= r < grid_size,
    ;
    assert(c * grid_size == grid_size * c) by (nonlinear_arith);
}

/// Rounds `v / span` down, for a span of at least one world unit.
pub(crate) fn floor_div(v: i64, span: u128) -> (q: i64)
    requires
        span >= UNIT,
    ensures
        q == floor_cell(v as int, span as int),
{
    if v >= 0 {
        let m: u128 = v as u128;
        let q: u128 = m / span;
        proof {
            lemma_div_is_ordered_by_denominator(m as int, UNIT as int, span as int);
        }
        q as i64
    } else {
        let m: u128 = (-(v as i128)) as u128;
        let q: u128 = m / span;
        let r: u128 = m % span;
        proof {
            lemma_div_is_ordered_by_denominator(m as int, UNIT as int, span as int);
            lemma_fundamental_div_mod(m as int, span as int);
            if r == 0 {
                assert(v as int == (-(q as int)) * (span as int) + 0) by (nonlinear_arith)
                    requires
                        m as int == (span as int) * (q as int) + 0,
                        v as int == -(m as int),
                ;
                lemma_fundamental_div_mod_converse(v as int, span as int, -(q as int), 0);
            } else {
                assert(v as int == (-(q as int) - 1) * (span as int) + (span as int - r as int))
                    by (nonlinear_arith)
                    requires
                        m as int == (span as int) * (q as int) + r as int,
                        v as int == -(m as int),
                ;
                lemma_fundamental_div_mod_converse(
                    v as int,
                    span as int,
                    -(q as int) - 1,
                    span as int - r as int,
                );
            }
        }
        if r == 0 {
            -(q as i64)
        } else {
            -(q as i64) - 1
        }
    }
}

/// Rounds `v / span` up, for a span of at least one world unit.
pub(crate) fn ceil_div(v: i64, span: u128) -> (q: i64)
    requires
        span >= UNIT,
    ensures
        q == ceil_cell(v as int, span as int),
{
    if v >= 0 {
        let m: u128 = v as u128;
        let q: u128 = m / span;
        let r: u128 = m % span;
        proof {
            lemma_div_is_ordered_by_denominator(m as int, UNIT as int, span as int);
            lemma_fundamental_div_mod(m as int, span as int);
            if r == 0 {
                assert(-(v as int) == (-(q as int)) * (span as int) + 0) by (nonlinear_arith)
                    requires
                        m as int == (span as int) * (q as int) + 0,
                        v as int == m as int,
                ;
                lemma_fundamental_div_mod_converse(-(v as int), span as int, -(q as int), 0);
            } else {
                assert(-(v as int) == (-(q as int) - 1) * (span as int) + (span as int - r as int))
                    by (nonlinear_arith)
                    requires
                        m as int == (span as int) * (q as int) + r as int,
                        v as int == m as int,
                ;
                lemma_fundamental_div_mod_converse(
                    -(v as int),
                    span as int,
                    -(q as int) - 1,
                    span as int - r as int,
                );
            }
        }
        if r == 0 {
            q as i64
        } else {
            q as i64 + 1
        }
    } else {
        let m: u128 = (-(v as i128)) as u128;
        let q: u128 = m / span;
        proof {
            lemma_div_is_ordered_by_denominator(m as int, UNIT as int, span as int);
        }
        -(q as i64)
    }
}

} // verus!
