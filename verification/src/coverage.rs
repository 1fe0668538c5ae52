use vstd::prelude::*;
use vstd::arithmetic::div_mod::{
    lemma_div_is_ordered, lemma_div_pos_is_pos, lemma_fundamental_div_mod,
    lemma_fundamental_div_mod_converse, lemma_mod_bound, lemma_multiply_divide_lt,
};
use crate::cells::{ceil_cell, cell_span, floor_cell, lemma_flat_index};
use crate::collision::Collision;
use crate::geometry::{distance_squared, reach_squared, Body};
use crate::laws::lemma_collisions_of_filed_bodies;
use crate::model::GridView;

verus! {

/// Rounding down never gives more than rounding up.
pub proof fn lemma_floor_at_most_ceil(v: int, span: int)
    requires
        span > 0,
    ensures
        floor_cell(v, span) <= ceil_cell(v, span),
{
    lemma_fundamental_div_mod(v, span);
    lemma_mod_bound(v, span);
    let q = v / span;
    let r = v % span;
    if r == 0 {
        assert(-v == (-q) * span + 0) by (nonlinear_arith)
            requires
                v == span * q + r,
                r == 0,
        ;
        lemma_fundamental_div_mod_converse(-v, span, -q, 0);
    } else {
        assert(-v == (-q - 1) * span + (span - r)) by (nonlinear_arith)
            requires
                v == span * q + r,
        ;
        lemma_fundamental_div_mod_converse(-v, span, -q - 1, span - r);
    }
}

/// A point of a box lies in a cell of the box's range along each axis.
pub proof fn lemma_point_in_range(low: int, high: int, p: int, span: int)
    requires
        span > 0,
        low <= p <= high,
    ensures
        floor_cell(low, span) <= floor_cell(p, span) <= ceil_cell(high, span),
{
    lemma_div_is_ordered(low, p, span);
    lemma_floor_at_most_ceil(p, span);
    lemma_div_is_ordered(-high, -p, span);
}

/// The cell of a value that fits 64 bits fits 64 bits, rounded either way.
pub proof fn lemma_cell_fits(v: int, span: int)
    requires
        span > 0,
        i64::MIN <= v <= i64::MAX,
    ensures
        i64::MIN <= floor_cell(v, span) <= i64::MAX,
        i64::MIN <= ceil_cell(v, span) <= i64::MAX,
{
    lemma_magnitude_shrinks(v, span);
    lemma_magnitude_shrinks(-v, span);
    lemma_floor_at_most_ceil(v, span);
}

/// Dividing by a positive number brings a value no farther from zero.
proof fn lemma_magnitude_shrinks(v: int, span: int)
    requires
        span > 0,
    ensures
        v >= 0 ==> 0 <= v / span <= v,
        v < 0 ==> v <= v / span < 0,
{
    lemma_fundamental_div_mod(v, span);
    lemma_mod_bound(v, span);
    let q = v / span;
    let r = v % span;
    assert(v >= 0 ==> 0 <= q <= v) by (nonlinear_arith)
        requires
            v == span * q + r,
            0 <= r < span,
            span > 0,
    ;
    assert(v < 0 ==> v <= q < 0) by (nonlinear_arith)
        requires
            v == span * q + r,
            0 <= r < span,
            span > 0,
    ;
}

/// Two centers no farther apart than `reach` are no farther apart than
/// `reach` along either axis.
proof fn lemma_axis_gap(dx: int, dy: int, reach: int)
    requires
        reach >= 0,
        dx * dx + dy * dy <= reach * reach,
    ensures
        -reach <= dx <= reach,
        -reach <= dy <= reach,
{
    assert(-reach <= dx <= reach && -reach <= dy <= reach) by (nonlinear_arith)
        requires
            reach >= 0,
            dx * dx + dy * dy <= reach * reach,
    ;
}

/// A coordinate at which the spans `[a - ra, a + ra]` and `[b - rb, b + rb]`
/// meet, taken between the two centers.
pub open spec fn meeting_point(a: int, ra: int, b: int, rb: int) -> int {
    if a <= b {
        if a >= b - rb {
            a
        } else {
            b - rb
        }
    } else {
        if b >= a - ra {
            b
        } else {
            a - ra
        }
    }
}

/// The cell of a coordinate inside the world is a cell of the grid.
proof fn lemma_cell_inside(grid: GridView, p: int)
    requires
        grid.wf(),
        0 <= p < grid.size * (crate::geometry::UNIT as int),
    ensures
        0 <= floor_cell(p, cell_span(grid.cell_size)) < grid.grid_size(),
{
    let span = cell_span(grid.cell_size);
    let gs = grid.grid_size() as int;
    lemma_fundamental_div_mod(grid.size as int, grid.cell_size as int);
    assert(grid.size * (crate::geometry::UNIT as int) == span * gs) by (nonlinear_arith)
        requires
            grid.size == grid.cell_size * gs,
            span == grid.cell_size * (crate::geometry::UNIT as int),
    ;
    lemma_div_pos_is_pos(p, span);
    lemma_multiply_divide_lt(p, span, gs);
}

/// Two bodies in contact whose centers lie inside the world are filed under
/// a common bucket, so the sweep of either one meets the other.
pub proof fn lemma_contact_shares_a_bucket(grid: GridView, a: Body, b: Body)
    requires
        grid.wf(),
        a.radius >= 0,
        b.radius >= 0,
        grid.holds_point(a.pos),
        grid.holds_point(b.pos),
        distance_squared(a.pos, b.pos) <= reach_squared(a.radius, b.radius),
    ensures
        exists|i: int| #[trigger] grid.files_under(a, i) && grid.files_under(b, i),
{
    let span = cell_span(grid.cell_size);
    let gs = grid.grid_size() as int;
    lemma_axis_gap(a.pos.x - b.pos.x, a.pos.y - b.pos.y, a.radius + b.radius);
    let px = meeting_point(a.pos.x as int, a.radius as int, b.pos.x as int, b.radius as int);
    let py = meeting_point(a.pos.y as int, a.radius as int, b.pos.y as int, b.radius as int);
    let cx = floor_cell(px, span);
    let cy = floor_cell(py, span);
    lemma_cell_inside(grid, px);
    lemma_cell_inside(grid, py);
    lemma_point_in_range(a.pos.x - a.radius, a.pos.x + a.radius, px, span);
    lemma_point_in_range(b.pos.x - b.radius, b.pos.x + b.radius, px, span);
    lemma_point_in_range(a.pos.y - a.radius, a.pos.y + a.radius, py, span);
    lemma_point_in_range(b.pos.y - b.radius, b.pos.y + b.radius, py, span);
    lemma_cell_fits(a.pos.x - a.radius, span);
    lemma_cell_fits(a.pos.x + a.radius, span);
    lemma_cell_fits(a.pos.y - a.radius, span);
    lemma_cell_fits(a.pos.y + a.radius, span);
    lemma_cell_fits(b.pos.x - b.radius, span);
    lemma_cell_fits(b.pos.x + b.radius, span);
    lemma_cell_fits(b.pos.y - b.radius, span);
    lemma_cell_fits(b.pos.y + b.radius, span);
    lemma_flat_index(cx, cy, gs);
    let i = cx * gs + cy;
    assert(grid.files_under(a, i));
    assert(grid.files_under(b, i));
}

/// No contact is missed: where a dynamic body that was added touches or
/// overlaps an added body of another entity, and both centers lie inside the
/// world, the grid reports the hit.
pub proof fn lemma_no_contact_is_missed(
    size: nat,
    cell_size: nat,
    bodies: Seq<Body>,
    a: int,
    b: int,
)
    requires
        GridView::empty(size, cell_size).wf(),
        0 <= a < bodies.len(),
        0 <= b < bodies.len(),
        bodies[a].radius >= 0,
        bodies[b].radius >= 0,
        bodies[a].spec_collided(bodies[b]),
        GridView::empty(size, cell_size).holds_point(bodies[a].pos),
        GridView::empty(size, cell_size).holds_point(bodies[b].pos),
    ensures
        GridView::filed(size, cell_size, bodies).collisions().contains(
            Collision::between(bodies[a], bodies[b]),
        ),
{
    let grid = GridView::filed(size, cell_size, bodies);
    crate::laws::lemma_insert_all_keeps_measures(GridView::empty(size, cell_size), bodies);
    lemma_contact_shares_a_bucket(grid, bodies[a], bodies[b]);
    let i = choose|i: int| #[trigger]
        grid.files_under(bodies[a], i) && grid.files_under(bodies[b], i);
    assert(grid.meets(bodies[a], bodies[b], i));
    lemma_collisions_of_filed_bodies(size, cell_size, bodies);
}

} // verus!
