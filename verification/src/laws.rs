use vstd::prelude::*;
use crate::cells::{ceil_cell, floor_cell};
use crate::collision::Collision;
use crate::geometry::{distance_squared, reach_squared, Body, Vector2};
use crate::model::{
    bucket_entities, bucket_hits, dynamic_entity_rule, dynamic_rule, entity_rule, GridView,
};
use vstd::arithmetic::div_mod::{
    lemma_fundamental_div_mod, lemma_fundamental_div_mod_converse, lemma_mod_bound,
};

verus! {

/// The squared distance does not depend on the order of the two points.
pub proof fn lemma_distance_is_symmetric(a: Vector2, b: Vector2)
    ensures
        distance_squared(a, b) == distance_squared(b, a),
{
    let dx = a.x - b.x;
    let dy = a.y - b.y;
    assert(dx * dx == (-dx) * (-dx)) by (nonlinear_arith);
    assert(dy * dy == (-dy) * (-dy)) by (nonlinear_arith);
}

/// Two dynamic bodies of different entities whose centers are no farther
/// apart than the sum of their radii hit each other, and the hit seen from
/// one is a different value from the hit seen from the other.
pub proof fn lemma_contact_is_mutual(a: Body, b: Body)
    requires
        !a.is_static,
        !b.is_static,
        a.entity_index != b.entity_index,
        distance_squared(a.pos, b.pos) <= reach_squared(a.radius, b.radius),
    ensures
        a.spec_collided(b),
        b.spec_collided(a),
        Collision::between(a, b) != Collision::between(b, a),
{
    lemma_distance_is_symmetric(a.pos, b.pos);
    assert(reach_squared(a.radius, b.radius) == reach_squared(b.radius, a.radius));
}

/// A static body hits nothing, wherever the other body is.
pub proof fn lemma_static_never_collides(a: Body, b: Body)
    requires
        a.is_static,
    ensures
        !a.spec_collided(b),
{
}

/// A dynamic body whose center is exactly the sum of the radii away from a
/// body of another entity hits it.
pub proof fn lemma_touching_collides(a: Body, b: Body)
    requires
        !a.is_static,
        a.entity_index != b.entity_index,
        distance_squared(a.pos, b.pos) == reach_squared(a.radius, b.radius),
    ensures
        a.spec_collided(b),
{
}

/// No hit of a grid names one entity on both sides.
pub proof fn lemma_no_self_collision(grid: GridView, c: Collision)
    requires
        grid.collisions().contains(c),
    ensures
        c.self_entity_index != c.other_entity_index,
{
    let w = choose|w: int|
        0 <= w < grid.dynamic.len() && w < grid.dynamic.len() && #[trigger] grid.body_hits(
            grid.dynamic[w],
        ).contains(c);
    let body = grid.dynamic[w];
    let i = choose|i: int|
        #[trigger] grid.in_range(grid.cell_range(body.spec_bounds()), i) && bucket_hits(
            body,
            grid.cells[i],
        ).contains(c);
    let bucket = grid.cells[i];
    let j = choose|j: int|
        0 <= j < bucket.len() && body.spec_collided(#[trigger] bucket[j]) && c
            == Collision::between(body, bucket[j]);
    assert(body.entity_index != bucket[j].entity_index);
}

/// Where the upper edge of a box lies exactly on the line between two cells
/// and the box has some width, the cell range along that axis holds the cell
/// below the line and the cell above it.
pub proof fn lemma_upper_edge_on_boundary(low: int, high: int, line: int, span: int)
    requires
        span > 0,
        low < high,
        high == line * span,
    ensures
        floor_cell(low, span) <= line - 1,
        ceil_cell(high, span) == line,
{
    assert(-high == (-line) * span + 0) by (nonlinear_arith)
        requires
            high == line * span,
    ;
    lemma_fundamental_div_mod_converse(-high, span, -line, 0);
    lemma_fundamental_div_mod(low, span);
    lemma_mod_bound(low, span);
    let q = low / span;
    assert(q < line) by (nonlinear_arith)
        requires
            span > 0,
            span * q <= low,
            low < line * span,
    ;
}

/// Adding bodies changes neither the measures of a grid nor the number of
/// its buckets.
pub proof fn lemma_insert_all_keeps_measures(grid: GridView, bodies: Seq<Body>)
    ensures
        grid.insert_all(bodies).size == grid.size,
        grid.insert_all(bodies).cell_size == grid.cell_size,
        grid.insert_all(bodies).cells.len() == grid.cells.len(),
        grid.wf() ==> grid.insert_all(bodies).wf(),
    decreases bodies.len(),
{
    if bodies.len() > 0 {
        lemma_insert_all_keeps_measures(grid, bodies.drop_last());
    }
}

/// Adding one run of bodies and then another is adding the two runs joined.
pub proof fn lemma_insert_all_joins(grid: GridView, first: Seq<Body>, second: Seq<Body>)
    ensures
        grid.insert_all(first).insert_all(second) == grid.insert_all(first + second),
    decreases second.len(),
{
    if second.len() == 0 {
        assert(first + second =~= first);
    } else {
        lemma_insert_all_joins(grid, first, second.drop_last());
        assert((first + second).drop_last() =~= first + second.drop_last());
        assert((first + second).last() == second.last());
    }
}

/// A reset followed by the same bodies in the same order gives the same grid
/// again, and so the same hits.
pub proof fn lemma_refill_repeats(grid: GridView, bodies: Seq<Body>)
    ensures
        ({
            let filled = grid.cleared().insert_all(bodies);
            &&& filled.cleared().insert_all(bodies) == filled
            &&& filled.cleared().insert_all(bodies).collisions() == filled.collisions()
        }),
{
    lemma_insert_all_keeps_measures(grid.cleared(), bodies);
}

/// In a grid filled from empty, each bucket holds exactly the bodies filed
/// under it, in the order in which they were added, and the dynamic bodies
/// are exactly the added bodies that are not static.
pub proof fn lemma_buckets_index_the_bodies(size: nat, cell_size: nat, bodies: Seq<Body>, i: int)
    requires
        0 <= i < GridView::empty(size, cell_size).cells.len(),
    ensures
        ({
            let grid = GridView::filed(size, cell_size, bodies);
            let base = GridView::empty(size, cell_size);
            &&& grid.size == size
            &&& grid.cell_size == cell_size
            &&& grid.cells.len() == base.cells.len()
            &&& grid.cells[i] == bodies.filter(base.bucket_rule(i))
            &&& grid.dynamic == bodies.filter(dynamic_rule())
        }),
    decreases bodies.len(),
{
    broadcast use Seq::lemma_filter_len;

    let base = GridView::empty(size, cell_size);
    let rule = base.bucket_rule(i);
    if bodies.len() == 0 {
        assert(bodies.filter(rule) =~= Seq::<Body>::empty());
        assert(bodies.filter(dynamic_rule()) =~= Seq::<Body>::empty());
    } else {
        let init = bodies.drop_last();
        let last = bodies.last();
        lemma_buckets_index_the_bodies(size, cell_size, init, i);
        lemma_insert_all_keeps_measures(base, init);
        assert(bodies =~= init.push(last));
        init.lemma_filter_push(last, rule);
        init.lemma_filter_push(last, dynamic_rule());
        let before = GridView::filed(size, cell_size, init);
        assert(before.files_under(last, i) == rule(last));
        assert(dynamic_rule()(last) == !last.is_static);
    }
}

/// In a grid filled from empty, the dynamic bodies listed for an entity are
/// the added bodies of that entity that are not static, in the order in
/// which they were added.
pub proof fn lemma_registry_lists_entity_bodies(
    size: nat,
    cell_size: nat,
    bodies: Seq<Body>,
    entity_index: usize,
)
    ensures
        GridView::filed(size, cell_size, bodies).registry(entity_index) == bodies.filter(
            dynamic_entity_rule(entity_index),
        ),
    decreases bodies.len(),
{
    broadcast use Seq::lemma_filter_len;

    let mine = entity_rule(entity_index);
    let both = dynamic_entity_rule(entity_index);
    let grid = GridView::filed(size, cell_size, bodies);
    if bodies.len() == 0 {
        assert(grid.dynamic.filter(mine) =~= Seq::<Body>::empty());
        assert(bodies.filter(both) =~= Seq::<Body>::empty());
    } else {
        let init = bodies.drop_last();
        let last = bodies.last();
        let before = GridView::filed(size, cell_size, init);
        lemma_registry_lists_entity_bodies(size, cell_size, init, entity_index);
        assert(bodies =~= init.push(last));
        init.lemma_filter_push(last, both);
        before.dynamic.lemma_filter_push(last, mine);
        assert(both(last) == (!last.is_static && mine(last)));
    }
}

/// The area query of a grid filled from empty names exactly the entities
/// with a body filed under a bucket of the query circle's cell range: static
/// and dynamic alike, whether or not the body touches the circle.
pub proof fn lemma_area_names_the_near_bodies(
    size: nat,
    cell_size: nat,
    bodies: Seq<Body>,
    position: Vector2,
    radius: i32,
)
    ensures
        ({
            let grid = GridView::filed(size, cell_size, bodies);
            grid.area_entities(position, radius) == grid.near_entities(
                bodies,
                position,
                radius,
            )
        }),
{
    broadcast use
        Seq::lemma_filter_pred,
        Seq::lemma_filter_contains,
        Seq::lemma_filter_contains_rev,
    ;

    let grid = GridView::filed(size, cell_size, bodies);
    let base = GridView::empty(size, cell_size);
    lemma_insert_all_keeps_measures(base, bodies);
    let named = grid.area_entities(position, radius);
    let near = grid.near_entities(bodies, position, radius);
    let range = grid.cell_range(crate::geometry::circle_bounds(position, radius));
    assert forall|e: usize| named.contains(e) <==> near.contains(e) by {
        if named.contains(e) {
            let i = choose|i: int|
                #[trigger] grid.in_range(range, i) && bucket_entities(grid.cells[i]).contains(e);
            let bucket = grid.cells[i];
            let j = choose|j: int| 0 <= j < bucket.len() && (#[trigger] bucket[j]).entity_index == e;
            lemma_buckets_index_the_bodies(size, cell_size, bodies, i);
            let rule = base.bucket_rule(i);
            assert(bucket == bodies.filter(rule));
            assert(rule(bucket[j]));
            assert(bodies.filter(rule).contains(bucket[j]));
            assert(bodies.contains(bucket[j]));
            let k = choose|k: int| 0 <= k < bodies.len() && bodies[k] == bucket[j];
            assert(grid.near(bodies[k], position, radius, i));
        }
        if near.contains(e) {
            let (k, i) = choose|k: int, i: int|
                0 <= k < bodies.len() && #[trigger] grid.near(bodies[k], position, radius, i)
                    && bodies[k].entity_index == e;
            lemma_buckets_index_the_bodies(size, cell_size, bodies, i);
            let rule = base.bucket_rule(i);
            assert(rule(bodies[k]));
            assert(bodies.filter(rule).contains(bodies[k]));
            let bucket = grid.cells[i];
            let j = choose|j: int| 0 <= j < bucket.len() && bucket[j] == bodies[k];
            assert(bucket[j].entity_index == e);
            assert(bucket_entities(bucket).contains(e));
            assert(grid.in_range(range, i));
        }
    }
    assert(named =~= near);
}

/// The hits of a grid filled from empty are exactly the pairs of added
/// bodies of which the first hits the second and both are filed under one
/// bucket, each pair as seen from its first body.
pub proof fn lemma_collisions_of_filed_bodies(size: nat, cell_size: nat, bodies: Seq<Body>)
    ensures
        ({
            let grid = GridView::filed(size, cell_size, bodies);
            grid.collisions() == grid.meeting_pairs(bodies)
        }),
{
    broadcast use
        Seq::lemma_filter_pred,
        Seq::lemma_filter_contains,
        Seq::lemma_filter_contains_rev,
    ;

    let grid = GridView::filed(size, cell_size, bodies);
    let base = GridView::empty(size, cell_size);
    lemma_insert_all_keeps_measures(base, bodies);
    let hits = grid.collisions();
    let pairs = grid.meeting_pairs(bodies);
    assert forall|c: Collision| hits.contains(c) <==> pairs.contains(c) by {
        if hits.contains(c) {
            let w = choose|w: int|
                0 <= w < grid.dynamic.len() && w < grid.dynamic.len() && #[trigger] grid.body_hits(
                    grid.dynamic[w],
                ).contains(c);
            let body = grid.dynamic[w];
            let i = choose|i: int|
                #[trigger] grid.in_range(grid.cell_range(body.spec_bounds()), i) && bucket_hits(
                    body,
                    grid.cells[i],
                ).contains(c);
            let bucket = grid.cells[i];
            let j = choose|j: int|
                0 <= j < bucket.len() && body.spec_collided(#[trigger] bucket[j]) && c
                    == Collision::between(body, bucket[j]);
            lemma_buckets_index_the_bodies(size, cell_size, bodies, i);
            let rule = base.bucket_rule(i);
            assert(bucket == bodies.filter(rule));
            assert(rule(bucket[j]));
            assert(bodies.filter(rule).contains(bucket[j]));
            assert(bodies.contains(bucket[j]));
            let b = choose|b: int| 0 <= b < bodies.len() && bodies[b] == bucket[j];
            assert(bodies.filter(dynamic_rule()).contains(grid.dynamic[w]));
            assert(bodies.contains(body));
            let a = choose|a: int| 0 <= a < bodies.len() && bodies[a] == body;
            assert(grid.meets(bodies[a], bodies[b], i));
        }
        if pairs.contains(c) {
            let (a, b, i) = choose|a: int, b: int, i: int|
                0 <= a < bodies.len() && 0 <= b < bodies.len() && #[trigger] grid.meets(
                    bodies[a],
                    bodies[b],
                    i,
                ) && c == Collision::between(bodies[a], bodies[b]);
            lemma_buckets_index_the_bodies(size, cell_size, bodies, i);
            let rule = base.bucket_rule(i);
            assert(rule(bodies[b]));
            assert(bodies.filter(rule).contains(bodies[b]));
            let bucket = grid.cells[i];
            let j = choose|j: int| 0 <= j < bucket.len() && bucket[j] == bodies[b];
            assert(dynamic_rule()(bodies[a]));
            assert(bodies.filter(dynamic_rule()).contains(bodies[a]));
            let w = choose|w: int| 0 <= w < grid.dynamic.len() && grid.dynamic[w] == bodies[a];
            assert(bodies[a].spec_collided(bucket[j]));
            assert(bucket_hits(bodies[a], bucket).contains(c));
            assert(grid.in_range(grid.cell_range(bodies[a].spec_bounds()), i));
            assert(grid.body_hits(grid.dynamic[w]).contains(c));
        }
    }
    assert(hits =~= pairs);
}

/// Two added dynamic bodies of different entities that are in contact and
/// filed under a common bucket are reported from both sides.
pub proof fn lemma_contact_is_reported_both_ways(
    size: nat,
    cell_size: nat,
    bodies: Seq<Body>,
    a: int,
    b: int,
    i: int,
)
    requires
        0 <= a < bodies.len(),
        0 <= b < bodies.len(),
        !bodies[a].is_static,
        !bodies[b].is_static,
        bodies[a].entity_index != bodies[b].entity_index,
        distance_squared(bodies[a].pos, bodies[b].pos) <= reach_squared(
            bodies[a].radius,
            bodies[b].radius,
        ),
        GridView::filed(size, cell_size, bodies).files_under(bodies[a], i),
        GridView::filed(size, cell_size, bodies).files_under(bodies[b], i),
    ensures
        GridView::filed(size, cell_size, bodies).collisions().contains(
            Collision::between(bodies[a], bodies[b]),
        ),
        GridView::filed(size, cell_size, bodies).collisions().contains(
            Collision::between(bodies[b], bodies[a]),
        ),
{
    let grid = GridView::filed(size, cell_size, bodies);
    lemma_contact_is_mutual(bodies[a], bodies[b]);
    lemma_collisions_of_filed_bodies(size, cell_size, bodies);
    assert(grid.meets(bodies[a], bodies[b], i));
    assert(grid.meets(bodies[b], bodies[a], i));
}

} // verus!
