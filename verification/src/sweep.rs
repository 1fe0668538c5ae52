use vstd::prelude::*;
use crate::cells::{col, covers_index, row};
use crate::collision::Collision;
use crate::geometry::Body;
use crate::model::{bucket_entities, bucket_hits, GridView};

verus! {

/// Whether the cell at flat index `i` is one that a sweep over the range has
/// passed when it stands at column `x`, row `y`.
pub open spec fn passed(
    range: (i64, i64, i64, i64),
    i: int,
    grid_size: int,
    x: int,
    y: int,
) -> bool {
    &&& 0 <= i < grid_size * grid_size
    &&& covers_index(range, i, grid_size)
    &&& (col(i, grid_size) < x || (col(i, grid_size) == x && row(i, grid_size) < y))
}

/// What a sweep has gathered after the first `k` buckets of `order`, where
/// `gather` says what one bucket gives.
pub open spec fn swept<T>(
    cells: Seq<Seq<Body>>,
    order: Seq<usize>,
    k: int,
    gather: spec_fn(Seq<Body>) -> Set<T>,
) -> Set<T> {
    Set::new(
        |t: T|
            exists|w: int|
                0 <= w < k && w < order.len() && (#[trigger] gather(cells[order[w] as int])).contains(
                    t,
                ),
    )
}

/// What a sweep over every bucket of a range gathers.
pub open spec fn gathered<T>(
    view: GridView,
    range: (i64, i64, i64, i64),
    gather: spec_fn(Seq<Body>) -> Set<T>,
) -> Set<T> {
    Set::new(
        |t: T| exists|i: int| #[trigger] view.in_range(range, i) && gather(view.cells[i]).contains(t),
    )
}

pub proof fn lemma_swept_step<T>(
    cells: Seq<Seq<Body>>,
    order: Seq<usize>,
    k: int,
    gather: spec_fn(Seq<Body>) -> Set<T>,
)
    requires
        0 <= k < order.len(),
    ensures
        swept(cells, order, k + 1, gather) == swept(cells, order, k, gather).union(
            gather(cells[order[k] as int]),
        ),
{
    let next = swept(cells, order, k + 1, gather);
    let joined = swept(cells, order, k, gather).union(gather(cells[order[k] as int]));
    assert forall|t: T| next.contains(t) <==> joined.contains(t) by {
        if next.contains(t) {
            let w = choose|w: int|
                0 <= w < k + 1 && w < order.len() && (#[trigger] gather(
                    cells[order[w] as int],
                )).contains(t);
            if w < k {
                assert(swept(cells, order, k, gather).contains(t));
            }
        }
        if swept(cells, order, k, gather).contains(t) {
            let w = choose|w: int|
                0 <= w < k && w < order.len() && (#[trigger] gather(
                    cells[order[w] as int],
                )).contains(t);
            assert(gather(cells[order[w] as int]).contains(t));
        }
        if gather(cells[order[k] as int]).contains(t) {
            assert(next.contains(t));
        }
    }
    assert(next =~= joined);
}

pub proof fn lemma_swept_all<T>(
    view: GridView,
    range: (i64, i64, i64, i64),
    order: Seq<usize>,
    gather: spec_fn(Seq<Body>) -> Set<T>,
)
    requires
        view.cells.len() <= usize::MAX,
        forall|i: usize| order.contains(i) <==> view.in_range(range, i as int),
    ensures
        swept(view.cells, order, order.len() as int, gather) == gathered(view, range, gather),
{
    let all = swept(view.cells, order, order.len() as int, gather);
    let goal = gathered(view, range, gather);
    assert forall|t: T| all.contains(t) <==> goal.contains(t) by {
        if all.contains(t) {
            let w = choose|w: int|
                0 <= w < order.len() && w < order.len() && (#[trigger] gather(
                    view.cells[order[w] as int],
                )).contains(t);
            assert(order.contains(order[w]));
            assert(view.in_range(range, order[w] as int));
        }
        if goal.contains(t) {
            let i = choose|i: int|
                #[trigger] view.in_range(range, i) && gather(view.cells[i]).contains(t);
            assert(order.contains(i as usize));
            let w = choose|w: int| 0 <= w < order.len() && order[w] == i as usize;
            assert(gather(view.cells[order[w] as int]).contains(t));
        }
    }
    assert(all =~= goal);
}

pub proof fn lemma_bucket_entities_push(bucket: Seq<Body>, body: Body)
    ensures
        bucket_entities(bucket.push(body)) == bucket_entities(bucket).insert(body.entity_index),
{
    let longer = bucket.push(body);
    assert forall|e: usize|
        bucket_entities(longer).contains(e) <==> bucket_entities(bucket).insert(
            body.entity_index,
        ).contains(e) by {
        if bucket_entities(longer).contains(e) {
            let j = choose|j: int| 0 <= j < longer.len() && (#[trigger] longer[j]).entity_index == e;
            if j < bucket.len() {
                assert(bucket[j].entity_index == e);
            }
        }
        if bucket_entities(bucket).contains(e) {
            let j = choose|j: int| 0 <= j < bucket.len() && (#[trigger] bucket[j]).entity_index == e;
            assert(longer[j].entity_index == e);
        }
        if e == body.entity_index {
            assert(longer[bucket.len() as int].entity_index == e);
        }
    }
    assert(bucket_entities(longer) =~= bucket_entities(bucket).insert(body.entity_index));
}

pub proof fn lemma_bucket_hits_push(body: Body, bucket: Seq<Body>, other: Body)
    ensures
        bucket_hits(body, bucket.push(other)) == (if body.spec_collided(other) {
            bucket_hits(body, bucket).insert(Collision::between(body, other))
        } else {
            bucket_hits(body, bucket)
        }),
{
    let longer = bucket.push(other);
    let goal = if body.spec_collided(other) {
        bucket_hits(body, bucket).insert(Collision::between(body, other))
    } else {
        bucket_hits(body, bucket)
    };
    assert forall|c: Collision| bucket_hits(body, longer).contains(c) <==> goal.contains(c) by {
        if bucket_hits(body, longer).contains(c) {
            let j = choose|j: int|
                0 <= j < longer.len() && body.spec_collided(#[trigger] longer[j]) && c
                    == Collision::between(body, longer[j]);
            if j < bucket.len() {
                assert(body.spec_collided(bucket[j]) && c == Collision::between(body, bucket[j]));
            }
        }
        if bucket_hits(body, bucket).contains(c) {
            let j = choose|j: int|
                0 <= j < bucket.len() && body.spec_collided(#[trigger] bucket[j]) && c
                    == Collision::between(body, bucket[j]);
            assert(body.spec_collided(longer[j]) && c == Collision::between(body, longer[j]));
        }
        if body.spec_collided(other) && c == Collision::between(body, other) {
            assert(body.spec_collided(longer[bucket.len() as int]));
        }
    }
    assert(bucket_hits(body, longer) =~= goal);
}

} // verus!
