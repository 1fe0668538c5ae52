use vstd::prelude::*;
use crate::cells::{covers_index, spec_cell_range};
use crate::collision::Collision;
use crate::geometry::{circle_bounds, Body, Vector2, UNIT};

verus! {

/// What a grid holds, as mathematics: one bucket of bodies per cell, stored
/// column by column, and the dynamic bodies in the order they were added.
pub struct GridView {
    pub cells: Seq<Seq<Body>>,
    pub dynamic: Seq<Body>,
    pub size: nat,
    pub cell_size: nat,
}

impl GridView {
    /// Number of cells along one axis.
    pub open spec fn grid_size(self) -> nat {
        self.size / self.cell_size
    }

    /// The measures make sense and there is one bucket for each cell.
    pub open spec fn wf(self) -> bool {
        &&& self.cell_size > 0
        &&& self.size > 0
        &&& self.size % self.cell_size == 0
        &&& self.cells.len() == self.grid_size() * self.grid_size()
    }

    /// Whether a point lies inside the world that the grid covers.
    pub open spec fn holds_point(self, p: Vector2) -> bool {
        &&& 0 <= p.x < self.size * (UNIT as int)
        &&& 0 <= p.y < self.size * (UNIT as int)
    }

    /// The grid of the given measures with nothing in it.
    pub open spec fn empty(size: nat, cell_size: nat) -> GridView {
        GridView {
            cells: Seq::new(
                (size / cell_size) * (size / cell_size),
                |i: int| Seq::<Body>::empty(),
            ),
            dynamic: Seq::empty(),
            size,
            cell_size,
        }
    }

    /// The grid after a reset: same measures, nothing in it.
    pub open spec fn cleared(self) -> GridView {
        GridView::empty(self.size, self.cell_size)
    }

    /// The range of cells a box is filed under.
    pub open spec fn cell_range(self, bounds: (i64, i64, i64, i64)) -> (i64, i64, i64, i64) {
        spec_cell_range(bounds, self.cell_size)
    }

    /// Whether the bucket at flat index `i` belongs to the range.
    pub open spec fn in_range(self, range: (i64, i64, i64, i64), i: int) -> bool {
        0 <= i < self.cells.len() && covers_index(range, i, self.grid_size() as int)
    }

    /// Whether `body` is filed under the bucket at flat index `i`: the bucket
    /// is one of the grid and belongs to the cell range of the body's box.
    pub open spec fn files_under(self, body: Body, i: int) -> bool {
        self.in_range(self.cell_range(body.spec_bounds()), i)
    }

    /// The grid after one body was added: the body is appended to every
    /// bucket of its cell range that lies inside the grid, and to the dynamic
    /// bodies unless it is static.
    pub open spec fn insert(self, body: Body) -> GridView {
        GridView {
            cells: Seq::new(
                self.cells.len(),
                |i: int|
                    if self.files_under(body, i) {
                        self.cells[i].push(body)
                    } else {
                        self.cells[i]
                    },
            ),
            dynamic: if body.is_static {
                self.dynamic
            } else {
                self.dynamic.push(body)
            },
            size: self.size,
            cell_size: self.cell_size,
        }
    }

    /// The grid after the bodies were added in order.
    pub open spec fn insert_all(self, bodies: Seq<Body>) -> GridView
        decreases bodies.len(),
    {
        if bodies.len() == 0 {
            self
        } else {
            self.insert_all(bodies.drop_last()).insert(bodies.last())
        }
    }

    /// The grid of the given measures after the bodies were added in order.
    pub open spec fn filed(size: nat, cell_size: nat, bodies: Seq<Body>) -> GridView {
        GridView::empty(size, cell_size).insert_all(bodies)
    }

    /// The rule by which bodies belong to the bucket at flat index `i`.
    pub open spec fn bucket_rule(self, i: int) -> spec_fn(Body) -> bool {
        |body: Body| self.files_under(body, i)
    }

    /// Whether two bodies are both filed under the bucket at `i` and the
    /// first hits the second.
    pub open spec fn meets(self, body: Body, other: Body, i: int) -> bool {
        body.spec_collided(other) && self.files_under(body, i) && self.files_under(other, i)
    }

    /// Whether a body is filed under a bucket of the range of a circle's box.
    pub open spec fn near(self, body: Body, position: Vector2, radius: i32, i: int) -> bool {
        self.files_under(body, i) && self.in_range(
            self.cell_range(circle_bounds(position, radius)),
            i,
        )
    }

    /// The grid after a batch of circles of one entity was added in order,
    /// each with its place in the batch as body index.
    pub open spec fn insert_batch(
        self,
        entity_index: usize,
        positions: Seq<Vector2>,
        radius: i32,
        is_static: bool,
    ) -> GridView {
        self.insert_all(batch_bodies(entity_index, positions, radius, is_static))
    }

    /// The dynamic bodies of one entity, in the order in which they were
    /// added.
    pub open spec fn registry(self, entity_index: usize) -> Seq<Body> {
        self.dynamic.filter(entity_rule(entity_index))
    }
}

/// The bodies that a batch of circles of one entity stands for: the circle at
/// place `k` of the batch has body index `k`.
pub open spec fn batch_bodies(
    entity_index: usize,
    positions: Seq<Vector2>,
    radius: i32,
    is_static: bool,
) -> Seq<Body> {
    Seq::new(
        positions.len(),
        |k: int|
            Body { entity_index, body_index: k as usize, pos: positions[k], radius, is_static },
    )
}

impl GridView {
    /// Entities with a body in a bucket of the cell range of the circle's box,
    /// inside the grid. The circle itself is not tested against the bodies.
    pub open spec fn area_entities(self, position: Vector2, radius: i32) -> Set<usize> {
        Set::new(
            |e: usize|
                exists|i: int|
                    #[trigger] self.in_range(self.cell_range(circle_bounds(position, radius)), i)
                        && bucket_entities(self.cells[i]).contains(e),
        )
    }

    /// Hits that `body` records against the buckets of its own cell range.
    pub open spec fn body_hits(self, body: Body) -> Set<Collision> {
        Set::new(
            |c: Collision|
                exists|i: int|
                    #[trigger] self.in_range(self.cell_range(body.spec_bounds()), i)
                        && bucket_hits(body, self.cells[i]).contains(c),
        )
    }

    /// Hits recorded by the first `k` dynamic bodies.
    pub open spec fn collisions_of_first(self, k: int) -> Set<Collision> {
        Set::new(
            |c: Collision|
                exists|w: int|
                    0 <= w < k && w < self.dynamic.len() && #[trigger] self.body_hits(
                        self.dynamic[w],
                    ).contains(c),
        )
    }

    /// All hits: those that any dynamic body records against any body filed
    /// under a cell of its range.
    pub open spec fn collisions(self) -> Set<Collision> {
        self.collisions_of_first(self.dynamic.len() as int)
    }

    /// The entities of those of `bodies` that are filed under a bucket of the
    /// range of the circle's box.
    pub open spec fn near_entities(
        self,
        bodies: Seq<Body>,
        position: Vector2,
        radius: i32,
    ) -> Set<usize> {
        Set::new(
            |e: usize|
                exists|k: int, i: int|
                    0 <= k < bodies.len() && #[trigger] self.near(bodies[k], position, radius, i)
                        && bodies[k].entity_index == e,
        )
    }

    /// The hits among `bodies`: one for each pair of which the first hits the
    /// second and both are filed under one bucket.
    pub open spec fn meeting_pairs(self, bodies: Seq<Body>) -> Set<Collision> {
        Set::new(
            |c: Collision|
                exists|a: int, b: int, i: int|
                    0 <= a < bodies.len() && 0 <= b < bodies.len() && #[trigger] self.meets(
                        bodies[a],
                        bodies[b],
                        i,
                    ) && c == Collision::between(bodies[a], bodies[b]),
        )
    }
}

/// The rule by which bodies belong to an entity.
pub open spec fn entity_rule(entity_index: usize) -> spec_fn(Body) -> bool {
    |body: Body| body.entity_index == entity_index
}

/// The rule by which bodies are the dynamic bodies of an entity.
pub open spec fn dynamic_entity_rule(entity_index: usize) -> spec_fn(Body) -> bool {
    |body: Body| !body.is_static && body.entity_index == entity_index
}

/// The rule by which bodies count as dynamic.
pub open spec fn dynamic_rule() -> spec_fn(Body) -> bool {
    |body: Body| !body.is_static
}

/// Entities with a body in the bucket.
pub open spec fn bucket_entities(bucket: Seq<Body>) -> Set<usize> {
    Set::new(
        |e: usize| exists|j: int| 0 <= j < bucket.len() && (#[trigger] bucket[j]).entity_index == e,
    )
}

/// Hits that `body` records against the bodies of the bucket.
pub open spec fn bucket_hits(body: Body, bucket: Seq<Body>) -> Set<Collision> {
    Set::new(
        |c: Collision|
            exists|j: int|
                0 <= j < bucket.len() && body.spec_collided(#[trigger] bucket[j])
                    && c == Collision::between(body, bucket[j]),
    )
}

} // verus!
