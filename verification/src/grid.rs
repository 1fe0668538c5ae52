use vstd::prelude::*;
use std::collections::HashSet;
use crate::cells::{
    ceil_cell, ceil_div, cell_span, floor_cell, floor_div, lemma_cell_of_index, lemma_flat_index,
};
use crate::collision::Collision;
use crate::geometry::{bounds_of, Body, Vector2, UNIT};
use crate::model::{batch_bodies, bucket_entities, bucket_hits, GridView};
use crate::sweep::{
    gathered, lemma_bucket_entities_push, lemma_bucket_hits_push, lemma_swept_all,
    lemma_swept_step, passed, swept,
};

verus! {

/// Why a grid cannot be built from a world size and a cell size.
#[derive(Clone, Copy, Debug, PartialEq, Eq, Structural)]
pub enum GridError {
    /// The cell size is zero.
    ZeroCellSize,
    /// The world size is zero.
    ZeroSize,
    /// The cell size does not divide the world size.
    UnevenCells,
    /// The number of cells does not fit the machine's index type.
    TooManyCells,
}

/// A uniform grid over a square world, with the bodies filed under every cell
/// that their bounding box reaches.
pub struct GridPhysics {
    grid: Vec<Vec<Body>>,
    dynamic_bodies: Vec<Body>,
    size: usize,
    cell_size: usize,
    grid_size: usize,
    history: Ghost<Seq<Body>>,
}

impl View for GridPhysics {
    type V = GridView;

    closed spec fn view(&self) -> GridView {
        GridView {
            cells: Seq::new(self.grid@.len(), |i: int| self.grid@[i]@),
            dynamic: self.dynamic_bodies@,
            size: self.size as nat,
            cell_size: self.cell_size as nat,
        }
    }
}

/// Which error, if any, the measures of a grid give.
pub open spec fn config_error(size: usize, cell_size: usize) -> Option<GridError> {
    if cell_size == 0 {
        Some(GridError::ZeroCellSize)
    } else if size == 0 {
        Some(GridError::ZeroSize)
    } else if size % cell_size != 0 {
        Some(GridError::UnevenCells)
    } else if (size / cell_size) * (size / cell_size) > usize::MAX {
        Some(GridError::TooManyCells)
    } else {
        None
    }
}

/// The first cell at or after `low` that lies inside the grid, or
/// `grid_size` if there is none.
spec fn first_inside(low: i64, grid_size: usize) -> int {
    if low <= 0 {
        0
    } else if low >= grid_size {
        grid_size as int
    } else {
        low as int
    }
}

/// One past the last cell at or before `high` that lies inside the grid, or
/// zero if there is none.
spec fn end_inside(high: i64, grid_size: usize) -> int {
    if high < 0 {
        0
    } else if high >= grid_size {
        grid_size as int
    } else {
        high + 1
    }
}

/// The part of `[low, high]` inside `[0, grid_size)`, as a half-open range.
fn clamp_axis(low: i64, high: i64, grid_size: usize) -> (r: (usize, usize))
    ensures
        r.0 == first_inside(low, grid_size),
        r.1 == end_inside(high, grid_size),
{
    let lo: usize = if low <= 0 {
        0
    } else if low as i128 >= grid_size as i128 {
        grid_size
    } else {
        low as usize
    };
    let hi: usize = if high < 0 {
        0
    } else if high as i128 >= grid_size as i128 {
        grid_size
    } else {
        high as usize + 1
    };
    (lo, hi)
}

/// Appends `c` unless it is there already.
fn record(out: &mut Vec<Collision>, c: Collision)
    requires
        old(out)@.no_duplicates(),
    ensures
        final(out)@.no_duplicates(),
        final(out)@.to_set() == old(out)@.to_set().insert(c),
{
    let n: usize = out.len();
    let mut i: usize = 0;
    while i < n
        invariant
            i <= n,
            n == out@.len(),
            out@ == old(out)@,
            out@.no_duplicates(),
            forall|j: int| 0 <= j < i ==> out@[j] != c,
        decreases n - i,
    {
        if out[i] == c {
            proof {
                assert(out@.contains(c));
                assert(out@.to_set().insert(c) =~= out@.to_set());
            }
            return ;
        }
        i += 1;
    }
    proof {
        out@.lemma_push_to_set_commute(c);
    }
    out.push(c);
}

impl GridPhysics {
    /// The bodies added since the grid was built or last reset, in order.
    pub closed spec fn bodies(&self) -> Seq<Body> {
        self.history@
    }

    /// The fields agree with each other: the buckets and the dynamic bodies
    /// are those that the added bodies give.
    pub closed spec fn consistent(&self) -> bool {
        &&& self.grid_size == self.size / self.cell_size
        &&& self@ == GridView::filed(self.size as nat, self.cell_size as nat, self.history@)
    }

    /// What a grid holds is what adding its bodies to the empty grid gives.
    pub proof fn lemma_view_is_filed(&self)
        requires
            self.wf(),
        ensures
            self@ == GridView::filed(self@.size, self@.cell_size, self.bodies()),
    {
    }

    /// The grid is one that `new` built and the methods have kept.
    pub open spec fn wf(&self) -> bool {
        self@.wf() && self.consistent()
    }

    /// Builds an empty grid over a world of `size` by `size` world units, cut
    /// into cells of `cell_size` by `cell_size`.
    pub fn new(size: usize, cell_size: usize) -> (made: Result<Self, GridError>)
        ensures
            match made {
                Ok(grid) => config_error(size, cell_size) is None && grid.wf() && grid@
                    == GridView::empty(size as nat, cell_size as nat) && grid.bodies()
                    == Seq::<Body>::empty(),
                Err(e) => config_error(size, cell_size) == Some(e),
            },
    {
        if cell_size == 0 {
            return Err(GridError::ZeroCellSize);
        }
        if size == 0 {
            return Err(GridError::ZeroSize);
        }
        if size % cell_size != 0 {
            return Err(GridError::UnevenCells);
        }
        let grid_size: usize = size / cell_size;
        let count: usize = match grid_size.checked_mul(grid_size) {
            Some(n) => n,
            None => {
                return Err(GridError::TooManyCells);
            },
        };
        let mut grid: Vec<Vec<Body>> = Vec::with_capacity(count);
        let mut k: usize = 0;
        while k < count
            invariant
                k <= count,
                grid@.len() == k,
                forall|i: int| 0 <= i < k ==> (#[trigger] grid@[i])@ == Seq::<Body>::empty(),
            decreases count - k,
        {
            grid.push(Vec::new());
            k += 1;
        }
        let made = Self {
            grid,
            dynamic_bodies: Vec::new(),
            size,
            cell_size,
            grid_size,
            history: Ghost(Seq::empty()),
        };
        proof {
            let target = GridView::empty(size as nat, cell_size as nat);
            assert(made@.cells.len() == target.cells.len());
            assert forall|i: int| 0 <= i < made@.cells.len() implies made@.cells[i]
                == target.cells[i] by {
                assert(made.grid@[i]@ == Seq::<Body>::empty());
            }
            assert(made@.cells =~= target.cells);
        }
        Ok(made)
    }

    /// Empties every bucket and forgets the dynamic bodies. Static bodies go
    /// too: a caller that wants them back adds them again.
    pub fn reset(&mut self)
        requires
            old(self).wf(),
        ensures
            final(self).wf(),
            final(self)@ == old(self)@.cleared(),
            final(self).bodies() == Seq::<Body>::empty(),
    {
        self.dynamic_bodies.clear();
        self.history = Ghost(Seq::empty());
        let n: usize = self.grid.len();
        let mut k: usize = 0;
        while k < n
            invariant
                k <= n,
                n == self.grid@.len(),
                self.grid@.len() == old(self).grid@.len(),
                self.size == old(self).size,
                self.cell_size == old(self).cell_size,
                self.grid_size == old(self).grid_size,
                self.dynamic_bodies@ == Seq::<Body>::empty(),
                self.history@ == Seq::<Body>::empty(),
                forall|i: int| 0 <= i < k ==> (#[trigger] self.grid@[i])@ == Seq::<Body>::empty(),
            decreases n - k,
        {
            self.grid[k].clear();
            k += 1;
        }
        proof {
            let target = old(self)@.cleared();
            assert(self@.cells.len() == target.cells.len());
            assert forall|i: int| 0 <= i < self@.cells.len() implies self@.cells[i]
                == target.cells[i] by {
                assert(self.grid@[i]@ == Seq::<Body>::empty());
            }
            assert(self@.cells =~= target.cells);
        }
    }

    /// Maps a box `(min_x, max_x, min_y, max_y)` in coordinate steps to the
    /// inclusive range of cells `(low_x, high_x, low_y, high_y)` it is filed
    /// under. Lower edges round down and upper edges round up, so the range
    /// may reach past the grid on any side.
    pub fn get_grid_bounds(&self, bounds: (i64, i64, i64, i64)) -> (range: (i64, i64, i64, i64))
        requires
            self.wf(),
        ensures
            range == self@.cell_range(bounds),
            range.0 == floor_cell(bounds.0 as int, cell_span(self@.cell_size)),
            range.1 == ceil_cell(bounds.1 as int, cell_span(self@.cell_size)),
            range.2 == floor_cell(bounds.2 as int, cell_span(self@.cell_size)),
            range.3 == ceil_cell(bounds.3 as int, cell_span(self@.cell_size)),
    {
        let span: u128 = self.cell_size as u128 * (UNIT as u128);
        (
            floor_div(bounds.0, span),
            ceil_div(bounds.1, span),
            floor_div(bounds.2, span),
            ceil_div(bounds.3, span),
        )
    }

    /// Flat indices of the buckets of a cell range that lie inside the grid,
    /// each once.
    fn covered_cells(&self, range: (i64, i64, i64, i64)) -> (found: Vec<usize>)
        requires
            self.wf(),
        ensures
            found@.no_duplicates(),
            forall|i: usize| found@.contains(i) <==> self@.in_range(range, i as int),
    {
        let gs: usize = self.grid_size;
        let (x_lo, x_hi) = clamp_axis(range.0, range.1, gs);
        let (y_lo, y_hi) = clamp_axis(range.2, range.3, gs);
        let mut found: Vec<usize> = Vec::new();
        let ghost n: int = gs as int;
        let total: usize = self.grid.len();
        assert(total == n * n);
        let mut x: usize = x_lo;
        while x < x_hi
            invariant
                self.wf(),
                gs == self.grid_size,
                n == gs as int,
                total == n * n,
                x_lo <= x,
                x <= x_hi || x == x_lo,
                x_lo == first_inside(range.0, gs),
                x_hi == end_inside(range.1, gs),
                y_lo == first_inside(range.2, gs),
                y_hi == end_inside(range.3, gs),
                found@.no_duplicates(),
                forall|i: usize|
                    found@.contains(i) <==> passed(range, i as int, n, x as int, 0),
            decreases x_hi - x,
        {
            let mut y: usize = y_lo;
            while y < y_hi
                invariant
                    self.wf(),
                    gs == self.grid_size,
                    n == gs as int,
                    total == n * n,
                    x_lo <= x < x_hi,
                    y_lo <= y,
                    y <= y_hi || y == y_lo,
                    x_lo == first_inside(range.0, gs),
                    x_hi == end_inside(range.1, gs),
                    y_lo == first_inside(range.2, gs),
                    y_hi == end_inside(range.3, gs),
                    found@.no_duplicates(),
                    forall|i: usize|
                        found@.contains(i) <==> passed(range, i as int, n, x as int, y as int),
                decreases y_hi - y,
            {
                proof {
                    lemma_flat_index(x as int, y as int, n);
                    assert(x * gs == (x as int) * n);
                }
                let index: usize = x * gs + y;
                let ghost before = found@;
                found.push(index);
                proof {
                    assert forall|i: usize| found@.contains(i) implies passed(
                        range,
                        i as int,
                        n,
                        x as int,
                        y + 1,
                    ) by {
                        if i != index {
                            let w = choose|w: int| 0 <= w < found@.len() && found@[w] == i;
                            assert(before[w] == i);
                            assert(before.contains(i));
                        }
                    }
                    assert forall|i: usize|
                        passed(range, i as int, n, x as int, y + 1) implies found@.contains(i) by {
                        lemma_cell_of_index(i as int, n);
                        if i == index {
                            assert(found@[before.len() as int] == index);
                        } else {
                            assert(passed(range, i as int, n, x as int, y as int));
                            assert(before.contains(i));
                            let w = choose|w: int| 0 <= w < before.len() && before[w] == i;
                            assert(found@[w] == i);
                        }
                    }
                    assert(!before.contains(index));
                }
                y += 1;
            }
            proof {
                assert forall|i: int|
                    passed(range, i, n, x as int, y as int) <==> passed(range, i, n, x + 1, 0) by {
                    if 0 <= i < n * n {
                        lemma_cell_of_index(i, n);
                    }
                }
            }
            x += 1;
        }
        proof {
            assert forall|i: int|
                passed(range, i, n, x as int, 0) <==> self@.in_range(range, i) by {
                if 0 <= i < n * n {
                    lemma_cell_of_index(i, n);
                }
            }
        }
        found
    }

    /// Files a circle under every cell of its range that lies inside the
    /// grid; cells of the range outside the grid are passed over. A circle
    /// that is not static also joins the dynamic bodies.
    pub fn add_circle(
        &mut self,
        entity_index: usize,
        pos: Vector2,
        radius: i32,
        body_index: usize,
        is_static: bool,
    )
        requires
            old(self).wf(),
        ensures
            final(self).wf(),
            final(self)@ == old(self)@.insert(
                Body { entity_index, body_index, pos, radius, is_static },
            ),
            final(self).bodies() == old(self).bodies().push(
                Body { entity_index, body_index, pos, radius, is_static },
            ),
    {
        let body = Body::new(entity_index, body_index, pos, radius, is_static);
        let range = self.get_grid_bounds(body.get_bounds());
        let found = self.covered_cells(range);
        let count: usize = found.len();
        let total: usize = self.grid.len();
        let mut k: usize = 0;
        while k < count
            invariant
                k <= count,
                count == found@.len(),
                total == self.grid@.len(),
                found@.no_duplicates(),
                forall|i: usize| found@.contains(i) <==> old(self)@.in_range(range, i as int),
                self.grid@.len() == old(self).grid@.len(),
                self.size == old(self).size,
                self.cell_size == old(self).cell_size,
                self.grid_size == old(self).grid_size,
                self.dynamic_bodies@ == old(self).dynamic_bodies@,
                self.history@ == old(self).history@,
                forall|i: int|
                    0 <= i < self.grid@.len() ==> (#[trigger] self.grid@[i])@ == (if found@.take(
                        k as int,
                    ).contains(i as usize) {
                        old(self).grid@[i]@.push(body)
                    } else {
                        old(self).grid@[i]@
                    }),
            decreases count - k,
        {
            let index: usize = found[k];
            assert(found@.contains(index));
            let ghost before = self.grid@;
            self.grid[index].push(body);
            proof {
                let done = found@.take(k as int);
                let next = found@.take(k + 1);
                assert(next =~= done.push(index));
                assert(!done.contains(index));
                assert forall|i: int| 0 <= i < self.grid@.len() implies (#[trigger] self.grid@[i])@
                    == (if next.contains(i as usize) {
                    old(self).grid@[i]@.push(body)
                } else {
                    old(self).grid@[i]@
                }) by {
                    assert(before[i]@ == (if done.contains(i as usize) {
                        old(self).grid@[i]@.push(body)
                    } else {
                        old(self).grid@[i]@
                    }));
                    if i == index {
                        assert(next[k as int] == index);
                    } else {
                        if next.contains(i as usize) {
                            let w = choose|w: int| 0 <= w < next.len() && next[w] == i as usize;
                            assert(done[w] == i as usize);
                        }
                        if done.contains(i as usize) {
                            let w = choose|w: int| 0 <= w < done.len() && done[w] == i as usize;
                            assert(next[w] == i as usize);
                        }
                    }
                }
            }
            k += 1;
        }
        if !is_static {
            self.dynamic_bodies.push(body);
        }
        self.history = Ghost(self.history@.push(body));
        proof {
            assert(self.history@.drop_last() =~= old(self).history@);
            assert(found@.take(count as int) =~= found@);
            let target = old(self)@.insert(body);
            assert forall|i: int| 0 <= i < self@.cells.len() implies self@.cells[i]
                == target.cells[i] by {
                assert(self.grid@[i]@ == self@.cells[i]);
                assert(found@.contains(i as usize) <==> old(self)@.in_range(range, i));
            }
            assert(self@.cells =~= target.cells);
        }
    }

    /// Adds one static circle, with body index 0.
    pub fn add_static_circle(&mut self, entity_index: usize, pos: Vector2, radius: i32)
        requires
            old(self).wf(),
        ensures
            final(self).wf(),
            final(self)@ == old(self)@.insert(
                Body { entity_index, body_index: 0, pos, radius, is_static: true },
            ),
            final(self).bodies() == old(self).bodies().push(
                Body { entity_index, body_index: 0, pos, radius, is_static: true },
            ),
    {
        self.add_circle(entity_index, pos, radius, 0, true)
    }

    /// Adds one dynamic circle, with body index 0.
    pub fn add_dynamic_circle(&mut self, entity_index: usize, pos: Vector2, radius: i32)
        requires
            old(self).wf(),
        ensures
            final(self).wf(),
            final(self)@ == old(self)@.insert(
                Body { entity_index, body_index: 0, pos, radius, is_static: false },
            ),
            final(self).bodies() == old(self).bodies().push(
                Body { entity_index, body_index: 0, pos, radius, is_static: false },
            ),
    {
        self.add_circle(entity_index, pos, radius, 0, false)
    }

    /// Adds the circles of a batch in order, each with its place in the
    /// batch as body index.
    fn add_circles(
        &mut self,
        entity_index: usize,
        bodies: &Vec<Vector2>,
        radius: i32,
        is_static: bool,
    )
        requires
            old(self).wf(),
        ensures
            final(self).wf(),
            final(self)@ == old(self)@.insert_batch(entity_index, bodies@, radius, is_static),
            final(self).bodies() == old(self).bodies() + batch_bodies(
                entity_index,
                bodies@,
                radius,
                is_static,
            ),
    {
        let count: usize = bodies.len();
        let mut i: usize = 0;
        proof {
            assert(batch_bodies(entity_index, bodies@.take(0), radius, is_static) =~= Seq::<
                Body,
            >::empty());
            assert(self.bodies() =~= self.bodies() + Seq::<Body>::empty());
        }
        while i < count
            invariant
                i <= count,
                count == bodies@.len(),
                self.wf(),
                self@ == old(self)@.insert_batch(
                    entity_index,
                    bodies@.take(i as int),
                    radius,
                    is_static,
                ),
                self.bodies() == old(self).bodies() + batch_bodies(
                    entity_index,
                    bodies@.take(i as int),
                    radius,
                    is_static,
                ),
            decreases count - i,
        {
            proof {
                let next = batch_bodies(entity_index, bodies@.take(i + 1), radius, is_static);
                let done = batch_bodies(entity_index, bodies@.take(i as int), radius, is_static);
                assert(next.drop_last() =~= done);
                assert(next.last() == Body {
                    entity_index,
                    body_index: i,
                    pos: bodies@[i as int],
                    radius,
                    is_static,
                });
            }
            self.add_circle(entity_index, bodies[i], radius, i, is_static);
            proof {
                let next = batch_bodies(entity_index, bodies@.take(i + 1), radius, is_static);
                let done = batch_bodies(entity_index, bodies@.take(i as int), radius, is_static);
                assert(next =~= done.push(next.last()));
                assert(self.bodies() =~= old(self).bodies() + next);
            }
            i += 1;
        }
        proof {
            assert(bodies@.take(count as int) =~= bodies@);
        }
    }

    /// Adds a batch of static circles of one entity.
    pub fn add_static_circles(&mut self, entity_index: usize, bodies: Vec<Vector2>, radius: i32)
        requires
            old(self).wf(),
        ensures
            final(self).wf(),
            final(self)@ == old(self)@.insert_batch(entity_index, bodies@, radius, true),
            final(self).bodies() == old(self).bodies() + batch_bodies(
                entity_index,
                bodies@,
                radius,
                true,
            ),
    {
        self.add_circles(entity_index, &bodies, radius, true)
    }

    /// Adds a batch of dynamic circles of one entity.
    pub fn add_dynamic_circles(&mut self, entity_index: usize, bodies: Vec<Vector2>, radius: i32)
        requires
            old(self).wf(),
        ensures
            final(self).wf(),
            final(self)@ == old(self)@.insert_batch(entity_index, bodies@, radius, false),
            final(self).bodies() == old(self).bodies() + batch_bodies(
                entity_index,
                bodies@,
                radius,
                false,
            ),
    {
        self.add_circles(entity_index, &bodies, radius, false)
    }

    /// Adds to `out` the hits that `body` records against the buckets of its
    /// cell range.
    fn collect_hits(&self, body: &Body, out: &mut Vec<Collision>)
        requires
            self.wf(),
            old(out)@.no_duplicates(),
        ensures
            final(out)@.no_duplicates(),
            final(out)@.to_set() == old(out)@.to_set().union(self@.body_hits(*body)),
    {
        let range = self.get_grid_bounds(body.get_bounds());
        let order = self.covered_cells(range);
        let count: usize = order.len();
        let total: usize = self.grid.len();
        let ghost gather = |bucket: Seq<Body>| bucket_hits(*body, bucket);
        let mut k: usize = 0;
        proof {
            assert(swept(self@.cells, order@, 0, gather) =~= Set::<Collision>::empty());
            assert(out@.to_set() =~= old(out)@.to_set().union(Set::<Collision>::empty()));
        }
        while k < count
            invariant
                self.wf(),
                k <= count,
                count == order@.len(),
                total == self.grid@.len(),
                gather == |bucket: Seq<Body>| bucket_hits(*body, bucket),
                forall|i: usize| order@.contains(i) <==> self@.in_range(range, i as int),
                out@.no_duplicates(),
                out@.to_set() == old(out)@.to_set().union(
                    swept(self@.cells, order@, k as int, gather),
                ),
            decreases count - k,
        {
            let index: usize = order[k];
            assert(order@.contains(index));
            let bucket = &self.grid[index];
            let size: usize = bucket.len();
            let ghost base = out@.to_set();
            let mut j: usize = 0;
            proof {
                assert(bucket@.take(0) =~= Seq::<Body>::empty());
                assert(bucket_hits(*body, Seq::<Body>::empty()) =~= Set::<Collision>::empty());
                assert(out@.to_set() =~= base.union(bucket_hits(*body, bucket@.take(0))));
            }
            while j < size
                invariant
                    j <= size,
                    size == bucket@.len(),
                    out@.no_duplicates(),
                    out@.to_set() == base.union(bucket_hits(*body, bucket@.take(j as int))),
                decreases size - j,
            {
                let other = &bucket[j];
                proof {
                    lemma_bucket_hits_push(*body, bucket@.take(j as int), *other);
                    assert(bucket@.take(j + 1) =~= bucket@.take(j as int).push(*other));
                }
                if body.collided(other) {
                    let hit = Collision::new(
                        body.entity_index,
                        other.entity_index,
                        body.body_index,
                        other.body_index,
                    );
                    record(out, hit);
                    proof {
                        assert(out@.to_set() =~= base.union(
                            bucket_hits(*body, bucket@.take(j + 1)),
                        ));
                    }
                }
                j += 1;
            }
            proof {
                assert(bucket@.take(size as int) =~= bucket@);
                assert(self@.cells[index as int] == bucket@);
                lemma_swept_step(self@.cells, order@, k as int, gather);
                assert(gather(self@.cells[index as int]) == bucket_hits(*body, bucket@));
                assert(out@.to_set() =~= old(out)@.to_set().union(
                    swept(self@.cells, order@, k + 1, gather),
                ));
            }
            k += 1;
        }
        proof {
            lemma_swept_all(self@, range, order@, gather);
            assert(gathered(self@, range, gather) =~= self@.body_hits(*body));
        }
    }

    /// Every hit that a dynamic body records against a body filed under a
    /// cell of its range, each once. A contact of two dynamic bodies comes
    /// out twice, once from each side.
    pub fn get_collisions(&self) -> (found: Vec<Collision>)
        requires
            self.wf(),
        ensures
            found@.no_duplicates(),
            found@.to_set() == self@.collisions(),
            found@.to_set() == self@.meeting_pairs(self.bodies()),
            forall|i: int|
                0 <= i < found@.len() ==> (#[trigger] found@[i]).self_entity_index
                    != found@[i].other_entity_index,
    {
        let mut found: Vec<Collision> = Vec::new();
        let count: usize = self.dynamic_bodies.len();
        let mut k: usize = 0;
        proof {
            assert(found@.to_set() =~= self@.collisions_of_first(0));
        }
        while k < count
            invariant
                self.wf(),
                k <= count,
                count == self@.dynamic.len(),
                count == self.dynamic_bodies@.len(),
                found@.no_duplicates(),
                found@.to_set() == self@.collisions_of_first(k as int),
            decreases count - k,
        {
            let body = &self.dynamic_bodies[k];
            let ghost before = found@.to_set();
            self.collect_hits(body, &mut found);
            proof {
                assert(self@.dynamic[k as int] == *body);
                let next = self@.collisions_of_first(k + 1);
                let joined = before.union(self@.body_hits(*body));
                assert forall|c: Collision| next.contains(c) <==> joined.contains(c) by {
                    if next.contains(c) {
                        let w = choose|w: int|
                            0 <= w < k + 1 && w < self@.dynamic.len() && #[trigger] self@.body_hits(
                                self@.dynamic[w],
                            ).contains(c);
                        if w < k {
                            assert(before.contains(c));
                        }
                    }
                    if before.contains(c) {
                        let w = choose|w: int|
                            0 <= w < k && w < self@.dynamic.len() && #[trigger] self@.body_hits(
                                self@.dynamic[w],
                            ).contains(c);
                        assert(self@.body_hits(self@.dynamic[w]).contains(c));
                    }
                    if self@.body_hits(*body).contains(c) {
                        assert(self@.body_hits(self@.dynamic[k as int]).contains(c));
                    }
                }
                assert(next =~= joined);
            }
            k += 1;
        }
        proof {
            crate::laws::lemma_collisions_of_filed_bodies(
                self@.size,
                self@.cell_size,
                self.bodies(),
            );
            assert forall|i: int| 0 <= i < found@.len() implies (#[trigger] found@[i])
                .self_entity_index != found@[i].other_entity_index by {
                assert(found@.to_set().contains(found@[i]));
                crate::laws::lemma_no_self_collision(self@, found@[i]);
            }
        }
        found
    }

    /// The entities with a body filed under a cell of the range of the
    /// circle's bounding box. This is a coarse answer by cells: a body need
    /// not touch the circle to be named.
    pub fn get_collisions_within_area(&self, position: Vector2, radius: i32) -> (found: HashSet<
        usize,
    >)
        requires
            self.wf(),
        ensures
            found@ == self@.area_entities(position, radius),
            found@ == self@.near_entities(self.bodies(), position, radius),
    {
        broadcast use vstd::std_specs::hash::group_hash_axioms;

        let range = self.get_grid_bounds(bounds_of(position, radius));
        let order = self.covered_cells(range);
        let count: usize = order.len();
        let total: usize = self.grid.len();
        let ghost gather = |bucket: Seq<Body>| bucket_entities(bucket);
        let mut found: HashSet<usize> = HashSet::new();
        let mut k: usize = 0;
        proof {
            assert(found@ =~= swept(self@.cells, order@, 0, gather));
        }
        while k < count
            invariant
                self.wf(),
                k <= count,
                count == order@.len(),
                total == self.grid@.len(),
                gather == |bucket: Seq<Body>| bucket_entities(bucket),
                forall|i: usize| order@.contains(i) <==> self@.in_range(range, i as int),
                found@ == swept(self@.cells, order@, k as int, gather),
            decreases count - k,
        {
            let index: usize = order[k];
            assert(order@.contains(index));
            let bucket = &self.grid[index];
            let size: usize = bucket.len();
            let ghost base = found@;
            let mut j: usize = 0;
            proof {
                assert(bucket@.take(0) =~= Seq::<Body>::empty());
                assert(bucket_entities(Seq::<Body>::empty()) =~= Set::<usize>::empty());
                assert(found@ =~= base.union(bucket_entities(bucket@.take(0))));
            }
            while j < size
                invariant
                    j <= size,
                    size == bucket@.len(),
                    found@ == base.union(bucket_entities(bucket@.take(j as int))),
                decreases size - j,
            {
                let other = &bucket[j];
                proof {
                    lemma_bucket_entities_push(bucket@.take(j as int), *other);
                    assert(bucket@.take(j + 1) =~= bucket@.take(j as int).push(*other));
                }
                found.insert(other.entity_index);
                proof {
                    assert(found@ =~= base.union(bucket_entities(bucket@.take(j + 1))));
                }
                j += 1;
            }
            proof {
                assert(bucket@.take(size as int) =~= bucket@);
                assert(self@.cells[index as int] == bucket@);
                lemma_swept_step(self@.cells, order@, k as int, gather);
                assert(gather(self@.cells[index as int]) == bucket_entities(bucket@));
            }
            k += 1;
        }
        proof {
            lemma_swept_all(self@, range, order@, gather);
            assert(gathered(self@, range, gather) =~= self@.area_entities(position, radius));
            crate::laws::lemma_area_names_the_near_bodies(
                self@.size,
                self@.cell_size,
                self.bodies(),
                position,
                radius,
            );
        }
        found
    }
}

} // verus!
