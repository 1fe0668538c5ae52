use vstd::prelude::*;

verus! {

/// Number of coordinate steps in one world unit.
pub const UNIT: i32 = 1024;

/// A point of the plane, in coordinate steps (`UNIT` steps per world unit).
#[derive(Clone, Copy, Debug, PartialEq, Eq, Structural)]
pub struct Vector2 {
    pub x: i32,
    pub y: i32,
}

impl Vector2 {
    pub fn new(x: i32, y: i32) -> (v: Self)
        ensures
            v == (Vector2 { x, y }),
    {
        Self { x, y }
    }
}

/// Squared Euclidean distance between two points.
pub open spec fn distance_squared(a: Vector2, b: Vector2) -> int {
    (a.x - b.x) * (a.x - b.x) + (a.y - b.y) * (a.y - b.y)
}

/// Square of the sum of two radii.
pub open spec fn reach_squared(r1: i32, r2: i32) -> int {
    (r1 + r2) * (r1 + r2)
}

/// The axis-aligned box around a circle: `(min_x, max_x, min_y, max_y)`.
pub open spec fn circle_bounds(pos: Vector2, radius: i32) -> (i64, i64, i64, i64) {
    (
        (pos.x - radius) as i64,
        (pos.x + radius) as i64,
        (pos.y - radius) as i64,
        (pos.y + radius) as i64,
    )
}

/// Computes the box around a circle.
pub fn bounds_of(pos: Vector2, radius: i32) -> (bounds: (i64, i64, i64, i64))
    ensures
        bounds == circle_bounds(pos, radius),
        bounds.0 == pos.x - radius,
        bounds.1 == pos.x + radius,
        bounds.2 == pos.y - radius,
        bounds.3 == pos.y + radius,
{
    (
        pos.x as i64 - radius as i64,
        pos.x as i64 + radius as i64,
        pos.y as i64 - radius as i64,
        pos.y as i64 + radius as i64,
    )
}

/// One circle of one entity. `body_index` tells the circles of an entity
/// apart; a static body is an obstacle that never starts a contact itself.
#[derive(Clone, Copy, Debug, PartialEq, Eq, Structural)]
pub struct Body {
    pub entity_index: usize,
    pub body_index: usize,
    pub pos: Vector2,
    pub radius: i32,
    pub is_static: bool,
}

impl Body {
    pub fn new(
        entity_index: usize,
        body_index: usize,
        pos: Vector2,
        radius: i32,
        is_static: bool,
    ) -> (body: Self)
        ensures
            body == (Body { entity_index, body_index, pos, radius, is_static }),
    {
        Self { entity_index, body_index, pos, radius, is_static }
    }

    /// Whether `self` hits `other`: never for a static `self`, never within one
    /// entity, and otherwise exactly when the centers are no farther apart than
    /// the sum of the radii (touching counts).
    pub open spec fn spec_collided(self, other: Body) -> bool {
        &&& !self.is_static
        &&& self.entity_index != other.entity_index
        &&& distance_squared(self.pos, other.pos) <= reach_squared(self.radius, other.radius)
    }

    pub fn collided(&self, other: &Body) -> (hit: bool)
        ensures
            hit == self.spec_collided(*other),
            self.is_static ==> !hit,
            self.entity_index == other.entity_index ==> !hit,
    {
        if self.is_static {
            return false;
        }
        if self.entity_index == other.entity_index {
            return false;
        }
        let dx: i128 = self.pos.x as i128 - other.pos.x as i128;
        let dy: i128 = self.pos.y as i128 - other.pos.y as i128;
        let reach: i128 = self.radius as i128 + other.radius as i128;
        proof {
            lemma_square_bound(dx as int);
            lemma_square_bound(dy as int);
            lemma_square_bound(reach as int);
        }
        dx * dx + dy * dy <= reach * reach
    }

    /// The axis-aligned box around the circle.
    pub open spec fn spec_bounds(self) -> (i64, i64, i64, i64) {
        circle_bounds(self.pos, self.radius)
    }

    pub fn get_bounds(&self) -> (bounds: (i64, i64, i64, i64))
        ensures
            bounds == self.spec_bounds(),
    {
        bounds_of(self.pos, self.radius)
    }
}

proof fn lemma_square_bound(v: int)
    requires
        -0x1_0000_0000 <= v <= 0x1_0000_0000,
    ensures
        0 <= v * v <= 0x1_0000_0000_0000_0000,
{
    assert(0 <= v * v <= 0x1_0000_0000_0000_0000) by (nonlinear_arith)
        requires
            -0x1_0000_0000 <= v <= 0x1_0000_0000,
    ;
}

} // verus!
