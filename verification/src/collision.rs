use vstd::prelude::*;
use crate::geometry::Body;

verus! {

/// One directed hit: the body `self_body_index` of entity `self_entity_index`
/// found the body `other_body_index` of entity `other_entity_index`. The same
/// contact seen from the other body is a different value.
#[derive(Clone, Copy, Debug, PartialEq, Eq, Hash, Structural)]
pub struct Collision {
    pub self_entity_index: usize,
    pub other_entity_index: usize,
    pub self_body_index: usize,
    pub other_body_index: usize,
}

impl Collision {
    pub fn new(
        self_entity_index: usize,
        other_entity_index: usize,
        self_body_index: usize,
        other_body_index: usize,
    ) -> (c: Self)
        ensures
            c == (Collision {
                self_entity_index,
                other_entity_index,
                self_body_index,
                other_body_index,
            }),
    {
        Self { self_entity_index, other_entity_index, self_body_index, other_body_index }
    }

    /// The hit that `body` records when it finds `other`.
    pub open spec fn between(body: Body, other: Body) -> Collision {
        Collision {
            self_entity_index: body.entity_index,
            other_entity_index: other.entity_index,
            self_body_index: body.body_index,
            other_body_index: other.body_index,
        }
    }
}

} // verus!
