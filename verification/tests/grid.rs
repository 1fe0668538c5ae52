use radyx::{Body, Collision, GridError, GridPhysics, Vector2, UNIT};
use std::collections::HashSet;

fn steps(v: f32) -> i32 {
    (v * UNIT as f32).round() as i32
}

fn point(x: f32, y: f32) -> Vector2 {
    Vector2::new(steps(x), steps(y))
}

fn grid(size: usize, cell_size: usize) -> GridPhysics {
    match GridPhysics::new(size, cell_size) {
        Ok(grid) => grid,
        Err(e) => panic!("grid refused: {:?}", e),
    }
}

fn as_set(found: &[Collision]) -> HashSet<(usize, usize, usize, usize)> {
    found
        .iter()
        .map(|c| {
            (
                c.self_entity_index,
                c.other_entity_index,
                c.self_body_index,
                c.other_body_index,
            )
        })
        .collect()
}

#[test]
fn check_dynamic_collisions() {
    let mut grid = GridPhysics::new(100, 10).ok().expect("even cells");
    grid.add_dynamic_circles(
        0,
        vec![
            point(5.0, 5.0),
            point(5.0, 5.5),
            point(5.0, 6.0),
            point(5.0, 6.5),
        ],
        steps(1.0),
    );
    grid.add_dynamic_circles(
        1,
        vec![
            point(5.0, 8.5),
            point(5.0, 9.0),
            point(5.0, 9.5),
            point(5.0, 10.0),
        ],
        steps(1.0),
    );

    let collisions = grid.get_collisions();
    assert_eq!(collisions.len(), 2);
    for collision in collisions.iter() {
        println!(
            "Self: {}, Other: {}, Self Body: {}, Other Body: {}",
            collision.self_entity_index,
            collision.other_entity_index,
            collision.self_body_index,
            collision.other_body_index
        );
    }
    assert!(collisions.contains(&Collision::new(1, 0, 0, 3)));
    assert!(collisions.contains(&Collision::new(0, 1, 3, 0)));
}

#[test]
fn unit_is_1024_steps() {
    assert_eq!(UNIT, 1024);
    assert_eq!(steps(5.5), 5632);
}

#[test]
fn vector_keeps_its_coordinates() {
    let v = Vector2::new(-3, 7);
    assert_eq!(v.x, -3);
    assert_eq!(v.y, 7);
}

#[test]
fn collision_keeps_its_fields_in_order() {
    let c = Collision::new(1, 2, 3, 4);
    assert_eq!(c.self_entity_index, 1);
    assert_eq!(c.other_entity_index, 2);
    assert_eq!(c.self_body_index, 3);
    assert_eq!(c.other_body_index, 4);
}

#[test]
fn collision_differs_from_its_mirror() {
    assert_ne!(Collision::new(0, 1, 3, 0), Collision::new(1, 0, 0, 3));
    assert_eq!(Collision::new(0, 1, 3, 0), Collision::new(0, 1, 3, 0));
    assert_ne!(Collision::new(0, 1, 3, 0), Collision::new(0, 1, 0, 3));
}

#[test]
fn overlapping_dynamic_bodies_hit_each_other() {
    let a = Body::new(0, 0, Vector2::new(0, 0), 10, false);
    let b = Body::new(1, 0, Vector2::new(12, 9), 5, false);
    assert!(a.collided(&b));
    assert!(b.collided(&a));
}

#[test]
fn bodies_apart_do_not_hit() {
    let a = Body::new(0, 0, Vector2::new(0, 0), 10, false);
    let b = Body::new(1, 0, Vector2::new(12, 10), 5, false);
    // 144 + 100 = 244 > 225
    assert!(!a.collided(&b));
    assert!(!b.collided(&a));
}

#[test]
fn touching_bodies_hit() {
    // distance 5 (3-4-5), radii 2 and 3
    let a = Body::new(0, 0, Vector2::new(0, 0), 2, false);
    let b = Body::new(1, 0, Vector2::new(3, 4), 3, false);
    assert!(a.collided(&b));
    assert!(b.collided(&a));
    let c = Body::new(1, 0, Vector2::new(3, 4), 2, false);
    assert!(!a.collided(&c));
}

#[test]
fn static_body_never_hits() {
    let wall = Body::new(0, 0, Vector2::new(0, 0), 10, true);
    let ball = Body::new(1, 0, Vector2::new(0, 0), 10, false);
    assert!(!wall.collided(&ball));
    assert!(ball.collided(&wall));
    let other_wall = Body::new(2, 0, Vector2::new(1, 1), 10, true);
    assert!(!wall.collided(&other_wall));
}

#[test]
fn bodies_of_one_entity_do_not_hit() {
    let a = Body::new(4, 0, Vector2::new(0, 0), 10, false);
    let b = Body::new(4, 1, Vector2::new(1, 1), 10, false);
    assert!(!a.collided(&b));
    assert!(!b.collided(&a));
}

#[test]
fn far_corners_do_not_overflow() {
    let a = Body::new(0, 0, Vector2::new(i32::MIN, i32::MIN), i32::MAX, false);
    let b = Body::new(1, 0, Vector2::new(i32::MAX, i32::MAX), i32::MAX, false);
    // distance squared is 2 * (2^32 - 1)^2, reach squared is (2^32 - 2)^2
    assert!(!a.collided(&b));
    let c = Body::new(1, 0, Vector2::new(i32::MIN, i32::MAX), i32::MAX, false);
    // distance 2^32 - 1 exceeds the reach 2^32 - 2 by one step
    assert!(!a.collided(&c));
    let d = Body::new(1, 0, Vector2::new(i32::MIN, i32::MAX - 1), i32::MAX, false);
    assert!(a.collided(&d));
}

#[test]
fn bounds_are_center_plus_and_minus_radius() {
    let body = Body::new(0, 0, Vector2::new(100, -40), 30, false);
    assert_eq!(body.get_bounds(), (70, 130, -70, -10));
    let wide = Body::new(0, 0, Vector2::new(i32::MAX, i32::MIN), i32::MAX, false);
    assert_eq!(
        wide.get_bounds(),
        (0, 2 * (i32::MAX as i64), i32::MIN as i64 - i32::MAX as i64, -1)
    );
}

#[test]
fn new_rejects_zero_cell_size() {
    assert_eq!(GridPhysics::new(100, 0).err(), Some(GridError::ZeroCellSize));
    assert_eq!(GridPhysics::new(0, 0).err(), Some(GridError::ZeroCellSize));
}

#[test]
fn new_rejects_zero_size() {
    assert_eq!(GridPhysics::new(0, 10).err(), Some(GridError::ZeroSize));
}

#[test]
fn new_rejects_uneven_cells() {
    assert_eq!(GridPhysics::new(100, 30).err(), Some(GridError::UnevenCells));
    assert_eq!(GridPhysics::new(5, 10).err(), Some(GridError::UnevenCells));
}

#[test]
fn new_rejects_too_many_cells() {
    assert_eq!(GridPhysics::new(usize::MAX, 1).err(), Some(GridError::TooManyCells));
}

#[test]
fn new_accepts_even_cells() {
    assert!(GridPhysics::new(100, 10).is_ok());
    assert!(GridPhysics::new(10, 10).is_ok());
}

#[test]
fn cell_range_rounds_lower_down_and_upper_up() {
    let grid = grid(100, 10);
    // 4..6 world units by 5.5..7.5
    let range = grid.get_grid_bounds((4096, 6144, 5632, 7680));
    assert_eq!(range, (0, 1, 0, 1));
    // 14..26 by 30.5..49.5
    let range = grid.get_grid_bounds((14 * 1024, 26 * 1024, 31232, 50688));
    assert_eq!(range, (1, 3, 3, 5));
}

#[test]
fn cell_range_of_negative_bounds() {
    let grid = grid(100, 10);
    // -15..-5 by -0.001..0.001
    let range = grid.get_grid_bounds((-15360, -5120, -1, 1));
    assert_eq!(range, (-2, 0, -1, 1));
    let range = grid.get_grid_bounds((-10240, -10240, -20480, -10241));
    assert_eq!(range, (-1, -1, -2, -1));
}

#[test]
fn cell_range_of_extreme_bounds() {
    let grid = grid(1, 1);
    let range = grid.get_grid_bounds((i64::MIN, i64::MAX, -1024, 1024));
    assert_eq!(range, (-(1i64 << 53), 1i64 << 53, -1, 1));
}

#[test]
fn upper_edge_on_a_boundary_takes_both_cells() {
    let grid = grid(100, 10);
    // 8..10 world units: the edge at 10 parts cell 0 from cell 1
    let range = grid.get_grid_bounds((8192, 10240, 18432, 20480));
    assert_eq!(range, (0, 1, 1, 2));
}

#[test]
fn lower_edge_on_a_boundary_starts_at_its_cell() {
    let grid = grid(100, 10);
    let range = grid.get_grid_bounds((10240, 12288, 10240, 12288));
    assert_eq!(range, (1, 2, 1, 2));
}

#[test]
fn body_on_a_boundary_is_found_from_both_sides() {
    let mut grid = grid(100, 10);
    // reaches from 8 to 10, so it is filed under columns 0 and 1
    grid.add_static_circle(7, point(9.0, 5.0), steps(1.0));
    let left = grid.get_collisions_within_area(point(2.0, 5.0), steps(1.0));
    let right = grid.get_collisions_within_area(point(15.0, 5.0), steps(1.0));
    let far = grid.get_collisions_within_area(point(25.0, 5.0), steps(1.0));
    assert!(left.contains(&7));
    assert!(right.contains(&7));
    assert!(far.is_empty());
}

#[test]
fn static_bodies_are_hit_but_do_not_hit() {
    let mut grid = grid(100, 10);
    grid.add_static_circle(9, point(50.0, 50.0), steps(2.0));
    grid.add_dynamic_circle(3, point(51.0, 50.0), steps(2.0));
    let found = grid.get_collisions();
    assert_eq!(found.len(), 1);
    assert_eq!(found[0], Collision::new(3, 9, 0, 0));
}

#[test]
fn overlapping_static_bodies_give_nothing() {
    let mut grid = grid(100, 10);
    grid.add_static_circle(1, point(50.0, 50.0), steps(2.0));
    grid.add_static_circle(2, point(50.0, 50.0), steps(2.0));
    assert!(grid.get_collisions().is_empty());
}

#[test]
fn add_circle_registers_dynamic_bodies() {
    let mut grid = grid(100, 10);
    grid.add_circle(1, point(50.0, 50.0), steps(2.0), 5, false);
    grid.add_circle(2, point(51.0, 50.0), steps(2.0), 6, true);
    let found = grid.get_collisions();
    assert_eq!(found, vec![Collision::new(1, 2, 5, 6)]);
}

#[test]
fn a_pair_sharing_many_cells_is_reported_once_each_way() {
    let mut grid = grid(100, 10);
    grid.add_dynamic_circle(0, point(50.0, 50.0), steps(25.0));
    grid.add_dynamic_circle(1, point(55.0, 55.0), steps(25.0));
    let found = grid.get_collisions();
    assert_eq!(found.len(), 2);
    let set = as_set(&found);
    assert!(set.contains(&(0, 1, 0, 0)));
    assert!(set.contains(&(1, 0, 0, 0)));
}

#[test]
fn no_hit_names_one_entity_twice() {
    let mut grid = grid(100, 10);
    grid.add_dynamic_circles(0, vec![point(50.0, 50.0), point(50.5, 50.0)], steps(2.0));
    grid.add_dynamic_circles(1, vec![point(51.0, 50.0), point(51.5, 50.0)], steps(2.0));
    let found = grid.get_collisions();
    assert_eq!(found.len(), 8);
    for c in found.iter() {
        assert_ne!(c.self_entity_index, c.other_entity_index);
    }
}

#[test]
fn batch_gives_each_body_its_place_as_index() {
    let mut grid = grid(100, 10);
    grid.add_static_circles(
        5,
        vec![point(10.0, 10.0), point(50.0, 50.0), point(90.0, 90.0)],
        steps(1.0),
    );
    grid.add_dynamic_circles(6, vec![point(30.0, 30.0), point(90.0, 91.0)], steps(1.0));
    let found = grid.get_collisions();
    assert_eq!(found, vec![Collision::new(6, 5, 1, 2)]);
}

#[test]
fn empty_batch_changes_nothing() {
    let mut grid = grid(100, 10);
    grid.add_dynamic_circles(6, vec![], steps(1.0));
    grid.add_static_circles(7, vec![], steps(1.0));
    assert!(grid.get_collisions().is_empty());
    assert!(grid.get_collisions_within_area(point(50.0, 50.0), steps(100.0)).is_empty());
}

#[test]
fn reset_then_same_bodies_gives_same_hits() {
    let mut grid = grid(100, 10);
    let fill = |grid: &mut GridPhysics| {
        grid.add_static_circle(9, point(20.0, 20.0), steps(3.0));
        grid.add_dynamic_circles(0, vec![point(21.0, 20.0), point(40.0, 40.0)], steps(2.0));
        grid.add_dynamic_circle(1, point(41.0, 41.0), steps(2.0));
    };
    fill(&mut grid);
    let first = grid.get_collisions();
    grid.reset();
    fill(&mut grid);
    let second = grid.get_collisions();
    assert_eq!(first.len(), 3);
    assert_eq!(as_set(&first), as_set(&second));
    assert_eq!(first, second);
}

#[test]
fn reset_drops_static_and_dynamic_bodies() {
    let mut grid = grid(100, 10);
    grid.add_static_circle(9, point(20.0, 20.0), steps(3.0));
    grid.add_dynamic_circle(1, point(21.0, 20.0), steps(3.0));
    assert_eq!(grid.get_collisions().len(), 1);
    grid.reset();
    assert!(grid.get_collisions().is_empty());
    assert!(grid.get_collisions_within_area(point(20.0, 20.0), steps(5.0)).is_empty());
    grid.add_dynamic_circle(1, point(21.0, 20.0), steps(3.0));
    assert!(grid.get_collisions().is_empty());
}

#[test]
fn area_names_static_and_dynamic_entities_by_cell() {
    let mut grid = grid(100, 10);
    grid.add_static_circle(1, point(15.0, 15.0), steps(1.0));
    grid.add_dynamic_circle(2, point(35.0, 15.0), steps(1.0));
    grid.add_dynamic_circle(3, point(75.0, 75.0), steps(1.0));
    // entity 1 is filed under columns 1 and 2, entity 2 under columns 3 and 4
    let found = grid.get_collisions_within_area(point(45.0, 15.0), steps(4.0));
    // the circle reaches from 41 to 49: columns 4 and 5, rows 1 and 2
    let expected: HashSet<usize> = [2].into_iter().collect();
    assert_eq!(found, expected);
    let found = grid.get_collisions_within_area(point(25.0, 15.0), steps(4.0));
    // from 21 to 29: columns 2 and 3
    let expected: HashSet<usize> = [1, 2].into_iter().collect();
    assert_eq!(found, expected);
    let found = grid.get_collisions_within_area(point(45.0, 35.0), steps(4.0));
    // rows 3 and 4 hold nothing
    assert!(found.is_empty());
}

#[test]
fn area_may_name_a_body_that_the_circle_does_not_touch() {
    let mut grid = grid(100, 10);
    grid.add_static_circle(4, point(58.0, 58.0), steps(1.0));
    let found = grid.get_collisions_within_area(point(51.0, 51.0), steps(0.5));
    assert!(found.contains(&4));
}

#[test]
fn area_names_an_entity_once() {
    let mut grid = grid(100, 10);
    grid.add_dynamic_circles(8, vec![point(50.0, 50.0), point(52.0, 52.0)], steps(12.0));
    let found = grid.get_collisions_within_area(point(50.0, 50.0), steps(30.0));
    assert_eq!(found.len(), 1);
    assert!(found.contains(&8));
}

#[test]
fn body_outside_the_world_is_not_filed() {
    let mut grid = grid(100, 10);
    grid.add_dynamic_circle(0, point(-50.0, -50.0), steps(2.0));
    grid.add_dynamic_circle(1, point(-50.0, -49.0), steps(2.0));
    grid.add_dynamic_circle(2, point(150.0, 50.0), steps(2.0));
    grid.add_dynamic_circle(3, point(151.0, 50.0), steps(2.0));
    assert!(grid.get_collisions().is_empty());
    assert!(grid.get_collisions_within_area(point(50.0, 50.0), steps(500.0)).is_empty());
}

#[test]
fn body_partly_outside_is_filed_under_the_cells_inside() {
    let mut grid = grid(100, 10);
    grid.add_dynamic_circle(0, point(-1.0, 5.0), steps(3.0));
    grid.add_dynamic_circle(1, point(1.0, 5.0), steps(3.0));
    let found = grid.get_collisions();
    assert_eq!(as_set(&found), [(0, 1, 0, 0), (1, 0, 0, 0)].into_iter().collect());
    // row 9 of column 0 and row 0 of column 1 are neighbours in storage only
    let mut grid = grid_with_edge_bodies();
    assert!(grid.get_collisions().is_empty());
    grid.reset();
}

fn grid_with_edge_bodies() -> GridPhysics {
    let mut grid = grid(100, 10);
    grid.add_dynamic_circle(0, point(5.0, 101.0), steps(3.0));
    grid.add_dynamic_circle(1, point(15.0, -1.0), steps(3.0));
    grid
}

#[test]
fn huge_circle_covers_the_whole_grid() {
    let mut grid = grid(100, 10);
    grid.add_static_circle(1, point(95.0, 95.0), steps(1.0));
    grid.add_dynamic_circle(2, Vector2::new(0, 0), i32::MAX);
    let found = grid.get_collisions();
    assert_eq!(found, vec![Collision::new(2, 1, 0, 0)]);
    // the query reaches column 0 from the left and every row from below
    let seen = grid.get_collisions_within_area(Vector2::new(i32::MIN, i32::MAX), i32::MAX);
    let expected: HashSet<usize> = [2].into_iter().collect();
    assert_eq!(seen, expected);
    let seen = grid.get_collisions_within_area(Vector2::new(i32::MIN, i32::MIN), i32::MAX);
    assert_eq!(seen, expected);
    // an upper edge 10239 steps below zero still rounds up to cell 0
    let seen = grid.get_collisions_within_area(Vector2::new(i32::MIN, i32::MIN), i32::MAX - 10238);
    assert_eq!(seen, expected);
    // one step lower it lies on the line below cell -1
    let seen = grid.get_collisions_within_area(Vector2::new(i32::MIN, i32::MIN), i32::MAX - 10239);
    assert!(seen.is_empty());
}

#[test]
fn contact_across_a_cell_line_is_found() {
    let mut grid = grid(100, 10);
    // the two circles touch at x = 10, on the line between columns 0 and 1
    grid.add_dynamic_circle(0, point(9.5, 5.0), steps(0.5));
    grid.add_dynamic_circle(1, point(10.5, 5.0), steps(0.5));
    // one step short of touching
    grid.add_dynamic_circle(2, Vector2::new(steps(11.5) + 1, steps(5.0)), steps(0.5));
    let found = grid.get_collisions();
    assert_eq!(as_set(&found), [(0, 1, 0, 0), (1, 0, 0, 0)].into_iter().collect());
}

#[test]
fn contact_in_the_last_cell_is_found() {
    let mut grid = grid(100, 10);
    grid.add_dynamic_circle(0, point(99.0, 99.0), steps(3.0));
    grid.add_static_circle(1, point(99.5, 99.5), steps(3.0));
    let found = grid.get_collisions();
    assert_eq!(found, vec![Collision::new(0, 1, 0, 0)]);
}

#[test]
fn single_cell_grid_holds_everything() {
    let mut grid = grid(10, 10);
    grid.add_dynamic_circle(0, point(1.0, 1.0), steps(1.0));
    grid.add_dynamic_circle(1, point(9.0, 9.0), steps(1.0));
    assert!(grid.get_collisions().is_empty());
    let seen = grid.get_collisions_within_area(point(5.0, 5.0), steps(0.25));
    let expected: HashSet<usize> = [0, 1].into_iter().collect();
    assert_eq!(seen, expected);
}
