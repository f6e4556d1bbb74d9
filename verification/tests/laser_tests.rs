use game_engine::laser::can_trace;
use game_engine::{get_laser_collisions, Direction, Error, Point};

fn pt(x: i32, y: i32) -> Point {
    Point { x, y }
}

#[test]
fn laser_east_from_five_five() {
    assert_eq!(
        get_laser_collisions(pt(5, 5), 2, 3),
        Ok(vec![pt(5, 5), pt(6, 5), pt(7, 5), pt(8, 5)])
    );
}

#[test]
fn laser_north_east_from_origin() {
    assert_eq!(get_laser_collisions(pt(0, 0), 1, 2), Ok(vec![pt(0, 0), pt(1, 1), pt(2, 2)]));
}

#[test]
fn laser_unknown_direction_fails() {
    assert_eq!(get_laser_collisions(pt(5, 5), 8, 1), Err(Error::UnknownDirection));
    assert_eq!(get_laser_collisions(pt(0, 0), u32::MAX, 0), Err(Error::UnknownDirection));
    // No partial result, and no look at the range either.
    assert_eq!(get_laser_collisions(pt(i32::MAX, i32::MAX), 9, i32::MAX), Err(Error::UnknownDirection));
    assert_eq!(get_laser_collisions(pt(0, 0), 8, -1), Err(Error::UnknownDirection));
}

#[test]
fn laser_follows_each_of_the_eight_step_vectors() {
    let steps = [(0, 1), (1, 1), (1, 0), (1, -1), (0, -1), (-1, -1), (-1, 0), (-1, 1)];
    for (ordinal, (dx, dy)) in steps.iter().enumerate() {
        let cells = get_laser_collisions(pt(10, -4), ordinal as u32, 3).unwrap();
        assert_eq!(cells.len(), 4);
        for (n, cell) in cells.iter().enumerate() {
            assert_eq!(*cell, pt(10 + n as i32 * dx, -4 + n as i32 * dy));
        }
    }
}

#[test]
fn laser_of_range_zero_is_the_origin_alone() {
    for ordinal in 0..8 {
        assert_eq!(get_laser_collisions(pt(-3, 7), ordinal, 0), Ok(vec![pt(-3, 7)]));
    }
}

#[test]
fn laser_of_negative_range_is_empty() {
    assert_eq!(get_laser_collisions(pt(1, 1), 4, -1), Ok(vec![]));
    assert_eq!(get_laser_collisions(pt(1, 1), 0, i32::MIN), Ok(vec![]));
}

#[test]
fn laser_has_one_cell_more_than_its_range_and_starts_at_the_origin() {
    for range in 0..40 {
        let cells = get_laser_collisions(pt(2, 3), 5, range).unwrap();
        assert_eq!(cells.len() as i32, range + 1);
        assert_eq!(cells[0], pt(2, 3));
        assert_eq!(cells[range as usize], pt(2 - range, 3 - range));
    }
}

#[test]
fn laser_reaches_the_edge_of_the_grid() {
    assert!(can_trace(pt(i32::MAX - 2, 0), 2, 2));
    assert_eq!(
        get_laser_collisions(pt(i32::MAX - 2, 0), 2, 2),
        Ok(vec![pt(i32::MAX - 2, 0), pt(i32::MAX - 1, 0), pt(i32::MAX, 0)])
    );
    assert!(can_trace(pt(0, i32::MIN + 1), 4, 1));
    assert_eq!(
        get_laser_collisions(pt(0, i32::MIN + 1), 4, 1),
        Ok(vec![pt(0, i32::MIN + 1), pt(0, i32::MIN)])
    );
}

#[test]
fn can_trace_tells_when_the_ray_leaves_the_grid() {
    assert!(can_trace(pt(5, 5), 2, 3));
    assert!(!can_trace(pt(i32::MAX - 2, 0), 2, 3));
    assert!(!can_trace(pt(0, i32::MIN), 3, 1));
    assert!(can_trace(pt(i32::MAX, i32::MIN), 0, 5));
    assert!(!can_trace(pt(i32::MAX, i32::MAX), 0, 1));
    // An unknown direction and a negative range are answered without a ray.
    assert!(can_trace(pt(i32::MAX, i32::MAX), 8, i32::MAX));
    assert!(can_trace(pt(i32::MAX, i32::MAX), 1, -1));
    assert!(can_trace(pt(0, 0), 1, i32::MAX));
    assert!(!can_trace(pt(1, 0), 1, i32::MAX));
}

#[test]
fn direction_from_ordinal_knows_eight_directions() {
    let all = [
        Direction::N,
        Direction::NE,
        Direction::E,
        Direction::SE,
        Direction::S,
        Direction::SW,
        Direction::W,
        Direction::NW,
    ];
    for (ordinal, d) in all.iter().enumerate() {
        assert_eq!(Direction::from_ordinal(ordinal as u32), Ok(*d));
        assert_eq!(d.ordinal(), ordinal as u32);
    }
    assert_eq!(Direction::from_ordinal(8), Err(Error::UnknownDirection));
    assert_eq!(Direction::from_ordinal(u32::MAX), Err(Error::UnknownDirection));
}

#[test]
fn direction_steps_are_the_compass_vectors() {
    assert_eq!(Direction::N.step(), (0, 1));
    assert_eq!(Direction::NE.step(), (1, 1));
    assert_eq!(Direction::E.step(), (1, 0));
    assert_eq!(Direction::SE.step(), (1, -1));
    assert_eq!(Direction::S.step(), (0, -1));
    assert_eq!(Direction::SW.step(), (-1, -1));
    assert_eq!(Direction::W.step(), (-1, 0));
    assert_eq!(Direction::NW.step(), (-1, 1));
}
