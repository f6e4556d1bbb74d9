use game_engine::{MapElement, Point, RegionMap};

fn pt(x: i32, y: i32) -> Point {
    Point { x, y }
}

#[test]
fn new_region_map_is_empty() {
    let m = RegionMap::new();
    assert_eq!(m.len(), 0);
    assert_eq!(m.get(pt(0, 0)), None);
    assert!(!m.contains_key(pt(0, 0)));
    assert_eq!(m.to_vec(), vec![]);
}

#[test]
fn set_then_get() {
    let mut m = RegionMap::new();
    m.set(pt(3, 4), MapElement::Asteroid);
    assert_eq!(m.get(pt(3, 4)), Some(MapElement::Asteroid));
    assert_eq!(m.get(pt(4, 3)), None);
    assert!(m.contains_key(pt(3, 4)));
    assert!(!m.contains_key(pt(3, 5)));
    assert_eq!(m.len(), 1);
}

#[test]
fn set_on_an_occupied_cell_replaces() {
    let mut m = RegionMap::new();
    m.set(pt(3, 4), MapElement::Asteroid);
    m.set(pt(3, 4), MapElement::FuelPod);
    assert_eq!(m.len(), 1);
    assert_eq!(m.get(pt(3, 4)), Some(MapElement::FuelPod));
    m.set(pt(3, 4), MapElement::FuelPod);
    assert_eq!(m.len(), 1);
    m.set(pt(3, 4), MapElement::Asteroid);
    assert_eq!(m.get(pt(3, 4)), Some(MapElement::Asteroid));
}

#[test]
fn entries_ascend_by_x_then_y() {
    let mut m = RegionMap::new();
    m.set(pt(2, -1), MapElement::Asteroid);
    m.set(pt(-5, 9), MapElement::FuelPod);
    m.set(pt(2, -7), MapElement::FuelPod);
    m.set(pt(0, 0), MapElement::Asteroid);
    m.set(pt(2, 3), MapElement::Asteroid);
    assert_eq!(
        m.to_vec(),
        vec![
            (pt(-5, 9), MapElement::FuelPod),
            (pt(0, 0), MapElement::Asteroid),
            (pt(2, -7), MapElement::FuelPod),
            (pt(2, -1), MapElement::Asteroid),
            (pt(2, 3), MapElement::Asteroid),
        ]
    );
    assert_eq!(m.len(), 5);
}

#[test]
fn maps_with_the_same_contents_are_equal_whatever_the_order_of_insertion() {
    let cells = [pt(1, 1), pt(-1, 4), pt(7, 0), pt(1, -1), pt(0, 0), pt(i32::MIN, i32::MAX)];
    let mut forward = RegionMap::new();
    for (i, c) in cells.iter().enumerate() {
        forward.set(*c, if i % 2 == 0 { MapElement::Asteroid } else { MapElement::FuelPod });
    }
    let mut backward = RegionMap::new();
    for (i, c) in cells.iter().enumerate().rev() {
        backward.set(*c, if i % 2 == 0 { MapElement::Asteroid } else { MapElement::FuelPod });
    }
    assert_eq!(forward, backward);
    assert_eq!(forward.to_vec(), backward.to_vec());
    backward.set(pt(0, 0), MapElement::FuelPod);
    assert_ne!(forward, backward);
}

#[test]
fn every_cell_set_is_found_again() {
    let mut m = RegionMap::new();
    for x in (-10..10).rev() {
        for y in -10..10 {
            if (x + y) % 3 == 0 {
                m.set(pt(x, y), if x < 0 { MapElement::Asteroid } else { MapElement::FuelPod });
            }
        }
    }
    let mut count = 0;
    for x in -10..10 {
        for y in -10..10 {
            let expected = if (x + y) % 3 == 0 {
                count += 1;
                Some(if x < 0 { MapElement::Asteroid } else { MapElement::FuelPod })
            } else {
                None
            };
            assert_eq!(m.get(pt(x, y)), expected);
        }
    }
    assert_eq!(m.len(), count);
    let listed = m.to_vec();
    for pair in listed.windows(2) {
        assert!(pair[0].0 < pair[1].0);
    }
}

#[test]
fn clone_has_the_same_entries() {
    let mut m = RegionMap::new();
    m.set(pt(2, -1), MapElement::Asteroid);
    m.set(pt(-5, 9), MapElement::FuelPod);
    let copy = m.clone();
    assert_eq!(copy, m);
    m.set(pt(0, 0), MapElement::Asteroid);
    assert_eq!(copy.len(), 2);
    assert_eq!(m.len(), 3);
}
