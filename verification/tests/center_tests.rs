use game_engine::center;
use game_engine::center::{can_calc, can_calc_center};
use game_engine::{calc_center, Error, Point};

#[test]
fn calc_of_twenty_in_bands_of_sixteen() {
    // div = 1, rem = 4, no correction: 17 * 1 + 8.
    assert_eq!(center::calc(20, 16), Ok(25));
}

#[test]
fn calc_corrects_the_quotient_when_it_exceeds_the_remainder() {
    // div = 1, rem = 0: the band below, 17 * 0 + 8.
    assert_eq!(center::calc(16, 16), Ok(8));
    // div = 2, rem = 1: 17 * 1 + 8.
    assert_eq!(center::calc(33, 16), Ok(25));
    // div = 2, rem = 2: no correction, 17 * 2 + 8.
    assert_eq!(center::calc(34, 16), Ok(42));
}

#[test]
fn calc_on_negative_coordinates_truncates_toward_zero() {
    // div = 0, rem = -1: corrected to the band below, 17 * -1 + 8.
    assert_eq!(center::calc(-1, 16), Ok(-9));
    // div = -1, rem = 0: no correction.
    assert_eq!(center::calc(-16, 16), Ok(-9));
    assert_eq!(center::calc(-17, 16), Ok(-9));
    // div = -1, rem = -2: corrected, 17 * -2 + 8.
    assert_eq!(center::calc(-18, 16), Ok(-26));
}

#[test]
fn calc_is_constant_on_a_band() {
    for x in 0..=16 {
        assert_eq!(center::calc(x, 16), Ok(8));
    }
    for x in 17..=33 {
        assert_eq!(center::calc(x, 16), Ok(25));
    }
    for x in -17..=-1 {
        assert_eq!(center::calc(x, 16), Ok(-9));
    }
}

#[test]
fn calc_of_a_centre_is_that_centre() {
    for x in -200..=200 {
        let c = center::calc(x, 16).unwrap();
        assert_eq!(center::calc(c, 16), Ok(c));
    }
}

#[test]
fn calc_leaves_the_band_of_its_result_far_from_the_origin() {
    // With bands of two, 8 is sent to 10 and 10 to 13.
    assert_eq!(center::calc(8, 2), Ok(10));
    assert_eq!(center::calc(10, 2), Ok(13));
}

#[test]
fn adjacent_band_centres_are_one_more_than_the_range_apart() {
    assert_eq!(center::calc(17, 16).unwrap() - center::calc(16, 16).unwrap(), 17);
    assert_eq!(center::calc(0, 16).unwrap() - center::calc(-1, 16).unwrap(), 17);
    assert_eq!(center::calc(-17, 16).unwrap() - center::calc(-18, 16).unwrap(), 17);
    assert_eq!(center::calc(34, 16).unwrap() - center::calc(33, 16).unwrap(), 17);
    assert_eq!(center::calc(3, 5).unwrap() - center::calc(-1, 5).unwrap(), 6);
}

#[test]
fn calc_with_odd_range_halves_toward_zero() {
    // 6 * 0 + 2.
    assert_eq!(center::calc(3, 5), Ok(2));
    // div = 1, rem = 2: 6 * 1 + 2.
    assert_eq!(center::calc(7, 5), Ok(8));
    assert_eq!(center::calc(0, 1), Ok(0));
    // div = 3, rem = 0: corrected, 2 * 2 + 0.
    assert_eq!(center::calc(3, 1), Ok(4));
}

#[test]
fn calc_refuses_a_range_that_is_not_positive() {
    assert_eq!(center::calc(20, 0), Err(Error::ConfigurationError));
    assert_eq!(center::calc(20, -16), Err(Error::ConfigurationError));
    assert_eq!(center::calc(0, i32::MIN), Err(Error::ConfigurationError));
}

#[test]
fn calc_near_the_limits() {
    assert!(can_calc(5, i32::MAX));
    assert_eq!(center::calc(5, i32::MAX), Ok(i32::MAX / 2));
    assert!(can_calc(i32::MIN, i32::MAX));
    // div = -1, rem = -1: no correction, -2^31 + (2^30 - 1).
    assert_eq!(center::calc(i32::MIN, i32::MAX), Ok(-1_073_741_825));
}

#[test]
fn can_calc_tells_when_the_centre_is_no_i32() {
    assert!(can_calc(20, 16));
    assert!(can_calc(-18, 16));
    // A size that is not positive is refused by `calc` itself.
    assert!(can_calc(20, 0));
    assert!(can_calc(i32::MAX, -1));
    // 2 * (2^31 - 2) is no i32.
    assert!(!can_calc(i32::MAX, 1));
    assert!(!can_calc(i32::MIN, 1));
    // 2 * 2^29 fits, 2 * 2^30 does not.
    assert!(can_calc(1 << 29, 1));
    assert!(!can_calc((1 << 30) + 1, 1));
}

#[test]
fn calc_center_maps_each_axis() {
    assert_eq!(calc_center(Point { x: 20, y: -18 }, 16), Ok(Point { x: 25, y: -26 }));
    assert_eq!(calc_center(Point { x: 0, y: 0 }, 16), Ok(Point { x: 8, y: 8 }));
    assert_eq!(calc_center(Point { x: 16, y: 17 }, 16), Ok(Point { x: 8, y: 25 }));
}

#[test]
fn calc_center_agrees_with_calc() {
    for x in -40..40 {
        for y in -40..40 {
            let c = calc_center(Point { x, y }, 7).unwrap();
            assert_eq!(Ok(c.x), center::calc(x, 7));
            assert_eq!(Ok(c.y), center::calc(y, 7));
        }
    }
}

#[test]
fn calc_center_refuses_a_range_that_is_not_positive() {
    assert_eq!(calc_center(Point { x: 1, y: 2 }, 0), Err(Error::ConfigurationError));
    assert_eq!(calc_center(Point { x: 1, y: 2 }, -3), Err(Error::ConfigurationError));
}

#[test]
fn can_calc_center_asks_both_axes() {
    assert!(can_calc_center(Point { x: 20, y: -18 }, 16));
    assert!(!can_calc_center(Point { x: 20, y: i32::MAX }, 1));
    assert!(!can_calc_center(Point { x: i32::MIN, y: 0 }, 1));
    assert!(can_calc_center(Point { x: i32::MAX, y: i32::MIN }, 0));
}
