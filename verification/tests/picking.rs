use scope::drawstyles::{find_min, pick};

fn level(x: f64) -> Option<i64> {
    if x.is_nan() {
        None
    } else {
        let bits = (x + 0.0).to_bits() as i64;
        Some(bits ^ ((((bits >> 63) as u64) >> 1) as i64))
    }
}

#[test]
fn pick_returns_the_nearest_within_the_threshold() {
    let distances = vec![level(5.0), level(1.0), level(9.0)];
    assert_eq!(pick(&distances, level(2.0)), Some(1));
}

#[test]
fn pick_returns_nothing_beyond_the_threshold() {
    let distances = vec![level(5.0), level(1.0), level(9.0)];
    assert_eq!(pick(&distances, level(0.5)), None);
}

#[test]
fn pick_takes_a_distance_equal_to_the_threshold() {
    let distances = vec![level(5.0), level(1.0), level(9.0)];
    assert_eq!(pick(&distances, level(1.0)), Some(1));
}

#[test]
fn pick_takes_the_first_of_equal_distances() {
    let distances = vec![level(3.0), level(0.25), level(0.25), level(7.0)];
    assert_eq!(pick(&distances, level(1.0)), Some(1));
}

#[test]
fn pick_of_nothing_is_nothing() {
    assert_eq!(pick(&Vec::new(), level(1.0)), None);
    assert_eq!(pick(&vec![None, None], level(1.0)), None);
    assert_eq!(pick(&vec![level(0.0)], None), None);
}

#[test]
fn pick_skips_what_is_no_distance() {
    let distances = vec![None, level(0.5), None, level(0.1)];
    assert_eq!(pick(&distances, level(2.0)), Some(3));
}

#[test]
fn find_min_gives_place_and_distance() {
    let distances = vec![level(5.0), level(1.0), level(9.0)];
    assert_eq!(find_min(&distances), (Some(1), level(1.0)));
    assert_eq!(find_min(&Vec::new()), (None, None));
}
