use scope::axes::{Axes, Point, D1, D2, D3};
use scope::drawstyles::get_range;
use scope::level::{is_above, lower, upper, LEVEL_ONE, LEVEL_ZERO};
use scope::range::{Range, RangedDeque};

fn level(x: f64) -> Option<i64> {
    if x.is_nan() {
        None
    } else {
        let bits = (x + 0.0).to_bits() as i64;
        Some(bits ^ ((((bits >> 63) as u64) >> 1) as i64))
    }
}

fn brute_force(points: &[[f64; 3]]) -> (Vec<Option<i64>>, Vec<Option<i64>>) {
    let mut min = vec![f64::NAN; 3];
    let mut max = vec![f64::NAN; 3];
    for p in points {
        for i in 0..3 {
            min[i] = min[i].min(p[i]);
            max[i] = max[i].max(p[i]);
        }
    }
    (min.into_iter().map(level).collect(), max.into_iter().map(level).collect())
}

fn filled(points: &[[f64; 3]]) -> RangedDeque<D2> {
    let mut buffer = RangedDeque::<D2>::new();
    for p in points {
        buffer.push(Point::new(D2([level(p[0]), level(p[1]), level(p[2])])));
    }
    buffer
}

#[test]
fn keys_of_zero_and_one() {
    assert_eq!(level(0.0), Some(LEVEL_ZERO));
    assert_eq!(level(-0.0), Some(LEVEL_ZERO));
    assert_eq!(level(1.0), Some(LEVEL_ONE));
}

#[test]
fn keys_keep_the_order_of_numbers() {
    let numbers = [f64::NEG_INFINITY, f64::MIN, -2.5, -1e-300, 0.0, 1e-300, 1.0, 21.5, f64::MAX, f64::INFINITY];
    for pair in numbers.windows(2) {
        assert!(level(pair[0]).unwrap() < level(pair[1]).unwrap());
    }
}

#[test]
fn lower_and_upper_yield_to_the_number() {
    assert_eq!(lower(None, level(3.0)), level(3.0));
    assert_eq!(lower(level(3.0), None), level(3.0));
    assert_eq!(lower(None, None), None);
    assert_eq!(lower(level(-1.0), level(3.0)), level(-1.0));
    assert_eq!(upper(None, level(3.0)), level(3.0));
    assert_eq!(upper(level(-1.0), level(3.0)), level(3.0));
    assert_eq!(upper(level(-1.0), None), level(-1.0));
}

#[test]
fn above_is_false_without_a_number() {
    assert!(is_above(level(2.0), level(1.0)));
    assert!(!is_above(level(1.0), level(1.0)));
    assert!(!is_above(None, level(1.0)));
    assert!(!is_above(level(2.0), None));
}

#[test]
fn empty_buffer_has_unset_range() {
    let buffer = RangedDeque::<D3>::new();
    let range = buffer.get_range();
    assert_eq!(range.min, vec![None; 4]);
    assert_eq!(range.max, vec![None; 4]);
    assert_eq!(buffer.len(), 0);
    assert!(buffer.get_last().is_none());
}

#[test]
fn first_push_sets_both_bounds() {
    let mut buffer = RangedDeque::<D1>::new();
    assert!(buffer.push(Point::new(D1([level(5.0), level(21.5)]))));
    let range = buffer.get_range();
    assert_eq!(range.min, vec![level(5.0), level(21.5)]);
    assert_eq!(range.max, vec![level(5.0), level(21.5)]);
}

#[test]
fn push_tells_whether_the_range_changed() {
    let mut buffer = RangedDeque::<D1>::new();
    assert!(buffer.push(Point::new(D1([level(0.0), level(1.0)]))));
    assert!(buffer.push(Point::new(D1([level(1.0), level(1.0)]))));
    assert!(!buffer.push(Point::new(D1([level(0.5), level(1.0)]))));
    assert!(buffer.push(Point::new(D1([level(0.5), level(-3.0)]))));
    assert!(!buffer.push(Point::new(D1([level(1.0), level(-3.0)]))));
    assert_eq!(buffer.len(), 5);
}

#[test]
fn push_without_a_number_leaves_the_range() {
    let mut buffer = RangedDeque::<D1>::new();
    assert!(!buffer.push(Point::new(D1([None, None]))));
    assert!(buffer.push(Point::new(D1([level(2.0), None]))));
    assert!(!buffer.push(Point::new(D1([None, None]))));
    let range = buffer.get_range();
    assert_eq!(range.min, vec![level(2.0), None]);
    assert_eq!(range.max, vec![level(2.0), None]);
    assert_eq!(buffer.len(), 3);
}

#[test]
fn range_equals_brute_force() {
    let points = [
        [0.0, 3.5, -2.0],
        [1.0, -7.25, 4.0],
        [2.0, 1e300, -1e-300],
        [3.0, -1e300, 0.0],
        [4.0, 0.0, f64::MAX],
        [5.0, 2.0, f64::MIN],
    ];
    for n in 0..=points.len() {
        let buffer = filled(&points[..n]);
        let range = buffer.get_range();
        let (min, max) = brute_force(&points[..n]);
        assert_eq!(range.min, min);
        assert_eq!(range.max, max);
    }
}

#[test]
fn range_with_infinities_equals_brute_force() {
    let points = [[0.0, f64::INFINITY, 1.0], [1.0, f64::NEG_INFINITY, 1.0], [2.0, 0.0, 1.0]];
    let range = filled(&points).get_range();
    let (min, max) = brute_force(&points);
    assert_eq!(range.min, min);
    assert_eq!(range.max, max);
    assert_eq!(range.min[1], level(f64::NEG_INFINITY));
    assert_eq!(range.max[1], level(f64::INFINITY));
}

#[test]
fn range_does_not_depend_on_the_order() {
    let forward = [[0.0, 3.0, 9.0], [1.0, -4.0, 8.0], [2.0, 5.0, 7.0], [3.0, 0.0, 6.0]];
    let mut backward = forward;
    backward.reverse();
    let shuffled = [forward[2], forward[0], forward[3], forward[1]];
    let a = filled(&forward).get_range();
    let b = filled(&backward).get_range();
    let c = filled(&shuffled).get_range();
    assert_eq!(a.min, b.min);
    assert_eq!(a.max, b.max);
    assert_eq!(a.min, c.min);
    assert_eq!(a.max, c.max);
    assert_eq!(a.min, vec![level(0.0), level(-4.0), level(6.0)]);
    assert_eq!(a.max, vec![level(3.0), level(5.0), level(9.0)]);
}

#[test]
fn points_come_back_in_order() {
    let points = [[0.0, 3.0, 9.0], [1.0, -4.0, 8.0], [2.0, 5.0, 7.0]];
    let buffer = filled(&points);
    assert_eq!(buffer.get(1).axes.0, [level(1.0), level(-4.0), level(8.0)]);
    assert_eq!(buffer.get_last().unwrap().axes.0, [level(2.0), level(5.0), level(7.0)]);
    let walked: Vec<[Option<i64>; 3]> = buffer.iter().map(|p| p.axes.0).collect();
    assert_eq!(walked.len(), 3);
    assert_eq!(walked[0], [level(0.0), level(3.0), level(9.0)]);
    assert_eq!(walked[2], [level(2.0), level(5.0), level(7.0)]);
    let again: Vec<[Option<i64>; 3]> = buffer.iter().map(|p| p.axes.0).collect();
    assert_eq!(walked, again);
}

#[test]
fn drawn_axes_of_one_value_are_time_and_value() {
    let mut buffer = RangedDeque::<D1>::new();
    buffer.push(Point::new(D1([level(10.0), level(1.0)])));
    buffer.push(Point::new(D1([level(20.0), level(-1.0)])));
    let range = get_range(&buffer);
    assert_eq!(range.min, vec![level(10.0), level(-1.0)]);
    assert_eq!(range.max, vec![level(20.0), level(1.0)]);
}

#[test]
fn drawn_axes_of_more_values_leave_time_out() {
    let buffer = filled(&[[10.0, 1.0, 5.0], [20.0, -1.0, 6.0]]);
    let range = get_range(&buffer);
    assert_eq!(range.min, vec![level(-1.0), level(5.0)]);
    assert_eq!(range.max, vec![level(1.0), level(6.0)]);
}

#[test]
fn axes_know_their_places() {
    assert_eq!(D1::size(), 2);
    assert_eq!(D2::size(), 3);
    assert_eq!(D3::size(), 4);
    assert_eq!((D1::timestamp(), D1::x(), D1::y(), D1::z()), (0, 0, 1, -1));
    assert_eq!((D2::timestamp(), D2::x(), D2::y(), D2::z()), (0, 1, 2, -1));
    assert_eq!((D3::timestamp(), D3::x(), D3::y(), D3::z()), (0, 1, 2, 3));
    assert_eq!(<D2 as Axes>::default().as_vec(), vec![None; 3]);
    assert_eq!(D3::ones().as_vec(), vec![Some(LEVEL_ONE); 4]);
    assert_eq!(D2([level(1.0), level(2.0), level(3.0)]).at(2), level(3.0));
}

#[test]
fn expandby_joins_two_ranges() {
    let mut ours = Range { min: vec![level(1.0), None], max: vec![level(2.0), None] };
    let theirs = Range {
        min: vec![level(0.0), level(5.0), level(7.0)],
        max: vec![level(1.5), level(6.0), None],
    };
    ours.expandby(&theirs);
    assert_eq!(ours.min, vec![level(0.0), level(5.0), level(7.0)]);
    assert_eq!(ours.max, vec![level(2.0), level(6.0), None]);
}

#[test]
fn new_ranges_are_unset() {
    assert!(Range::new().min.is_empty());
    assert!(Range::new().max.is_empty());
    assert_eq!(Range::new_cap(3).min, vec![None; 3]);
    assert_eq!(Range::new_cap(3).max, vec![None; 3]);
}
