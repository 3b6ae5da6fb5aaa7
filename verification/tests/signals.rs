use scope::axes::{MsgPoint, PointType};
use scope::classify::{handle_caps, Classified, Classifier};
use scope::drawstyles::Styles;
use scope::ingest::{duration2us, frame_is_over, get_points, wait_budget, Received};
use scope::level::{LEVEL_ONE, LEVEL_ZERO};
use scope::signal::{Samples, Signal, SignalHealth, SignalManager};
use scope::view::{is_bound, AxisBind, View, ViewData};
use scope::range::Range;

fn level(x: f64) -> Option<i64> {
    if x.is_nan() {
        None
    } else {
        let bits = (x + 0.0).to_bits() as i64;
        Some(bits ^ ((((bits >> 63) as u64) >> 1) as i64))
    }
}

fn number(level: Option<i64>) -> f64 {
    match level {
        Some(key) => f64::from_bits((key ^ ((((key >> 63) as u64) >> 1) as i64)) as u64),
        None => f64::NAN,
    }
}

fn point(name: &str, ts: f64, values: &[f64]) -> MsgPoint {
    let fields: Vec<Option<i64>> = values.iter().map(|v| level(*v)).collect();
    handle_caps(String::from(name), &fields, level(ts), 0)
}

fn name(text: &str) -> String {
    String::from(text)
}

fn signal<'a>(man: &'a SignalManager, text: &str) -> &'a Signal {
    man.get_signal(&name(text)).expect("the signal exists")
}

fn state<'a>(man: &'a SignalManager, text: &str) -> &'a ViewData {
    man.get_view_data(signal(man, text).view.data).expect("the state exists")
}

fn two_signals() -> SignalManager {
    let mut man = SignalManager::new();
    man.add_point(point("a", 0.0, &[1.0, 2.0]));
    man.add_point(point("a", 1.0, &[3.0, -2.0]));
    man.add_point(point("b", 0.0, &[10.0, 20.0]));
    man.add_point(point("b", 1.0, &[30.0, 40.0]));
    man
}

#[test]
fn mask_bits() {
    assert_eq!(AxisBind::Unbound.bits(), 0);
    assert_eq!(AxisBind::X.bits(), 0b0010);
    assert_eq!(AxisBind::Y.bits(), 0b0100);
    assert_eq!(AxisBind::Z.bits(), 0b1000);
    assert_eq!(AxisBind::SX.bits(), 0b10000);
    assert_eq!(AxisBind::SY.bits(), 0b100000);
    assert_eq!(AxisBind::SZ.bits(), 0b1000000);
    assert!(is_bound(0b0110, 0));
    assert!(is_bound(0b0110, 1));
    assert!(!is_bound(0b0110, 2));
    assert!(!is_bound(0b0001, 0));
    assert!(!is_bound(0xff, 3));
}

#[test]
fn a_new_name_starts_a_signal() {
    let mut man = SignalManager::new();
    assert_eq!(man.len(), 0);
    assert!(man.add_point(point("temp", 5.0, &[21.5])));
    assert_eq!(man.len(), 1);
    assert_eq!(man.point_count, 1);
    let s = signal(&man, "temp");
    assert_eq!(s.get_name(), "temp");
    assert_eq!(s.style, Styles::Lines);
    assert_eq!(s.get_health(), SignalHealth::Good);
    assert_eq!(s.points.len(), 1);
    assert_eq!(s.points.get(0), vec![level(5.0), level(21.5)]);
    assert_eq!((s.view.data, s.view.mode), (0, 0));
    assert_eq!(s.view.local_pos, (Some(LEVEL_ZERO), Some(LEVEL_ZERO)));
    let data = state(&man, "temp");
    assert_eq!(data.pos, (Some(LEVEL_ZERO), Some(LEVEL_ZERO)));
    assert_eq!(data.zoom, Some(LEVEL_ONE));
    assert_eq!(data.range.min, vec![None; 3]);
    assert_eq!(data.range.max, vec![None; 3]);
    assert!(!data.maintain_aspect);
    assert_eq!(data.id, "temp");
}

#[test]
fn the_first_point_fixes_axes_and_style() {
    let mut man = SignalManager::new();
    man.add_point(point("one", 0.0, &[1.0]));
    man.add_point(point("two", 0.0, &[1.0, 2.0]));
    man.add_point(point("three", 0.0, &[1.0, 2.0, 3.0]));
    man.add_point(point("mark", 0.0, &[]));
    assert!(matches!(signal(&man, "one").points, Samples::One(_)));
    assert!(matches!(signal(&man, "two").points, Samples::Two(_)));
    assert!(matches!(signal(&man, "three").points, Samples::Three(_)));
    assert!(matches!(signal(&man, "mark").points, Samples::One(_)));
    assert_eq!(signal(&man, "one").style, Styles::Lines);
    assert_eq!(signal(&man, "two").style, Styles::Lines);
    assert_eq!(signal(&man, "three").style, Styles::Scatter);
    assert_eq!(signal(&man, "mark").style, Styles::Scatter);
    assert_eq!(signal(&man, "mark").points.get(0), vec![level(0.0), None]);
    assert_eq!(man.get_names(), vec![name("one"), name("two"), name("three"), name("mark")]);
    assert_eq!(man.point_count, 4);
}

#[test]
fn a_known_name_gets_the_point_on_its_own_axes() {
    let mut man = SignalManager::new();
    assert!(man.add_point(point("temp", 0.0, &[21.5])));
    assert!(!man.add_point(point("temp", 1.0, &[22.0, 3.0])));
    assert!(!man.add_point(point("temp", 2.0, &[])));
    assert_eq!(man.len(), 1);
    assert_eq!(man.point_count, 3);
    let s = signal(&man, "temp");
    assert!(matches!(s.points, Samples::One(_)));
    assert_eq!(s.points.len(), 3);
    assert_eq!(s.points.get(1), vec![level(1.0), level(22.0)]);
    assert_eq!(s.points.get(2), vec![level(2.0), None]);
    let range = s.get_range();
    assert_eq!(range.min, vec![level(0.0), level(21.5)]);
    assert_eq!(range.max, vec![level(2.0), level(22.0)]);
}

#[test]
fn a_wider_signal_fills_what_a_point_lacks() {
    let mut man = SignalManager::new();
    man.add_point(point("s", 0.0, &[1.0, 2.0, 3.0]));
    man.add_point(point("s", 1.0, &[4.0]));
    assert_eq!(signal(&man, "s").points.get(1), vec![level(1.0), level(4.0), None, None]);
}

#[test]
fn stream_of_three_lines() {
    let classifier = Classifier::new().expect("the grammars compile");
    let mut man = SignalManager::new();
    let mut echoed: Vec<String> = Vec::new();
    let mut decoded: Vec<(String, PointType, Vec<f64>)> = Vec::new();
    let lines = ["~.temp@21.5\n", "garbage\n", "~.temp@22.0,3\n"];
    for (ln, line) in lines.iter().enumerate() {
        match classifier.classify(line) {
            Classified::Decoded { name, fields } => {
                let numbers: Vec<f64> =
                    fields.iter().map(|f| f.as_ref().map_or(0.0, |t| t.parse::<f64>().unwrap())).collect();
                let keys: Vec<Option<i64>> = numbers.iter().map(|v| level(*v)).collect();
                let p = handle_caps(name, &keys, level(ln as f64), ln);
                decoded.push((p.name.clone(), p.ty, numbers));
                man.add_point(p);
            }
            Classified::Malformed { name } => man.mark_invalid(&name),
            Classified::Passthrough(text) => echoed.push(text),
        }
    }
    assert_eq!(echoed, vec![name("garbage\n")]);
    assert_eq!(decoded.len(), 2);
    assert_eq!(decoded[0], (name("temp"), PointType::D1, vec![21.5]));
    assert_eq!(decoded[1], (name("temp"), PointType::D2, vec![22.0, 3.0]));
    assert_eq!(man.len(), 1);
    assert_eq!(man.point_count, 2);
    let s = signal(&man, "temp");
    assert!(matches!(s.points, Samples::One(_)));
    assert_eq!(s.points.get(0), vec![level(0.0), level(21.5)]);
    assert_eq!(s.points.get(1), vec![level(2.0), level(22.0)]);
    assert_eq!(s.get_health(), SignalHealth::Good);
}

#[test]
fn a_malformed_line_marks_the_signal_and_drops_the_point() {
    let mut man = SignalManager::new();
    man.add_point(point("grid", 0.0, &[1.0, 2.0, 3.0]));
    man.mark_invalid(&name("grid"));
    man.mark_invalid(&name("other"));
    assert_eq!(signal(&man, "grid").get_health(), SignalHealth::InvalidFormat);
    assert_eq!(signal(&man, "grid").points.len(), 1);
    assert_eq!(man.len(), 1);
    assert_eq!(man.point_count, 1);
}

#[test]
fn selection_of_unknown_names_is_none() {
    let mut man = two_signals();
    assert_eq!(*man.get_selection(), None);
    assert!(man.get_selected().is_none());
    man.set_selection(Some(name("b")));
    assert_eq!(*man.get_selection(), Some(name("b")));
    assert_eq!(man.get_selected().unwrap().get_name(), "b");
    man.set_selection(Some(name("nobody")));
    assert_eq!(*man.get_selection(), None);
    man.set_selection(Some(name("a")));
    man.set_selection(None);
    assert_eq!(*man.get_selection(), None);
    assert!(man.get_selected().is_none());
}

#[test]
fn unknown_names_are_not_found() {
    let man = two_signals();
    assert!(man.get_signal(&name("c")).is_none());
    assert_eq!(man.position(&name("b")), Some(1));
    assert_eq!(man.position(&name("c")), None);
    assert!(man.get_view_data(2).is_none());
    assert!(man.get_framing(&name("c")).is_none());
    assert_eq!(man.iter().len(), 2);
}

#[test]
fn bind_shares_the_view_of_the_base() {
    let mut man = two_signals();
    man.set_bind_mode(&name("a"), AxisBind::X.bits());
    man.bind(&name("a"), &name("b"));
    assert_eq!(signal(&man, "b").view.data, signal(&man, "a").view.data);
    assert_eq!(signal(&man, "b").view.mode, AxisBind::X.bits());
    assert_eq!(man.get_view_data(1).unwrap().id, "b");
}

#[test]
fn bind_with_unknown_names_changes_nothing() {
    let mut man = two_signals();
    man.bind(&name("nobody"), &name("b"));
    man.bind(&name("a"), &name("nobody"));
    assert_eq!(signal(&man, "a").view.data, 0);
    assert_eq!(signal(&man, "b").view.data, 1);
    man.free(&name("nobody"));
    assert!(man.get_view_data(2).is_none());
}

#[test]
fn bound_axes_move_together_and_others_do_not() {
    let mut man = two_signals();
    man.set_bind_mode(&name("a"), AxisBind::X.bits());
    man.bind(&name("a"), &name("b"));
    let before = man.get_framing(&name("a")).unwrap();
    man.move_view_by(&name("b"), (level(0.25), level(-0.5)));
    let a = man.get_framing(&name("a")).unwrap();
    let b = man.get_framing(&name("b")).unwrap();
    assert_eq!((b.dx, b.dy), (level(0.25), level(-0.5)));
    assert_eq!(a.dx, level(0.25));
    assert_eq!(a.dy, before.dy);
    assert_eq!(a.dy, level(0.0));
}

#[test]
fn bound_signals_share_the_zoom() {
    let mut man = two_signals();
    man.set_bind_mode(&name("a"), AxisBind::X.bits() | AxisBind::Y.bits());
    man.bind(&name("a"), &name("b"));
    man.zoom_by(&name("b"), level(1.5), (level(0.1), level(0.2)));
    let a = man.get_framing(&name("a")).unwrap();
    assert_eq!(a.zoom, level(1.5));
    assert_eq!((a.dx, a.dy), (level(0.1), level(0.2)));
    man.zoom_by(&name("a"), level(1.0), (level(0.3), level(0.4)));
    let b = man.get_framing(&name("b")).unwrap();
    assert_eq!(b.zoom, level(1.0));
    assert_eq!((b.dx, b.dy), (level(0.0), level(0.0)));
}

#[test]
fn a_freed_signal_stands_alone() {
    let mut man = two_signals();
    man.set_bind_mode(&name("a"), AxisBind::X.bits() | AxisBind::Y.bits());
    man.bind(&name("a"), &name("b"));
    man.free(&name("b"));
    assert_eq!(signal(&man, "b").view.data, 2);
    assert_eq!(signal(&man, "b").view.mode, 0);
    assert_eq!(state(&man, "b").id, "b");
    man.move_view_by(&name("a"), (level(0.7), level(0.8)));
    man.zoom_by(&name("a"), level(3.0), (level(0.9), level(1.1)));
    let a = man.get_framing(&name("a")).unwrap();
    let b = man.get_framing(&name("b")).unwrap();
    assert_eq!((a.dx, a.dy, a.zoom), (level(0.9), level(1.1), level(3.0)));
    assert_eq!((b.dx, b.dy, b.zoom), (level(0.0), level(0.0), level(1.0)));
}

#[test]
fn a_frame_rebuilds_the_shared_range() {
    let mut man = two_signals();
    man.set_bind_mode(&name("a"), AxisBind::X.bits());
    man.bind(&name("a"), &name("b"));
    man.draw_signals();
    let shared = state(&man, "a");
    assert_eq!(shared.range.min, vec![level(1.0), None, None]);
    assert_eq!(shared.range.max, vec![level(30.0), None, None]);
    let a = man.get_framing(&name("a")).unwrap();
    assert_eq!((a.xmin, a.xmax), (level(1.0), level(30.0)));
    assert_eq!((a.ymin, a.ymax), (level(-2.0), level(2.0)));
    let b = man.get_framing(&name("b")).unwrap();
    assert_eq!((b.xmin, b.xmax), (level(1.0), level(30.0)));
    assert_eq!((b.ymin, b.ymax), (level(20.0), level(40.0)));
    man.free(&name("b"));
    man.draw_signals();
    let shared = state(&man, "a");
    assert_eq!(shared.range.min, vec![level(1.0), None, None]);
    assert_eq!(shared.range.max, vec![level(3.0), None, None]);
    assert_eq!(man.get_view_data(1).unwrap().range.min, vec![None; 3]);
    assert_eq!(state(&man, "b").range.max, vec![None; 3]);
}

#[test]
fn an_unbound_signal_frames_its_own_range() {
    let mut man = two_signals();
    man.draw_signals();
    let a = man.get_framing(&name("a")).unwrap();
    assert_eq!((a.xmin, a.xmax, a.ymin, a.ymax), (level(1.0), level(3.0), level(-2.0), level(2.0)));
    assert_eq!((a.dx, a.dy, a.zoom), (level(0.0), level(0.0), level(1.0)));
    assert!(!a.maintain_aspect);
}

#[test]
fn share_widens_bound_axes_only() {
    let mut data = ViewData::new(name("v"));
    let mut view = View::new(0);
    view.set_bind_mode(AxisBind::Y.bits());
    let own = Range { min: vec![level(1.0), level(2.0)], max: vec![level(3.0), level(4.0)] };
    view.share(&mut data, &own);
    assert_eq!(data.range.min, vec![None, level(2.0), None]);
    assert_eq!(data.range.max, vec![None, level(4.0), None]);
    let other = Range { min: vec![level(0.0), level(2.5)], max: vec![level(9.0), level(8.0)] };
    view.share(&mut data, &other);
    assert_eq!(data.range.min, vec![None, level(2.0), None]);
    assert_eq!(data.range.max, vec![None, level(8.0), None]);
    data.clear_range();
    assert_eq!(data.range.min, vec![None; 3]);
    assert_eq!(data.range.max, vec![None; 3]);
}

#[test]
fn share_treats_a_missing_axis_as_unset() {
    let mut data = ViewData::new(name("v"));
    let mut view = View::new(0);
    view.set_bind_mode(AxisBind::X.bits() | AxisBind::Y.bits() | AxisBind::Z.bits());
    let own = Range { min: vec![level(1.0), level(2.0)], max: vec![level(3.0), level(4.0)] };
    view.share(&mut data, &own);
    assert_eq!(data.range.min, vec![level(1.0), level(2.0), None]);
    assert_eq!(data.range.max, vec![level(3.0), level(4.0), None]);
}

#[test]
fn pan_and_zoom_write_where_the_axis_lives() {
    let mut data = ViewData::new(name("v"));
    let mut view = View::new(0);
    view.set_bind_mode(AxisBind::X.bits());
    view.move_by(&mut data, (level(0.5), level(0.6)));
    assert_eq!(data.pos, (level(0.5), level(0.0)));
    assert_eq!(view.local_pos, (level(0.0), level(0.6)));
    view.zoom(&mut data, level(2.0), (level(0.7), level(0.8)));
    assert_eq!(data.zoom, level(2.0));
    assert_eq!(data.pos, (level(0.7), level(0.0)));
    assert_eq!(view.local_pos, (level(0.0), level(0.8)));
    view.zoom(&mut data, level(0.5), (level(0.9), level(0.9)));
    assert_eq!(data.zoom, level(1.0));
    assert_eq!(data.pos, (level(0.0), level(0.0)));
    assert_eq!(view.local_pos, (level(0.0), level(0.0)));
    view.zoom(&mut data, None, (level(0.9), level(0.9)));
    assert_eq!(data.zoom, level(1.0));
}

#[test]
fn styles_and_masks_are_set_by_name() {
    let mut man = two_signals();
    man.set_style(&name("a"), &Styles::Scatter);
    man.set_style(&name("nobody"), &Styles::Scatter);
    assert_eq!(signal(&man, "a").style, Styles::Scatter);
    assert_eq!(signal(&man, "b").style, Styles::Lines);
    man.set_bind_mode(&name("b"), 6);
    assert_eq!(signal(&man, "b").get_view().mode, 6);
    assert_eq!(signal(&man, "a").get_view().mode, 0);
}

#[test]
fn signals_pick_their_nearest_point() {
    let man = two_signals();
    let distances = vec![level(5.0), level(1.0), level(9.0)];
    assert_eq!(signal(&man, "a").pick(&distances, level(2.0)), Some(1));
    assert_eq!(signal(&man, "a").pick(&distances, level(0.5)), None);
}

#[test]
fn microseconds_of_a_duration() {
    assert_eq!(duration2us(0, 0), 0);
    assert_eq!(duration2us(0, 999), 0);
    assert_eq!(duration2us(0, 1000), 1);
    assert_eq!(duration2us(3, 999_999_999), 3_999_999);
    assert_eq!(duration2us(12, 345_678_000), 12_345_678);
}

#[test]
fn the_wait_shrinks_with_the_time_used() {
    assert_eq!(wait_budget(30_000_000, 0), 30_000_000);
    assert_eq!(wait_budget(30_000_000, 12_000_000), 18_000_000);
    assert_eq!(wait_budget(30_000_000, 30_000_000), 0);
    assert_eq!(wait_budget(30_000_000, 30_000_001), 0);
    assert!(!frame_is_over(30_000_000, 30_000_000));
    assert!(frame_is_over(30_000_000, 30_000_001));
}

#[test]
fn a_frame_takes_points_until_the_wait_ends() {
    let mut man = SignalManager::new();
    assert!(get_points(Received::Point(point("a", 0.0, &[1.0])), &mut man));
    assert!(get_points(Received::Point(point("a", 1.0, &[2.0])), &mut man));
    assert!(get_points(Received::Malformed(name("a")), &mut man));
    assert!(!get_points(Received::Timeout, &mut man));
    assert!(!get_points(Received::Disconnected, &mut man));
    assert_eq!(man.point_count, 2);
    assert_eq!(signal(&man, "a").points.len(), 2);
    assert_eq!(signal(&man, "a").get_health(), SignalHealth::InvalidFormat);
}

#[test]
fn keys_go_back_to_their_numbers() {
    for x in [0.0, 1.0, -1.0, 21.5, -1e-300, 1e300, f64::INFINITY, f64::NEG_INFINITY] {
        assert_eq!(number(level(x)), x);
    }
    assert!(number(level(f64::NAN)).is_nan());
}

#[test]
fn a_square_range_is_framed_onto_a_square_area() {
    let mut man = SignalManager::new();
    man.add_point(point("sq", 0.0, &[0.0, 0.0]));
    man.add_point(point("sq", 1.0, &[10.0, 10.0]));
    man.draw_signals();
    let framing = man.get_framing(&name("sq")).unwrap();
    let area = (0.0, 0.0, 100.0, 100.0);
    let (xmin, xmax) = (number(framing.xmin), number(framing.xmax));
    let (ymin, ymax) = (number(framing.ymin), number(framing.ymax));
    assert_eq!((xmin, ymin, xmax, ymax), (0.0, 0.0, 10.0, 10.0));
    let zoom = number(framing.zoom);
    assert_eq!(zoom, 1.0);
    let sx = (area.2 - area.0) / (xmax - xmin) * zoom;
    let sy = (area.3 - area.1) / (ymax - ymin) * zoom;
    assert_eq!((sx, sy), (10.0, 10.0));
    let dx = area.2 - xmax * sx + number(framing.dx);
    let dy = -sy * (ymax + ymin) / 2.0 + (area.3 + area.1) / 2.0 + number(framing.dy);
    assert_eq!((10.0 * sx + dx, 10.0 * sy + dy), (100.0, 100.0));
}
