use polygon_puzzle::shapes::polyline_set::PolylineSet;
use polygon_puzzle::shapes::segment::Segment;
use rand::{seq::SliceRandom, thread_rng};
use std::collections::HashSet;

#[derive(Clone, Copy, Debug)]
struct Point {
    x: f64,
    y: f64,
}

impl PartialEq for Point {
    fn eq(&self, other: &Self) -> bool {
        (self.x - other.x).abs() < 1e-9 && (self.y - other.y).abs() < 1e-9
    }
}

fn seg(x0: i32, y0: i32, x1: i32, y1: i32) -> Segment<Point> {
    let point1 = Point {
        x: f64::from(x0),
        y: f64::from(y0),
    };

    let point2 = Point {
        x: f64::from(x1),
        y: f64::from(y1),
    };

    let (p, q) = if rand::random::<f64>() > 0.5 {
        (point1, point2)
    } else {
        (point2, point1)
    };

    assert_ne!(p, q);

    Segment { p, q }
}

#[test]
fn test_polyline_set_put() {
    let mut set = PolylineSet::from_segments(&[]);
    assert_eq!(set.get_polylines().len(), 0);

    let Segment { p, q } = seg(0, 0, 0, 1);
    set.put(p, q);
    assert_eq!(set.get_polylines().len(), 1);

    let Segment { p, q } = seg(5, 5, 7, 8);
    set.put(p, q);
    assert_eq!(set.get_polylines().len(), 2);

    let Segment { p, q } = seg(100, 54, 7, 8);
    set.put(p, q);
    assert_eq!(set.get_polylines().len(), 2);

    assert_eq!(set.get_polylines()[0].len(), 2);
    assert_eq!(set.get_polylines()[1].len(), 3);
}

fn check_from_segments(skip: Vec<i32>, set_size: usize, step_by: usize) {
    let skip_set: HashSet<i32> = skip.into_iter().collect();

    for _ in 0..100_000 {
        let mut segments: Vec<Segment<Point>> = (0..150)
            .step_by(step_by)
            .filter(|i| !skip_set.contains(i))
            .map(|x| seg(x, 10, x + 1, 10))
            .collect();
        segments.shuffle(&mut thread_rng());

        let set = PolylineSet::from_segments(&segments);
        assert_eq!(set.get_polylines().len(), set_size);
    }
}

#[test]
fn test_polyline_set_from_segments_whole() {
    check_from_segments(vec![], 1, 1);
}

#[test]
fn test_polyline_set_from_segments_without_first() {
    check_from_segments(vec![0], 1, 1);
}

#[test]
fn test_polyline_set_from_segments_without_one() {
    check_from_segments(vec![50], 2, 1);
}

#[test]
fn test_polyline_set_from_segments_without_two() {
    check_from_segments(vec![50, 70], 3, 1);
}

#[test]
fn test_polyline_set_from_segments_without_three_in_two_gaps() {
    check_from_segments(vec![50, 69, 70], 3, 1);
}

#[test]
fn test_polyline_set_from_segments_without_three() {
    check_from_segments(vec![50, 68, 70], 4, 1);
}

#[test]
fn test_polyline_set_from_segments_without_both_ends() {
    check_from_segments(vec![0, 149], 1, 1);
}

#[test]
fn test_polyline_set_from_segments_without_first_and_near_last() {
    check_from_segments(vec![0, 148], 2, 1);
}

#[test]
fn test_polyline_set_from_segments_every_second() {
    check_from_segments(vec![], 75, 2);
}

#[test]
fn a_third_link_is_refused_and_changes_nothing() {
    let a = seg(0, 0, 1, 0);
    let b = seg(2, 0, 3, 0);
    let c = seg(1, 0, 2, 0);

    let mut polyline_set = PolylineSet::from_segments(&[a, b, c]);
    assert_eq!(polyline_set.len(), 4);
    let before = polyline_set.get_polylines();

    let Segment { p, q } = seg(1, 0, 1, 2);
    assert!(!polyline_set.has_room(p, q));
    assert!(!polyline_set.try_put(p, q));
    assert_eq!(polyline_set.len(), 4);
    assert_eq!(polyline_set.get_polylines(), before);

    let Segment { p, q } = seg(0, 0, 3, 0);
    assert!(polyline_set.has_room(p, q));
    assert!(polyline_set.try_put(p, q));
    assert_eq!(polyline_set.len(), 4);
    assert!(polyline_set.get_polylines().is_empty());
}

#[test]
fn from_segments_refuses_a_point_with_three_segments() {
    let segments = [
        Segment { p: 1, q: 2 },
        Segment { p: 2, q: 3 },
        Segment { p: 2, q: 4 },
        Segment { p: 7, q: 8 },
    ];
    assert!(PolylineSet::try_from_segments(&segments).is_none());
    assert!(PolylineSet::try_from_segments(&segments[..2]).is_some());
    assert_eq!(
        PolylineSet::try_from_segments(&segments[..2]).unwrap().get_polylines(),
        PolylineSet::from_segments(&segments[..2]).get_polylines()
    );
}

#[test]
fn polylines_follow_the_links_from_the_first_open_point() {
    let segments = [
        Segment { p: 3, q: 4 },
        Segment { p: 1, q: 2 },
        Segment { p: 2, q: 3 },
        Segment { p: 9, q: 8 },
    ];
    let set = PolylineSet::from_segments(&segments);
    assert_eq!(set.len(), 6);
    assert_eq!(set.get_polylines(), vec![vec![4, 3, 2, 1], vec![9, 8]]);
}

#[test]
fn a_closed_ring_is_no_polyline() {
    let segments = [
        Segment { p: 1, q: 2 },
        Segment { p: 2, q: 3 },
        Segment { p: 3, q: 1 },
        Segment { p: 5, q: 6 },
    ];
    let set = PolylineSet::from_segments(&segments);
    assert_eq!(set.get_polylines(), vec![vec![5, 6]]);
}

#[test]
fn a_segment_between_a_point_and_itself_closes_it() {
    let mut set = PolylineSet::new();
    assert!(set.has_room(1, 1));
    set.put(1, 1);
    assert_eq!(set.len(), 1);
    assert!(set.get_polylines().is_empty());
    assert!(!set.has_room(1, 2));
    assert!(!set.try_put(1, 2));
    assert_eq!(set.len(), 1);
    assert!(set.has_room(2, 3));
    set.put(2, 3);
    assert!(!set.has_room(2, 2));
    assert!(!set.try_put(2, 2));
    assert!(set.has_room(3, 3) == false);
    assert!(set.has_room(4, 4));
    assert!(set.has_room(4, 5));
    assert_eq!(set.get_polylines(), vec![vec![2, 3]]);
}

#[test]
fn the_same_segment_twice_makes_a_ring_of_two() {
    let mut set = PolylineSet::new();
    set.put(1, 2);
    assert_eq!(set.get_polylines(), vec![vec![1, 2]]);
    assert!(set.try_put(2, 1));
    assert!(set.get_polylines().is_empty());
    assert!(!set.try_put(1, 3));
}
