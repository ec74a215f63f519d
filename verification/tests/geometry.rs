use polygon_puzzle::polygon_matcher::order::{ascending, merge};
use polygon_puzzle::polygon_matcher::shifts::{
    collect_all_shifts, collect_shifts, face_left, face_right, may_touch,
};
use polygon_puzzle::polygon_matcher::sweep::optimal_shift;
use polygon_puzzle::polygon_matcher::{
    bases, best_match, both_rotations, pick_best, sweep_all,
};
use polygon_puzzle::shapes::collision::{collides, wedge_overlaps};
use polygon_puzzle::shapes::polygon::Polygon;
use polygon_puzzle::shapes::polyline_set::PolylineSet;
use polygon_puzzle::shapes::segment::Segment;
use polygon_puzzle::traits::common_boundary::CommonBoundary;
use polygon_puzzle::traits::intersection::{Intersects, IntersectsHeuristic};
use polygon_puzzle::traits::vertex::Vertex;
use polygon_puzzle::util::{angle as swept_angle, ccw, orientation};

const EPS: f64 = 1e-9;

#[derive(Clone, Copy, Debug)]
struct Point {
    x: f64,
    y: f64,
}

impl PartialEq for Point {
    fn eq(&self, other: &Self) -> bool {
        (self.x - other.x).abs() < EPS && (self.y - other.y).abs() < EPS
    }
}

fn sub(a: Point, b: Point) -> Point {
    Point {
        x: a.x - b.x,
        y: a.y - b.y,
    }
}

fn dot(a: Point, b: Point) -> f64 {
    a.x.mul_add(b.x, a.y * b.y)
}

fn cross(a: Point, b: Point) -> f64 {
    a.x.mul_add(b.y, -a.y * b.x)
}

fn angle(a: Point, b: Point) -> f64 {
    let x = cross(a, b).atan2(dot(a, b));
    if x < 0_f64 {
        2_f64.mul_add(std::f64::consts::PI, x)
    } else {
        x
    }
}

fn range_contains(a: f64, b: f64, x: f64) -> bool {
    if a > b {
        b <= x + EPS && x - EPS <= a
    } else {
        a <= x + EPS && x - EPS <= b
    }
}

fn horizontal_distance(p: Point, q: Point, v: Point) -> f64 {
    if (p.x - q.x).abs() < EPS {
        v.x - p.x
    } else {
        let slope = (q.y - p.y) / (q.x - p.x);
        let b = p.y - p.x * slope;
        v.x - (v.y - b) / slope
    }
}

impl Vertex for Point {
    type Length = f64;
    type Angle = f64;

    fn cross(self, other: Self) -> f64 {
        cross(self, other)
    }

    fn dot(self, other: Self) -> f64 {
        dot(self, other)
    }

    fn zero(x: f64) -> bool {
        x.abs() < EPS
    }

    fn positive(x: f64) -> bool {
        x > 0_f64
    }

    fn significant(x: f64) -> bool {
        x > EPS
    }

    fn angle(a: Self, b: Self) -> f64 {
        angle(a, b)
    }

    fn strictly_inside_angle(part: f64, whole: f64) -> bool {
        part > EPS && part < whole - EPS
    }

    fn level(p: Self, q: Self) -> bool {
        (p.y - q.y).abs() < EPS
    }

    fn below(p: Self, q: Self) -> bool {
        p.y < q.y
    }

    fn within_heights(p: Self, q: Self, r: Self) -> bool {
        range_contains(p.y, q.y, r.y)
    }

    fn minus(self, origin: Self) -> Self {
        sub(self, origin)
    }

    fn negate(self) -> Self {
        Point {
            x: -self.x,
            y: -self.y,
        }
    }

    fn axis_angle(q: Self) -> f64 {
        q.y.atan2(-q.x)
    }

    fn rot_ccw(self, t: f64) -> Self {
        Point {
            x: self.x.mul_add(t.cos(), -self.y * t.sin()),
            y: self.x.mul_add(t.sin(), self.y * t.cos()),
        }
    }

    fn shifted(self, by: f64) -> Self {
        Point {
            x: self.x + by,
            y: self.y,
        }
    }

    fn dist(self, other: Self) -> f64 {
        (self.x - other.x).hypot(self.y - other.y)
    }

    fn no_length() -> f64 {
        0_f64
    }

    fn sum(a: f64, b: f64) -> f64 {
        a + b
    }

    fn gap(to: f64, from: f64) -> f64 {
        to - from
    }

    fn negligible(gap: f64) -> bool {
        gap < 0.1
    }

    fn noise(length: f64) -> bool {
        !(length > EPS)
    }

    fn longer(a: f64, b: f64) -> bool {
        a > b
    }

    fn horizontal_distance(p: Self, q: Self, v: Self) -> f64 {
        horizontal_distance(p, q, v)
    }

    fn reversed(x: f64) -> f64 {
        -x
    }

    fn in_range(x: f64, max: f64) -> bool {
        x > EPS && x < max - EPS
    }
}

fn pt(x: f64, y: f64) -> Point {
    Point { x, y }
}

fn seg(x0: f64, y0: f64, x1: f64, y1: f64) -> Segment<Point> {
    Segment {
        p: pt(x0, y0),
        q: pt(x1, y1),
    }
}

fn polygon(points: &[(f64, f64)]) -> Polygon<Point> {
    Polygon::new(points.iter().map(|(x, y)| pt(*x, *y)).collect())
}

fn as_read(points: &[(f64, f64)]) -> Polygon<Point> {
    let mut vertices: Vec<Point> = points.iter().map(|(x, y)| pt(*x, *y)).collect();
    vertices.reverse();
    Polygon::new(vertices)
}

fn similar(left: f64, right: f64) -> bool {
    (left - right).abs() < 0.0000001
}

const SQUARE: [(f64, f64); 4] = [(0.0, 0.0), (4.0, 0.0), (4.0, 4.0), (0.0, 4.0)];
const SQUARE_BESIDE: [(f64, f64); 4] = [(4.0, 0.0), (8.0, 0.0), (8.0, 4.0), (4.0, 4.0)];
const SQUARE_ACROSS: [(f64, f64); 4] = [(2.0, 2.0), (6.0, 2.0), (6.0, 6.0), (2.0, 6.0)];
const SQUARE_APART: [(f64, f64); 4] = [(10.0, 0.0), (14.0, 0.0), (14.0, 4.0), (10.0, 4.0)];
const BIG_SQUARE: [(f64, f64); 4] = [(0.0, 0.0), (40.0, 0.0), (40.0, 40.0), (0.0, 40.0)];
const TRIANGLE: [(f64, f64); 3] = [(1.0, 1.0), (3.0, 1.0), (2.0, 9.0)];
const NOTCHED: [(f64, f64); 8] = [
    (-3.0, 1.0),
    (9.0, 1.0),
    (9.0, 2.0),
    (5.0, 2.0),
    (5.0, 3.0),
    (9.0, 3.0),
    (9.0, 5.0),
    (-3.0, 5.0),
];
const STAR: [(f64, f64); 12] = [
    (0.0, 0.0),
    (2.0, -1.0),
    (4.0, 0.0),
    (5.0, 2.0),
    (4.0, 4.0),
    (2.0, 5.0),
    (0.0, 4.0),
    (-1.0, 2.0),
    (1.0, 2.0),
    (1.0, 3.0),
    (3.0, 3.0),
    (3.0, 1.0),
];

#[test]
fn orientation_is_the_sign_of_the_turn() {
    assert_eq!(orientation(pt(0.0, 0.0), pt(1.0, 0.0), pt(1.0, 1.0)), 1);
    assert_eq!(orientation(pt(0.0, 0.0), pt(1.0, 0.0), pt(1.0, -1.0)), -1);
    assert_eq!(orientation(pt(0.0, 0.0), pt(1.0, 0.0), pt(2.0, 0.0)), 0);
    assert_eq!(orientation(pt(0.0, 0.0), pt(1.0, 0.0), pt(2.0, 1e-12)), 0);
    assert!(ccw(pt(0.0, 0.0), pt(1.0, 0.0), pt(1.0, 1.0)));
    assert!(!ccw(pt(0.0, 0.0), pt(1.0, 0.0), pt(2.0, 0.0)));
    assert!(!ccw(pt(0.0, 0.0), pt(1.0, 0.0), pt(1.0, -1.0)));
}

#[test]
fn orientation_changes_sign_when_two_points_change_places() {
    let points = [
        pt(0.0, 0.0),
        pt(4.0, 0.5),
        pt(-3.25, 7.0),
        pt(1e3, -2e3),
        pt(0.1, 0.2),
        pt(-5.5, -0.125),
    ];
    for o in points {
        for a in points {
            for b in points {
                assert_eq!(orientation(o, a, b), -orientation(o, b, a));
            }
        }
    }
}

#[test]
fn segments_that_cross_intersect() {
    assert!(seg(0.0, 0.0, 4.0, 4.0).intersects(&seg(0.0, 4.0, 4.0, 0.0)));
    assert!(seg(0.0, 4.0, 4.0, 0.0).intersects(&seg(0.0, 0.0, 4.0, 4.0)));
    assert!(seg(4.0, 4.0, 0.0, 0.0).intersects(&seg(4.0, 0.0, 0.0, 4.0)));
}

#[test]
fn segments_apart_do_not_intersect() {
    assert!(!seg(0.0, 0.0, 1.0, 1.0).intersects(&seg(3.0, 0.0, 3.0, 5.0)));
    assert!(!seg(3.0, 0.0, 3.0, 5.0).intersects(&seg(0.0, 0.0, 1.0, 1.0)));
    assert!(!seg(0.0, 0.0, 4.0, 0.0).intersects(&seg(0.0, 1.0, 4.0, 1.0)));
    assert!(!seg(0.0, 0.0, 2.0, 0.0).intersects(&seg(5.0, -1.0, 5.0, 1.0)));
    assert!(!seg(5.0, -1.0, 5.0, 1.0).intersects(&seg(0.0, 0.0, 2.0, 0.0)));
}

#[test]
fn segments_that_only_touch_or_lie_on_one_line_do_not_intersect() {
    assert!(!seg(0.0, 0.0, 4.0, 0.0).intersects(&seg(2.0, 0.0, 2.0, 3.0)));
    assert!(!seg(2.0, 0.0, 2.0, 3.0).intersects(&seg(0.0, 0.0, 4.0, 0.0)));
    assert!(!seg(0.0, 0.0, 4.0, 0.0).intersects(&seg(4.0, 0.0, 6.0, 2.0)));
    assert!(!seg(0.0, 0.0, 4.0, 0.0).intersects(&seg(2.0, 0.0, 6.0, 0.0)));
    assert!(!seg(0.0, 0.0, 4.0, 0.0).intersects(&seg(0.0, 0.0, 4.0, 0.0)));
}

#[test]
fn contains_tells_the_inside_from_the_end_points() {
    let s = seg(0.0, 0.0, 4.0, 0.0);
    assert!(s.contains_except_endpoints(pt(1.0, 0.0)));
    assert!(!s.contains_except_endpoints(pt(0.0, 0.0)));
    assert!(!s.contains_except_endpoints(pt(4.0, 0.0)));
    assert!(!s.contains_except_endpoints(pt(5.0, 0.0)));
    assert!(!s.contains_except_endpoints(pt(2.0, 1.0)));
    assert!(s.contains(pt(1.0, 0.0)));
    assert!(s.contains(pt(0.0, 0.0)));
    assert!(s.contains(pt(4.0, 0.0)));
    assert!(!s.contains(pt(5.0, 0.0)));
    assert!(!s.contains(pt(2.0, 1.0)));
}

#[test]
fn segment_faces_and_length() {
    assert!(seg(0.0, 1.0, 4.0, 1.0).is_horizontal());
    assert!(!seg(0.0, 1.0, 4.0, 2.0).is_horizontal());
    assert!(seg(0.0, 1.0, 4.0, 2.0).face_right());
    assert!(!seg(0.0, 1.0, 4.0, 2.0).face_left());
    assert!(seg(0.0, 3.0, 4.0, 2.0).face_left());
    assert!(!seg(0.0, 3.0, 4.0, 2.0).face_right());
    assert!(!seg(0.0, 1.0, 4.0, 1.0).face_left());
    assert!(!seg(0.0, 1.0, 4.0, 1.0).face_right());
    assert_eq!(seg(0.0, 0.0, 3.0, 4.0).length(), 5.0);
    assert!(face_left((pt(0.0, 0.0), pt(1.0, 0.0), pt(2.0, -1.0))));
    assert!(!face_left((pt(0.0, 0.0), pt(1.0, 0.0), pt(2.0, 1.0))));
    assert!(face_right((pt(0.0, 0.0), pt(1.0, 0.0), pt(2.0, 1.0))));
    assert!(!face_right((pt(0.0, 2.0), pt(1.0, 1.0), pt(2.0, 1.0))));
}

fn same_segment(a: Option<Segment<Point>>, b: Option<Segment<Point>>) -> bool {
    match (a, b) {
        (None, None) => true,
        (Some(a), Some(b)) => (a.p == b.p && a.q == b.q) || (a.p == b.q && a.q == b.p),
        _ => false,
    }
}

#[test]
fn segment_common_boundary_is_the_shared_part() {
    let s = seg(0.0, 0.0, 4.0, 0.0);
    assert!(same_segment(
        s.common_boundary(&seg(1.0, 0.0, 3.0, 0.0)),
        Some(seg(1.0, 0.0, 3.0, 0.0))
    ));
    assert!(same_segment(
        seg(1.0, 0.0, 3.0, 0.0).common_boundary(&s),
        Some(seg(1.0, 0.0, 3.0, 0.0))
    ));
    assert!(same_segment(
        s.common_boundary(&seg(2.0, 0.0, 6.0, 0.0)),
        Some(seg(4.0, 0.0, 2.0, 0.0))
    ));
    assert!(same_segment(
        s.common_boundary(&seg(6.0, 0.0, 2.0, 0.0)),
        Some(seg(4.0, 0.0, 2.0, 0.0))
    ));
    assert!(same_segment(
        s.common_boundary(&seg(-2.0, 0.0, 1.0, 0.0)),
        Some(seg(0.0, 0.0, 1.0, 0.0))
    ));
    assert!(same_segment(
        s.common_boundary(&seg(1.0, 0.0, -2.0, 0.0)),
        Some(seg(0.0, 0.0, 1.0, 0.0))
    ));
    assert!(same_segment(s.common_boundary(&s), Some(s)));
    assert!(same_segment(s.common_boundary(&seg(5.0, 0.0, 6.0, 0.0)), None));
    assert!(same_segment(s.common_boundary(&seg(0.0, 1.0, 4.0, 1.0)), None));
    assert!(same_segment(s.common_boundary(&seg(2.0, -1.0, 2.0, 1.0)), None));
    let touching = s.common_boundary(&seg(4.0, 0.0, 6.0, 0.0)).unwrap();
    assert_eq!(touching.length(), 0.0);
}

#[test]
fn polygon_common_boundary_adds_the_shared_parts() {
    let a = polygon(&SQUARE);
    let b = polygon(&SQUARE_BESIDE);
    assert!(similar(a.common_boundary(&b), 4.0));
    assert!(similar(a.common_boundary(&polygon(&SQUARE_APART)), 0.0));
    assert!(similar(a.common_boundary(&polygon(&SQUARE_ACROSS)), 0.0));
    let step = polygon(&[(4.0, 1.0), (6.0, 1.0), (6.0, 7.0), (4.0, 7.0)]);
    assert!(similar(a.common_boundary(&step), 3.0));
    let segments = a.common_boundary_segments(&b);
    assert_eq!(segments.len(), 1);
    assert!(same_segment(Some(segments[0]), Some(seg(4.0, 0.0, 4.0, 4.0))));
    assert!(a.common_boundary_segments(&polygon(&SQUARE_APART)).is_empty());
    let chains = PolylineSet::from_segments(&segments).get_polylines();
    assert_eq!(chains.len(), 1);
}

#[test]
fn polygon_common_boundary_is_the_same_from_both_sides() {
    let shapes = [
        polygon(&SQUARE),
        polygon(&SQUARE_BESIDE),
        polygon(&SQUARE_ACROSS),
        polygon(&BIG_SQUARE),
        polygon(&TRIANGLE),
        polygon(&NOTCHED),
        polygon(&STAR),
        polygon(&[(4.0, 1.0), (6.0, 1.0), (6.0, 7.0), (4.0, 7.0)]),
    ];
    for a in &shapes {
        for b in &shapes {
            assert!((a.common_boundary(b) - b.common_boundary(a)).abs() < EPS);
        }
    }
}

#[test]
fn negate_and_shifted_move_every_vertex() {
    let a = polygon(&TRIANGLE);
    let opposite = a.negate();
    assert_eq!(opposite.vertices, vec![pt(-1.0, -1.0), pt(-3.0, -1.0), pt(-2.0, -9.0)]);
    let moved = a.shifted(2.5);
    assert_eq!(moved.vertices, vec![pt(3.5, 1.0), pt(5.5, 1.0), pt(4.5, 9.0)]);
    assert_eq!(a.clone().vertices, a.vertices);
}

#[test]
fn rotations_peg_every_edge_in_turn() {
    for shape in [
        polygon(&SQUARE),
        polygon(&TRIANGLE),
        polygon(&NOTCHED),
        polygon(&STAR),
        as_read(&STAR),
    ] {
        let placements = shape.rotations();
        assert_eq!(placements.len(), shape.len());
        for (i, placed) in placements.iter().enumerate() {
            assert_eq!(placed.len(), shape.len());
            let edge = shape.edge_at(i);
            let pegged = placed.edge_at(i);
            assert!(pegged.q.x.abs() < EPS && pegged.q.y.abs() < EPS);
            assert!(pegged.p.y.abs() < EPS && pegged.p.x > 0.0);
            assert!((pegged.p.x - edge.length()).abs() < EPS);
            for k in 0..shape.len() {
                assert!((placed.edge_at(k).length() - shape.edge_at(k).length()).abs() < EPS);
            }
        }
    }
    assert!(polygon(&[]).rotations().is_empty());
}

#[test]
fn bases_are_the_lengths_of_the_pegged_edges() {
    let shape = polygon(&TRIANGLE);
    let (rotations1, rotations2) = both_rotations(&shape, &shape);
    assert_eq!(rotations1.len(), 3);
    assert_eq!(rotations2.len(), 3);
    let lengths = bases(&shape, &rotations2);
    assert_eq!(lengths.len(), 3);
    for i in 0..3 {
        assert!((lengths[i] - shape.edge_at(i).length()).abs() < EPS);
        assert_eq!(rotations1[i].vertices, rotations2[i].negate().vertices);
    }
    let lengths = bases(&shape, &rotations1);
    for i in 0..3 {
        assert!((lengths[i] - shape.edge_at(i).length()).abs() < EPS);
    }
}

#[test]
fn polygons_with_crossing_edges_intersect() {
    let a = polygon(&SQUARE);
    let b = polygon(&SQUARE_ACROSS);
    let mut prev = (0, 0);
    assert!(a.intersects(&b, &mut prev));
    assert!(Polygon::intersection_aux(&a, &b, prev.0, prev.1));
    assert!(collides(a.vertices_at(prev.0), b.vertices_at(prev.1)));

    let mut again = prev;
    assert!(a.intersects(&b, &mut again));
    assert_eq!(again, prev);
}

#[test]
fn polygons_apart_or_side_by_side_do_not_intersect() {
    let a = polygon(&SQUARE);
    let mut prev = (3, -2);
    assert!(!a.intersects(&polygon(&SQUARE_APART), &mut prev));
    assert_eq!(prev, (3, -2));
    assert!(!a.intersects(&polygon(&SQUARE_BESIDE), &mut prev));
    assert_eq!(prev, (3, -2));
}

#[test]
fn edges_that_run_along_a_side_of_a_corner_are_no_overlap() {
    let a = polygon(&SQUARE);
    let mut prev = (0, 0);
    assert!(!a.intersects(&polygon(&SQUARE), &mut prev));
    assert_eq!(prev, (0, 0));
    let corner = (pt(0.0, 4.0), pt(0.0, 0.0), pt(4.0, 0.0));
    assert!(!collides((pt(0.0, 2.0), pt(0.0, 0.0), pt(2.0, 0.0)), corner));
    assert!(collides((pt(0.0, 2.0), pt(0.0, 0.0), pt(2.0, 2.0)), corner));
    assert!(collides((pt(3.0, 1.0), pt(0.0, 0.0), pt(0.0, 2.0)), corner));
}

#[test]
fn heuristic_agrees_with_the_test_of_every_pair() {
    let shapes = [
        polygon(&SQUARE),
        polygon(&SQUARE_BESIDE),
        polygon(&SQUARE_ACROSS),
        polygon(&SQUARE_APART),
        polygon(&BIG_SQUARE),
        polygon(&TRIANGLE),
        polygon(&NOTCHED),
        polygon(&STAR),
        as_read(&STAR),
        as_read(&NOTCHED),
    ];
    for a in &shapes {
        for b in &shapes {
            let mut exhaustive = false;
            for i in 0..a.len() {
                for j in 0..b.len() {
                    exhaustive |= collides(a.vertices_at(i as i32), b.vertices_at(j as i32));
                }
            }
            let mut prev = (0, 0);
            assert_eq!(a.intersects(b, &mut prev), exhaustive);
            for start in [(1, 1), (-7, 30), (100, -100)] {
                let mut prev = start;
                assert_eq!(a.intersects(b, &mut prev), exhaustive);
            }
        }
    }
}

#[test]
fn angle_is_swept_counter_clockwise() {
    let quarter = std::f64::consts::FRAC_PI_2;
    assert!(similar(swept_angle(pt(1.0, 0.0), pt(0.0, 1.0)), quarter));
    assert!(similar(swept_angle(pt(0.0, 1.0), pt(1.0, 0.0)), 3.0 * quarter));
    assert!(similar(swept_angle(pt(2.0, 0.0), pt(-3.0, 0.0)), 2.0 * quarter));
    assert_eq!(swept_angle(pt(2.0, 0.0), pt(5.0, 0.0)), 0.0);
}

#[test]
fn wedge_overlaps_tells_an_edge_inside_a_corner() {
    let corner = (pt(0.0, 4.0), pt(0.0, 0.0), pt(4.0, 0.0));
    assert!(wedge_overlaps((pt(2.0, 2.0), pt(0.0, 0.0), pt(-1.0, -1.0)), corner));
    assert!(wedge_overlaps((pt(-1.0, -1.0), pt(0.0, 0.0), pt(2.0, 2.0)), corner));
    assert!(!wedge_overlaps((pt(-1.0, -1.0), pt(0.0, 0.0), pt(3.0, 0.0)), corner));
    assert!(!wedge_overlaps((pt(0.0, 3.0), pt(0.0, 0.0), pt(3.0, 0.0)), corner));
    assert!(!wedge_overlaps((pt(3.0, 0.0), pt(0.0, 0.0), pt(-1.0, -1.0)), corner));
    assert!(!wedge_overlaps((pt(0.0, 3.0), pt(0.0, 0.0), pt(-1.0, -1.0)), corner));
    assert!(!wedge_overlaps((pt(-1.0, -1.0), pt(0.0, 0.0), pt(0.0, 3.0)), corner));
    assert!(!wedge_overlaps((pt(-1.0, 2.0), pt(0.0, 0.0), pt(2.0, -1.0)), corner));
}

#[test]
fn horizontal_distance_is_measured_along_the_x_axis() {
    assert_eq!(seg(1.0, 0.0, 1.0, 4.0).horizontal_distance(pt(3.5, 2.0)), 2.5);
    assert!(similar(seg(0.0, 0.0, 4.0, 4.0).horizontal_distance(pt(5.0, 2.0)), 3.0));
    assert!(similar(seg(0.0, 0.0, 4.0, 4.0).horizontal_distance(pt(1.0, 2.0)), -1.0));
}

#[test]
fn may_touch_asks_for_a_left_turn_and_a_facing_edge() {
    let wall = seg(0.0, 0.0, 0.0, 4.0);
    assert!(may_touch(&wall, (pt(3.0, 3.0), pt(2.0, 2.0), pt(3.0, 1.0))));
    assert!(!may_touch(&wall, (pt(3.0, 1.0), pt(2.0, 2.0), pt(3.0, 3.0))));
    assert!(!may_touch(&wall, (pt(3.0, 8.0), pt(2.0, 7.0), pt(3.0, 6.0))));
    assert!(!may_touch(&wall, (pt(1.0, 1.0), pt(2.0, 2.0), pt(1.0, 3.0))));
}

#[test]
fn collect_shifts_gives_the_shifts_inside_the_range() {
    let wall = polygon(&[(0.0, 0.0), (0.0, 4.0)]);
    let wedge = polygon(&[(3.0, 3.0), (2.0, 2.0), (3.0, 1.0)]);
    assert_eq!(collect_shifts(&wall, &wedge, true, 10.0), vec![3.0, 2.0, 3.0, 3.0, 3.0]);
    assert_eq!(collect_shifts(&wall, &wedge, true, 3.0), vec![2.0]);
    assert!(collect_shifts(&wall, &wedge, true, 2.0).is_empty());
    assert!(collect_shifts(&wall, &wedge, false, 10.0).is_empty());
    let level = polygon(&[(0.0, 2.0), (5.0, 2.0)]);
    assert!(collect_shifts(&level, &wedge, true, 10.0).is_empty());
    assert!(collect_shifts(&polygon(&[]), &wedge, true, 10.0).is_empty());
    assert!(collect_shifts(&wall, &polygon(&[]), true, 10.0).is_empty());
}

#[test]
fn collect_all_shifts_holds_both_bases_in_ascending_order() {
    let a = polygon(&SQUARE);
    let b = polygon(&TRIANGLE);
    let shifts = collect_all_shifts(&a, &b, 4.0, 2.0);
    assert!(shifts.len() >= 2);
    assert!(shifts.contains(&4.0));
    assert!(shifts.contains(&2.0));
    for pair in shifts.windows(2) {
        assert!(pair[0] <= pair[1]);
    }
    for x in &shifts {
        assert!(*x > 0.0 && *x < 6.0 + EPS);
    }
    let wall = polygon(&[(0.0, 0.0), (0.0, 4.0)]);
    let wedge = polygon(&[(3.0, 3.0), (2.0, 2.0), (3.0, 1.0)]);
    assert_eq!(
        collect_all_shifts(&wall, &wedge, 7.0, 5.0),
        vec![2.0, 3.0, 3.0, 3.0, 3.0, 5.0, 7.0]
    );
}

#[test]
fn ascending_sorts_and_keeps_every_length() {
    let sorted = ascending::<Point>(&vec![3.0, 1.0, 2.0, 1.0, 7.5, -4.0, 2.0]);
    assert_eq!(sorted, vec![-4.0, 1.0, 1.0, 2.0, 2.0, 3.0, 7.5]);
    assert!(ascending::<Point>(&vec![]).is_empty());
    assert_eq!(ascending::<Point>(&vec![5.0]), vec![5.0]);
    assert_eq!(ascending::<Point>(&vec![2.0, 1.0]), vec![1.0, 2.0]);
    let mut many: Vec<f64> = (0..1000).map(|k| f64::from((k * 7919) % 1009)).collect();
    let sorted = ascending::<Point>(&many);
    many.sort_by(|a, b| a.partial_cmp(b).unwrap());
    assert_eq!(sorted, many);
}

#[test]
fn merge_joins_two_ascending_lists() {
    assert_eq!(
        merge::<Point>(&vec![1.0, 4.0, 9.0], &vec![2.0, 4.0, 5.0, 10.0]),
        vec![1.0, 2.0, 4.0, 4.0, 5.0, 9.0, 10.0]
    );
    assert_eq!(merge::<Point>(&vec![], &vec![2.0]), vec![2.0]);
    assert_eq!(merge::<Point>(&vec![3.0], &vec![]), vec![3.0]);
}

#[test]
fn optimal_shift_finds_the_flush_position() {
    let a = polygon(&SQUARE);
    let b = polygon(&SQUARE);
    let (rotations1, rotations2) = both_rotations(&a, &b);
    let base1 = bases(&a, &rotations1);
    let base2 = bases(&b, &rotations2);
    let (boundary, offset) = optimal_shift(&rotations1[0], &rotations2[0], base1[0], base2[0]);
    println!("boundary {boundary} offset {offset}");
    assert!(similar(boundary, 4.0));
    assert!(similar(offset, 4.0));
    let moved = rotations1[0].shifted(offset);
    assert!(similar(moved.common_boundary(&rotations2[0]), 4.0));
    let mut prev = (0, 0);
    assert!(!moved.intersects(&rotations2[0], &mut prev));
}

#[test]
fn pick_best_takes_the_first_of_the_longest() {
    let a = polygon(&SQUARE);
    let b = polygon(&TRIANGLE);
    let (rotations1, rotations2) = both_rotations(&a, &b);
    let sweeps = vec![
        (1.0, 0.5),
        (3.0, 1.5),
        (2.0, 2.5),
        (3.0, 3.5),
        (0.0, 0.0),
        (0.0, 0.0),
        (0.0, 0.0),
        (0.0, 0.0),
        (0.0, 0.0),
        (0.0, 0.0),
        (0.0, 0.0),
        (0.0, 0.0),
    ];
    let (p1, p2, boundary) = pick_best(&rotations1, &rotations2, &sweeps);
    assert_eq!(boundary, 3.0);
    assert_eq!(p1.vertices, rotations1[0].shifted(1.5).vertices);
    assert_eq!(p2.vertices, rotations2[1].vertices);

    let mut later = sweeps.clone();
    later[11] = (7.0, 2.0);
    let (p1, p2, boundary) = pick_best(&rotations1, &rotations2, &later);
    assert_eq!(boundary, 7.0);
    assert_eq!(p1.vertices, rotations1[3].shifted(2.0).vertices);
    assert_eq!(p2.vertices, rotations2[2].vertices);
}

#[test]
fn sweep_all_sweeps_every_pair_in_order() {
    let a = polygon(&SQUARE);
    let b = polygon(&TRIANGLE);
    let (rotations1, rotations2) = both_rotations(&a, &b);
    let base1 = bases(&a, &rotations1);
    let base2 = bases(&b, &rotations2);
    let sweeps = sweep_all(&rotations1, &rotations2, &base1, &base2);
    assert_eq!(sweeps.len(), 12);
    for i in 0..4 {
        for j in 0..3 {
            let alone = optimal_shift(&rotations1[i], &rotations2[j], base1[i], base2[j]);
            assert_eq!(sweeps[i * 3 + j], alone);
        }
    }
    let (_, _, boundary) = pick_best(&rotations1, &rotations2, &sweeps);
    assert_eq!(boundary, best_match(&a, &b).2);
}

#[test]
fn squares_side_by_side_share_a_whole_edge() {
    let a = polygon(&SQUARE);
    let b = polygon(&SQUARE_BESIDE);
    let (p1, p2, boundary) = best_match(&a, &b);
    println!("boundary {boundary}");
    assert!(similar(boundary, 4.0));
    assert_eq!(p1.len(), 4);
    assert_eq!(p2.len(), 4);
    assert!(similar(p1.common_boundary(&p2), 4.0));
    let mut prev = (0, 0);
    assert!(!p1.intersects(&p2, &mut prev));
    let chains = PolylineSet::try_from_segments(&p1.common_boundary_segments(&p2))
        .unwrap()
        .get_polylines();
    assert_eq!(chains.len(), 1);
}

#[test]
fn a_small_square_against_a_large_one() {
    let a = polygon(&SQUARE);
    let b = polygon(&BIG_SQUARE);
    let (p1, p2, boundary) = best_match(&a, &b);
    println!("boundary {boundary}");
    assert!(similar(p1.common_boundary(&p2), boundary));
    let mut prev = (0, 0);
    assert!(!p1.intersects(&p2, &mut prev));
    assert!(similar(boundary, 4.0));
}

#[test]
fn polygons_without_a_fitting_pair_of_edges_find_no_match() {
    let a = as_read(&SQUARE);
    let b = as_read(&BIG_SQUARE);
    let (p1, p2, boundary) = best_match(&a, &b);
    assert_eq!(boundary, 0.0);
    assert_eq!(p1.len(), 4);
    assert_eq!(p2.len(), 4);
    let (_, _, boundary) = best_match(&as_read(&SQUARE), &as_read(&SQUARE_BESIDE));
    assert_eq!(boundary, 0.0);
}

#[test]
fn a_triangle_fits_into_a_notch() {
    let notch = polygon(&[
        (0.0, 0.0),
        (10.0, 0.0),
        (10.0, 6.0),
        (7.0, 6.0),
        (5.0, 2.0),
        (3.0, 6.0),
        (0.0, 6.0),
    ]);
    let tooth = polygon(&[(3.0, 6.0), (5.0, 2.0), (7.0, 6.0)]);
    let (p1, p2, boundary) = best_match(&tooth, &notch);
    println!("boundary {boundary}");
    let side = (2.0_f64 * 2.0 + 4.0 * 4.0).sqrt();
    assert!(similar(boundary, 2.0 * side));
    assert!(similar(p1.common_boundary(&p2), boundary));
    let mut prev = (0, 0);
    assert!(!p1.intersects(&p2, &mut prev));
    let chains = PolylineSet::try_from_segments(&p1.common_boundary_segments(&p2))
        .unwrap()
        .get_polylines();
    assert_eq!(chains.len(), 1);
    assert_eq!(chains[0].len(), 3);
}
