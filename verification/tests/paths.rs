use polygon_puzzle::result_output::paths::{Path, PathGroup};
use polygon_puzzle::shapes::segment::Segment;

#[derive(Clone, Copy, Debug)]
struct Point {
    x: f64,
    y: f64,
}

impl PartialEq for Point {
    fn eq(&self, other: &Self) -> bool {
        (self.x - other.x).abs() < 1e-9 && (self.y - other.y).abs() < 1e-9
    }
}

fn seg(x0: i32, y0: i32, x1: i32, y1: i32) -> Segment<Point> {
    Segment {
        p: Point {
            x: f64::from(x0),
            y: f64::from(y0),
        },
        q: Point {
            x: f64::from(x1),
            y: f64::from(y1),
        },
    }
}

#[test]
fn test_path_put() {
    let mut path = Path::new();
    assert!(path.put(&seg(0, 0, 0, 1)));
    assert!(path.put(&seg(5, 5, 0, 1)));
    assert!(!path.put(&seg(7, 7, 8, 8)));
    assert!(path.put(&seg(0, 0, -2, -6)));
}

#[test]
fn paths_test_paths_put() {
    let mut group = PathGroup { paths: vec![] };
    assert_eq!(group.paths.len(), 0);

    group.put(&seg(0, 0, 0, 0));
    assert_eq!(group.paths.len(), 1);

    group.put(&seg(5, 5, 7, 8));
    assert_eq!(group.paths.len(), 2);

    group.put(&seg(100, 54, 7, 8));
    assert_eq!(group.paths.len(), 2);
}

#[test]
fn path_put_grows_at_the_matching_end() {
    let mut path = Path::new();
    assert!(path.put(&Segment { p: 1, q: 2 }));
    assert_eq!(path.points, [1, 2]);
    assert!(path.put(&Segment { p: 2, q: 3 }));
    assert_eq!(path.points, [1, 2, 3]);
    assert!(path.put(&Segment { p: 4, q: 3 }));
    assert_eq!(path.points, [1, 2, 3, 4]);
    assert!(path.put(&Segment { p: 1, q: 0 }));
    assert_eq!(path.points, [0, 1, 2, 3, 4]);
    assert!(path.put(&Segment { p: -1, q: 0 }));
    assert_eq!(path.points, [-1, 0, 1, 2, 3, 4]);
    assert!(!path.put(&Segment { p: 2, q: 9 }));
    assert_eq!(path.points, [-1, 0, 1, 2, 3, 4]);
}

#[test]
fn path_put_prefers_the_back() {
    let mut path = Path::new();
    assert!(path.put(&Segment { p: 1, q: 2 }));
    assert!(path.put(&Segment { p: 1, q: 2 }));
    assert_eq!(path.points, [1, 2, 1]);
}

#[test]
fn group_put_takes_the_first_path_that_fits() {
    let segments = [
        Segment { p: 1, q: 2 },
        Segment { p: 5, q: 6 },
        Segment { p: 2, q: 5 },
        Segment { p: 6, q: 7 },
    ];
    let group = PathGroup::from_segments(&segments);
    assert_eq!(group.paths.len(), 2);
    assert_eq!(group.paths[0].points, [1, 2, 5]);
    assert_eq!(group.paths[1].points, [5, 6, 7]);
}
