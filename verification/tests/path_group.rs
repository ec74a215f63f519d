use polygon_puzzle::result_output::svg::path_group::{borrow_mut_two, try_merge, PathGroup};
use polygon_puzzle::shapes::segment::Segment;
use rand::{seq::SliceRandom, thread_rng};
use std::collections::VecDeque;

#[derive(Clone, Copy, Debug)]
struct Point {
    x: f64,
    y: f64,
}

impl PartialEq for Point {
    fn eq(&self, other: &Self) -> bool {
        (self.x - other.x).abs() < 1e-9 && (self.y - other.y).abs() < 1e-9
    }
}

fn seg(x0: i32, y0: i32, x1: i32, y1: i32) -> Segment<Point> {
    let point1 = Point {
        x: f64::from(x0),
        y: f64::from(y0),
    };

    let point2 = Point {
        x: f64::from(x1),
        y: f64::from(y1),
    };

    let (p, q) = if rand::random::<f64>() > 0.5 {
        (point1, point2)
    } else {
        (point2, point1)
    };

    assert_ne!(p, q);

    Segment { p, q }
}

#[test]
fn path_group_test_paths_put() {
    let mut group = PathGroup { paths: vec![] };
    assert_eq!(group.paths.len(), 0);

    group.put(&seg(0, 0, 0, 1));
    assert_eq!(group.paths.len(), 1);

    group.put(&seg(5, 5, 7, 8));
    assert_eq!(group.paths.len(), 2);

    group.put(&seg(100, 54, 7, 8));
    assert_eq!(group.paths.len(), 2);

    assert_eq!(group.paths[0].len(), 2);
    assert_eq!(group.paths[1].len(), 3);
}

#[test]
fn test_paths_put_merge_1() {
    for _ in 0..10_000 {
        let mut group = PathGroup { paths: vec![] };
        assert_eq!(group.paths.len(), 0);

        group.put(&seg(0, 0, 5, 0));
        assert_eq!(group.paths.len(), 1);

        group.put(&seg(15, 0, 10, 0));
        assert_eq!(group.paths.len(), 2);

        group.put(&seg(5, 0, 10, 0));
        assert_eq!(group.paths.len(), 1);
    }
}

#[test]
fn test_paths_put_merge_2() {
    for _ in 0..10_000 {
        let mut group = PathGroup { paths: vec![] };
        assert_eq!(group.paths.len(), 0);

        group.put(&seg(15, 0, 10, 0));
        assert_eq!(group.paths.len(), 1);

        group.put(&seg(0, 0, 5, 0));
        assert_eq!(group.paths.len(), 2);

        group.put(&seg(5, 0, 10, 0));
        assert_eq!(group.paths.len(), 1);
    }
}

#[test]
fn test_paths_put_merge_3() {
    for _ in 0..10_000 {
        let mut group = PathGroup { paths: vec![] };
        assert_eq!(group.paths.len(), 0);

        group.put(&seg(5, 0, 10, 0));
        assert_eq!(group.paths.len(), 1);

        group.put(&seg(1, 0, 3, 0));
        assert_eq!(group.paths.len(), 2);

        group.put(&seg(3, 0, 5, 0));
        assert_eq!(group.paths.len(), 1);
    }
}

#[test]
fn test_paths_put_merge_4() {
    for _ in 0..10_000 {
        let mut group = PathGroup { paths: vec![] };
        let a = seg(490, 410, 490, 390);
        let b = seg(490, 390, 470, 390);
        let c = seg(490, 410, 510, 410);

        group.put(&a);
        assert_eq!(group.paths.len(), 1);

        group.put(&b);
        assert_eq!(group.paths.len(), 1);

        group.put(&c);
        assert_eq!(group.paths.len(), 1);
    }
}

#[test]
fn test_paths_put_merge_shuffle() {
    let mut r = thread_rng();

    for _ in 0..10_000 {
        let mut segments = vec![];
        for x in 0..100 {
            segments.push(seg(x, 10, x + 1, 10));
        }

        segments.shuffle(&mut r);
        let group = PathGroup::from_segments(&segments);
        assert_eq!(group.paths.len(), 1);
    }
}

#[test]
fn test_paths_put_merge_shuffle_remove_one() {
    let mut r = thread_rng();

    for _ in 0..10_000 {
        let mut segments = vec![];
        for x in 0..100 {
            if x == 50 {
                continue;
            }
            segments.push(seg(x, 10, x + 1, 10));
        }
        segments.shuffle(&mut r);
        let group = PathGroup::from_segments(&segments);
        assert_eq!(group.paths.len(), 2);
    }
}

#[test]
fn test_try_merge() {
    let src = VecDeque::from_iter([1, 2, 3]);
    let mut dest = VecDeque::from_iter([4, 5, 6]);
    assert!(!try_merge(&mut dest, &src));

    let src = VecDeque::from_iter([6, 8, 9]);
    let mut dest = VecDeque::from_iter([4, 5, 6]);
    assert!(try_merge(&mut dest, &src));
    assert_eq!(dest, [4, 5, 6, 8, 9]);

    let src = VecDeque::from_iter([8, 9, 10]);
    assert!(!try_merge(&mut dest, &src));

    let src = VecDeque::from_iter([9, 12, 14]);
    assert!(try_merge(&mut dest, &src));
    assert_eq!(dest, [4, 5, 6, 8, 9, 12, 14]);
}

#[test]
fn try_merge_attaches_reversed_at_the_back() {
    let src = VecDeque::from_iter([1, 2, 6]);
    let mut dest = VecDeque::from_iter([4, 5, 6]);
    assert!(try_merge(&mut dest, &src));
    assert_eq!(dest, [4, 5, 6, 2, 1]);
}

#[test]
fn try_merge_attaches_reversed_at_the_front() {
    let src = VecDeque::from_iter([4, 2, 1]);
    let mut dest = VecDeque::from_iter([4, 5, 6]);
    assert!(try_merge(&mut dest, &src));
    assert_eq!(dest, [1, 2, 4, 5, 6]);
}

#[test]
fn try_merge_attaches_at_the_front() {
    let src = VecDeque::from_iter([1, 2, 4]);
    let mut dest = VecDeque::from_iter([4, 5, 6]);
    assert!(try_merge(&mut dest, &src));
    assert_eq!(dest, [1, 2, 4, 5, 6]);
}

#[test]
fn try_merge_prefers_the_back_of_dest() {
    let src = VecDeque::from_iter([6, 7, 4]);
    let mut dest = VecDeque::from_iter([4, 5, 6]);
    assert!(try_merge(&mut dest, &src));
    assert_eq!(dest, [4, 5, 6, 7, 4]);
}

#[test]
fn try_merge_of_a_single_shared_point_changes_nothing() {
    let src = VecDeque::from_iter([6]);
    let mut dest = VecDeque::from_iter([4, 5, 6]);
    assert!(!try_merge(&mut dest, &src));
    assert_eq!(dest, [4, 5, 6]);
}

fn check_borrow_mut_two(i: usize, j: usize) {
    let mut v = vec![0, 1, 2, 3, 4, 5, 6, 7, 8];
    {
        let (ref_a, ref_b) = borrow_mut_two(&mut v, i, j);

        *ref_a += 1;
        *ref_b += 5;

        assert_eq!(*ref_a, i + 1);
        assert_eq!(*ref_b, j + 5);
    }
    for (place, value) in v.iter().enumerate() {
        if place == i {
            assert_eq!(*value, i + 1);
        } else if place == j {
            assert_eq!(*value, j + 5);
        } else {
            assert_eq!(*value, place);
        }
    }
}

#[test]
fn test_borrow_mut_two() {
    check_borrow_mut_two(2, 3);
    check_borrow_mut_two(0, 7);
    check_borrow_mut_two(1, 6);
    check_borrow_mut_two(3, 8);
    check_borrow_mut_two(5, 6);
}

#[test]
fn from_segments_of_nothing_is_empty() {
    let group: PathGroup<Point> = PathGroup::from_segments(&[]);
    assert_eq!(group.paths.len(), 0);
}

#[test]
fn from_segments_keeps_the_order_of_joined_points() {
    let segments = [
        Segment { p: 1, q: 2 },
        Segment { p: 7, q: 8 },
        Segment { p: 3, q: 2 },
        Segment { p: 8, q: 9 },
    ];
    let group = PathGroup::from_segments(&segments);
    assert_eq!(group.paths.len(), 2);
    assert_eq!(group.paths[0], [1, 2, 3]);
    assert_eq!(group.paths[1], [7, 8, 9]);
}
