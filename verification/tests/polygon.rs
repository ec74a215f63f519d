use polygon_puzzle::polygon_matcher::pairs;
use polygon_puzzle::shapes::polygon::{wrap_index, Polygon};

fn ring(n: i32) -> Polygon<i32> {
    Polygon::new((0..n).collect())
}

#[test]
fn vertex_at_wraps_in_both_directions() {
    let polygon = ring(5);
    assert_eq!(polygon.vertex_at(0), 0);
    assert_eq!(polygon.vertex_at(4), 4);
    assert_eq!(polygon.vertex_at(5), 0);
    assert_eq!(polygon.vertex_at(13), 3);
    assert_eq!(polygon.vertex_at(-1), 4);
    assert_eq!(polygon.vertex_at(-5), 0);
    assert_eq!(polygon.vertex_at(-6), 4);
    assert_eq!(polygon.vertex_at(i32::MAX), i32::MAX % 5);
    assert_eq!(polygon.vertex_at(i32::MIN), i32::MIN.rem_euclid(5));
}

#[test]
fn wrap_index_is_the_euclidean_remainder() {
    for n in 1..20_usize {
        for i in -50..50_i32 {
            assert_eq!(wrap_index(i, n), i.rem_euclid(n as i32) as usize);
        }
    }
}

#[test]
fn vertices_at_gives_both_neighbours() {
    let polygon = ring(4);
    assert_eq!(polygon.vertices_at(0), (3, 0, 1));
    assert_eq!(polygon.vertices_at(3), (2, 3, 0));
    assert_eq!(polygon.vertices_at(-1), (2, 3, 0));
    assert_eq!(polygon.vertices_at(6), (1, 2, 3));
    let single = ring(1);
    assert_eq!(single.vertices_at(9), (0, 0, 0));
}

#[test]
fn len_and_is_empty() {
    assert_eq!(ring(3).len(), 3);
    assert!(!ring(3).is_empty());
    assert_eq!(ring(0).len(), 0);
    assert!(ring(0).is_empty());
}

#[test]
fn edges_go_once_around() {
    let polygon = ring(3);
    let mut it = polygon.edges();
    let mut edges = vec![];
    while let Some(e) = it.next() {
        edges.push((e.p, e.q));
    }
    assert_eq!(edges, vec![(0, 1), (1, 2), (2, 0)]);
    assert!(it.next().is_none());
    assert!(ring(0).edges().next().is_none());
}

#[test]
fn vertices_go_once_around() {
    let polygon = ring(3);
    let mut it = polygon.vertices();
    let mut triples = vec![];
    while let Some(t) = it.next() {
        triples.push(t);
    }
    assert_eq!(triples, vec![(2, 0, 1), (0, 1, 2), (1, 2, 0)]);
    assert!(it.next().is_none());
}

#[test]
fn pairs_are_listed_row_by_row() {
    assert_eq!(
        pairs(2, 3),
        vec![(0, 0), (0, 1), (0, 2), (1, 0), (1, 1), (1, 2)]
    );
    assert!(pairs(0, 5).is_empty());
    assert!(pairs(5, 0).is_empty());
    assert_eq!(pairs(1, 1), vec![(0, 0)]);
}

#[test]
fn scan_visits_pairs_in_alternating_order() {
    let a = ring(4);
    let b = ring(3);
    let seen = std::cell::RefCell::new(vec![]);
    let mut prev = (0, 0);
    let hit = a.intersects_by(&b, &mut prev, |x, y| {
        seen.borrow_mut().push((x.1, y.1));
        false
    });
    assert!(!hit);
    assert_eq!(prev, (0, 0));
    assert_eq!(
        seen.into_inner(),
        vec![
            (0, 0),
            (0, 1),
            (0, 2),
            (1, 0),
            (1, 1),
            (1, 2),
            (3, 0),
            (3, 1),
            (3, 2),
            (2, 0),
            (2, 1),
            (2, 2)
        ]
    );
}

#[test]
fn scan_stops_at_the_first_hit_and_remembers_it() {
    let a = ring(6);
    let b = ring(5);
    let calls = std::cell::Cell::new(0);
    let mut prev = (2, 4);
    let hit = a.intersects_by(&b, &mut prev, |x, y| {
        calls.set(calls.get() + 1);
        x.1 == 1 && y.1 == 3
    });
    assert!(hit);
    assert_eq!(prev, (1, 3));
    assert_eq!(calls.get(), 2 * 5 + 3);

    let hit = a.intersects_by(&b, &mut prev, |x, y| x.1 == 1 && y.1 == 3);
    assert!(hit);
    assert_eq!(prev, (1, 3));
}

#[test]
fn scan_hands_over_whole_triples() {
    let a = ring(3);
    let b = ring(4);
    let mut prev = (0, 0);
    let hit = a.intersects_by(&b, &mut prev, |x, y| x == (1, 2, 0) && y == (2, 3, 0));
    assert!(hit);
    assert_eq!(prev, (-1, -1));
}

#[test]
fn scan_of_an_empty_polygon_finds_nothing() {
    let a = ring(0);
    let b = ring(4);
    let mut prev = (0, 0);
    assert!(!a.intersects_by(&b, &mut prev, |_, _| true));
    assert!(!b.intersects_by(&a, &mut prev, |_, _| true));
    assert_eq!(prev, (0, 0));
}

#[test]
fn scan_agrees_with_the_test_of_every_pair() {
    for n in 1..=12_i32 {
        for m in 1..=12_i32 {
            let a = ring(n);
            let b = ring(m);
            for target in [(0, 0), (n - 1, m - 1), (n / 2, m / 3), (n, m)] {
                let collide = |x: (i32, i32, i32), y: (i32, i32, i32)| (x.1, y.1) == target;
                let mut exhaustive = false;
                for i in 0..n {
                    for j in 0..m {
                        exhaustive |= collide(a.vertices_at(i), b.vertices_at(j));
                    }
                }
                for start in [(0, 0), (5, -3), (-40, 17)] {
                    let mut prev = start;
                    assert_eq!(a.intersects_by(&b, &mut prev, collide), exhaustive);
                    if exhaustive {
                        assert_eq!(a.vertex_at(prev.0), target.0);
                        assert_eq!(b.vertex_at(prev.1), target.1);
                    } else {
                        assert_eq!(prev, start);
                    }
                }
            }
        }
    }
}
