use simple_chart::line::extrapolate;
use simple_chart::line::line_points;
use simple_chart::DisplayPoint;
use simple_chart::FlatMapPairs;

fn p(x: usize, y: usize) -> DisplayPoint {
    DisplayPoint { x, y }
}

#[test]
fn path_of_two_points_holds_both_ends() {
    let path = extrapolate(vec![p(2, 3), p(7, 5)]);
    assert_eq!(
        path,
        vec![p(2, 3), p(3, 3), p(4, 4), p(5, 4), p(6, 5), p(7, 5)]
    );
}

#[test]
fn path_stays_in_the_bounding_box_and_has_no_gap() {
    let ends = [(p(0, 0), p(10, 3)), (p(10, 3), p(0, 0)), (p(5, 9), p(6, 0)), (p(4, 4), p(9, 9))];
    for (a, b) in ends {
        let path = extrapolate(vec![a, b]);
        assert_eq!(path[0], a);
        assert_eq!(path[path.len() - 1], b);
        for q in &path {
            assert!(q.x >= a.x.min(b.x) && q.x <= a.x.max(b.x));
            assert!(q.y >= a.y.min(b.y) && q.y <= a.y.max(b.y));
        }
        for w in path.windows(2) {
            assert!(w[0].x.abs_diff(w[1].x) <= 1);
            assert!(w[0].y.abs_diff(w[1].y) <= 1);
        }
    }
}

#[test]
fn steep_and_backward_segments() {
    assert_eq!(line_points(p(1, 1), p(1, 4)), vec![p(1, 1), p(1, 2), p(1, 3)]);
    assert_eq!(line_points(p(4, 1), p(1, 1)), vec![p(4, 1), p(3, 1), p(2, 1)]);
    assert_eq!(line_points(p(0, 4), p(2, 0)), vec![p(0, 4), p(1, 3), p(1, 2), p(2, 1)]);
}

#[test]
fn point_paired_with_itself_is_handed_out_once() {
    assert_eq!(line_points(p(3, 3), p(3, 3)), vec![p(3, 3)]);
    assert_eq!(extrapolate(vec![p(3, 3)]), vec![p(3, 3)]);
    assert_eq!(extrapolate(vec![p(3, 3), p(3, 3)]), vec![p(3, 3), p(3, 3)]);
    assert_eq!(extrapolate(vec![]), vec![]);
}

#[test]
fn pairs_are_walked_in_order() {
    let mut pairs = FlatMapPairs::new(vec![p(0, 0), p(2, 0), p(2, 2)], line_points);
    let mut seen = vec![];
    while let Some(q) = pairs.next() {
        seen.push(q);
    }
    assert_eq!(seen, vec![p(0, 0), p(1, 0), p(2, 0), p(2, 1), p(2, 2)]);
    assert_eq!(pairs.next(), None);
}

#[test]
fn pairs_of_numbers_are_expanded_by_a_closure() {
    let mut pairs = FlatMapPairs::new(vec![1, 4, 6], |a: i32, b: i32| (a..b).collect::<Vec<i32>>());
    let mut seen = vec![];
    while let Some(n) = pairs.next() {
        seen.push(n);
    }
    // 1 up to 4, 4 up to 6, and nothing for 6 paired with itself
    assert_eq!(seen, vec![1, 2, 3, 4, 5]);
    assert_eq!(pairs.next(), None);
}

#[test]
fn empty_chunks_are_passed_over() {
    let mut pairs = FlatMapPairs::new(vec![3, 3, 3, 5, 5], |a: u8, b: u8| {
        if a == b {
            vec![]
        } else {
            vec![a, b]
        }
    });
    assert_eq!(pairs.next(), Some(3));
    assert_eq!(pairs.next(), Some(5));
    assert_eq!(pairs.next(), None);
    let none: Vec<u8> = vec![];
    let mut pairs = FlatMapPairs::new(none, |a: u8, _b: u8| vec![a]);
    assert_eq!(pairs.next(), None);
    let mut pairs = FlatMapPairs::new(vec![7u8], |a: u8, b: u8| vec![a, b]);
    assert_eq!(pairs.next(), Some(7));
    assert_eq!(pairs.next(), Some(7));
    assert_eq!(pairs.next(), None);
}
