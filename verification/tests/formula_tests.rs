use simple_chart::Formula;

#[test]
fn macros_test() {
    let mut places = Formula::new(800_000, 800_000, 10_000);
    let pp: Vec<(f64, f64)> = places
        .collect()
        .into_iter()
        .map(|x| {
            let x = (x as f64) / 1e6;
            (x, -(0.64f64 - x.powi(2)).abs().sqrt())
        })
        .collect();
    assert_eq!(pp.len(), 1);
    assert_eq!(pp[0].0, 0.8);
    assert!(pp[0].1.abs() < 1e-7);
}

#[test]
fn places_rise_to_the_stop() {
    let mut places = Formula::new(-1_000_000, 1_000_000, 10_000);
    let all = places.collect();
    assert_eq!(all.len(), 201);
    assert_eq!(all[0], -1_000_000);
    assert_eq!(all[1], -990_000);
    assert_eq!(all[200], 1_000_000);
    assert_eq!(places.next(), None);
}

#[test]
fn places_fall_to_the_stop() {
    let mut places = Formula::new(10, 0, 3);
    assert_eq!(places.next(), Some(10));
    assert_eq!(places.next(), Some(7));
    assert_eq!(places.next(), Some(4));
    assert_eq!(places.next(), Some(1));
    assert_eq!(places.next(), None);
    assert_eq!(places.next(), None);
}

#[test]
fn a_step_that_misses_the_stop_ends_before_it() {
    assert_eq!(Formula::new(0, 10, 4).collect(), vec![0, 4, 8]);
    assert_eq!(Formula::new(0, 10, 5).collect(), vec![0, 5, 10]);
    assert_eq!(Formula::new(0, 10, 11).collect(), vec![0]);
}

#[test]
fn places_at_the_ends_of_the_range_of_values() {
    assert_eq!(
        Formula::new(i64::MAX - 2, i64::MAX, 2).collect(),
        vec![i64::MAX - 2, i64::MAX]
    );
    assert_eq!(
        Formula::new(i64::MIN + 1, i64::MIN, i64::MAX).collect(),
        vec![i64::MIN + 1]
    );
    assert_eq!(Formula::new(i64::MIN, i64::MAX, i64::MAX).collect().len(), 3);
}
