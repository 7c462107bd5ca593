use simple_chart::axis;
use simple_chart::Axis;
use simple_chart::GraphError;

#[test]
fn get_numbers_count_test() {
    let val = 34234;
    let c = axis::get_numbers_count(val);
    assert_eq!(c, 5);
}

#[test]
fn get_numbers_count_of_negative_counts_the_sign() {
    assert_eq!(axis::get_numbers_count(-7), 2);
    assert_eq!(axis::get_numbers_count(0), 1);
    assert_eq!(axis::get_numbers_count(i64::MIN), 20);
    assert_eq!(axis::get_numbers_count(i64::MAX), 19);
}

#[test]
fn determine_max_numbers_count_test_diff_less_10() {
    let max = 1_545_430;
    let min = 1_340_000;
    let (s_max, decimal_places) = axis::determine_max_numbers_count(max, min);
    assert_eq!(s_max, 4);
    assert_eq!(decimal_places, 2);
}

#[test]
fn determine_max_numbers_count_test_diff_more_10() {
    let max = 13_545_430;
    let min = 1_340_000;
    let (s_max, decimal_places) = axis::determine_max_numbers_count(max, min);
    assert_eq!(s_max, 3);
    assert_eq!(decimal_places, 0);
}

#[test]
fn decimal_places_of_the_smallest_range() {
    let (s_max, decimal_places) = axis::determine_max_numbers_count(1, 0);
    assert_eq!(decimal_places, 7);
    assert_eq!(s_max, 9);
}

#[test]
fn calculate_intervals_count_test_less_10() {
    let available_width = 100;
    let s_max = 5;
    let interval_count = axis::calculate_intervals_count(available_width, s_max);
    assert_eq!(interval_count, 3);
}

#[test]
fn calculate_intervals_count_test_more_10() {
    let width = 1000;
    let s_max = 5;
    let interval_count = axis::calculate_intervals_count(width, s_max);
    assert_eq!(interval_count, 10);
}

#[test]
fn calculate_intervals_count_is_at_least_one() {
    assert_eq!(axis::calculate_intervals_count(0, 5), 1);
    assert_eq!(axis::calculate_intervals_count(49, 5), 1);
    assert_eq!(axis::calculate_intervals_count(75, 5), 2);
}

#[test]
fn auto_axis_of_hundred_on_89_pixels() {
    let axis = Axis::set_axis_auto(100_000_000, 0, 89).unwrap();
    assert_eq!(axis.interval_count, 2);
    assert_eq!(axis.decimal_places, 0);
    assert_eq!(axis.scale_interval_value, 500_000_000);
    assert_eq!(axis.min_value, 0);
    assert_eq!(axis.max_value, 1_000_000_000);
    assert_eq!(axis.shift_at(0), 0);
    assert_eq!(axis.shift_at(1), 37);
    assert_eq!(axis.shift_at(2), 74);
}

#[test]
fn auto_axis_covers_the_data() {
    let max = 1_545_430;
    let min = 1_340_000;
    let axis = Axis::set_axis_auto(max, min, 300).unwrap();
    assert_eq!(axis.decimal_places, 2);
    assert_eq!(axis.min_value, 13_400_000);
    assert!(axis.max_value >= 15_454_300);
    assert_eq!(
        axis.max_value,
        axis.min_value + axis.scale_interval_value * (axis.interval_count as i128)
    );
    assert_eq!(axis.scale_interval_value % 100_000, 0);
}

#[test]
fn auto_axis_rounds_negative_ends_down() {
    let axis = Axis::set_axis_auto(25_500_000, -12_300_000, 740).unwrap();
    assert_eq!(axis.decimal_places, 0);
    assert_eq!(axis.min_value, -130_000_000);
    assert!(axis.max_value >= 255_000_000);
    assert_eq!(axis.interval_count, 10);
    assert_eq!(axis.scale_interval_value, 40_000_000);
    assert_eq!(axis.max_value, 270_000_000);
}

#[test]
fn auto_axis_errors() {
    assert_eq!(Axis::set_axis_auto(1, 0, 14), Err(GraphError::InsufficientCanvasSize));
    assert_eq!(Axis::set_axis_auto(5, 5, 100), Err(GraphError::DegenerateAxisRange));
    assert_eq!(Axis::set_axis_auto(4, 5, 100), Err(GraphError::DegenerateAxisRange));
    assert!(Axis::set_axis_auto(1, 0, 15).is_ok());
}

#[test]
fn manual_axis_is_fitted() {
    let axis = Axis::set_axis_manual(0, 2_000_000, 7, 2, 100).unwrap();
    assert_eq!(axis.min_value, 0);
    assert_eq!(axis.interval_count, 7);
    assert_eq!(axis.max_value, 20_000_000);
    assert_eq!(axis.decimal_places, 2);
    // two sevenths, in whole ten-millionths
    assert_eq!(axis.scale_interval_value, 2_857_142);
    // ticks are written to two places: 0, 0.29, 0.57, 0.86, ..
    assert_eq!(axis.value_at(0), 0);
    assert_eq!(axis.value_at(1), 2_900_000);
    assert_eq!(axis.value_at(2), 5_700_000);
    assert_eq!(axis.value_at(3), 8_600_000);
    assert_eq!(axis.value_at(7), 20_000_000);
    let described = Axis::create(0, 2_000_000, 7, 2);
    assert_eq!(described.min_value, 0);
    assert_eq!(described.max_value, 20_000_000);
    assert_eq!(described.fitted(100), Ok(axis));
}

#[test]
fn manual_axis_keeps_the_scale_as_given() {
    // from 0.25 to 1.75 in three intervals, written without decimal places
    let axis = Axis::set_axis_manual(250_000, 1_750_000, 3, 0, 100).unwrap();
    assert_eq!(axis.min_value, 2_500_000);
    assert_eq!(axis.max_value, 17_500_000);
    assert_eq!(axis.interval_count, 3);
    assert_eq!(axis.decimal_places, 0);
    assert_eq!(axis.scale_interval_value, 5_000_000);
    // 85 pixels for three intervals
    assert_eq!(axis.shift_at(0), 0);
    assert_eq!(axis.shift_at(1), 28);
    assert_eq!(axis.shift_at(2), 57);
    assert_eq!(axis.shift_at(3), 85);
    // 0.25, 0.75, 1.25 and 1.75 rounded to whole numbers
    assert_eq!(axis.value_at(0), 0);
    assert_eq!(axis.value_at(1), 10_000_000);
    assert_eq!(axis.value_at(2), 10_000_000);
    assert_eq!(axis.value_at(3), 20_000_000);
    // the ends of the range fall on the ends of the plot
    assert_eq!(axis.pixel_offset(250_000), 0);
    assert_eq!(axis.pixel_offset(1_750_000), 86);
    assert_eq!(axis.pixel_offset(1_000_000), 43);
}

#[test]
fn ticks_below_zero_are_rounded_away_from_zero() {
    let axis = Axis::set_axis_manual(-2_500_000, 2_500_000, 2, 0, 100).unwrap();
    assert_eq!(axis.value_at(0), -30_000_000);
    assert_eq!(axis.value_at(1), 0);
    assert_eq!(axis.value_at(2), 30_000_000);
    let axis = Axis::set_axis_manual(-1_240_000, 1_250_000, 1, 1, 100).unwrap();
    assert_eq!(axis.value_at(0), -12_000_000);
    assert_eq!(axis.value_at(1), 13_000_000);
    // more than seven places leave the values as they are
    let axis = Axis::set_axis_manual(-1_240_001, 1_250_001, 1, 9, 100).unwrap();
    assert_eq!(axis.decimal_places, 9);
    assert_eq!(axis.value_at(0), -12_400_010);
    assert_eq!(axis.value_at(1), 12_500_010);
}

#[test]
fn manual_axis_errors() {
    assert_eq!(Axis::set_axis_manual(0, 1, 1, 0, 10), Err(GraphError::InsufficientCanvasSize));
    assert_eq!(Axis::set_axis_manual(1, 1, 1, 0, 100), Err(GraphError::DegenerateAxisRange));
    assert_eq!(Axis::set_axis_manual(0, 1, 0, 0, 100), Err(GraphError::DegenerateAxisRange));
}

#[test]
fn value_at_the_upper_end_maps_to_the_last_pixel() {
    // 89 pixels: 10 before the axis line, 4 for the arrow, 75 for the plot
    let axis = Axis::set_axis_auto(100_000_000, 0, 89).unwrap();
    assert_eq!(axis.pixel_offset(100_000_000), 75);
    assert_eq!(axis.pixel_offset(0), 0);
    assert_eq!(axis.pixel_offset(-5), 0);
    assert_eq!(axis.pixel_offset(100_000_001), 75);
    assert_eq!(axis.pixel_offset(i64::MAX), 75);
    assert_eq!(axis.pixel_offset(i64::MIN), 0);
    assert_eq!(axis.pixel_offset(50_000_000), 38);
    assert_eq!(axis.pixel_offset(666_667), 1);
    assert_eq!(axis.pixel_offset(666_666), 0);
}

#[test]
fn ticks_are_the_same_on_every_call() {
    let axis = Axis::set_axis_auto(100_000_000, 0, 89).unwrap();
    let first = axis.create_ticks_points();
    let second = axis.create_ticks_points();
    assert_eq!(first, second);
    assert!(!first.is_empty());
}

#[test]
fn rotated_axis_exchanges_columns_and_rows() {
    let level = Axis::set_axis_auto(100_000_000, 0, 89).unwrap();
    let upright = level.rotate();
    let a = level.calculate_axis_line();
    let b = upright.create_points();
    assert_eq!(a[0].x, 10);
    assert_eq!(a[0].y, 10);
    assert_eq!(a.len(), 79);
    let arrow = level.calculate_axis_arrow();
    assert_eq!(arrow.len(), 6);
    assert_eq!((arrow[0].x, arrow[0].y), (85, 13));
    let last = b[b.len() - 1];
    assert_eq!((last.x, last.y), (9, 87));
}
