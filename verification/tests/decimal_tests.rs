use simple_chart::decimal::ceil_div;
use simple_chart::decimal::floor_div;
use simple_chart::decimal::format_decimal;
use simple_chart::decimal::power_of_ten;
use simple_chart::decimal::round_div;
use simple_chart::Axis;

#[test]
fn axis_values_are_written_in_their_shortest_form() {
    assert_eq!(format_decimal(0), "0");
    assert_eq!(format_decimal(5_000_000), "0.5");
    assert_eq!(format_decimal(-12_500_000), "-1.25");
    assert_eq!(format_decimal(10_000_000), "1");
    assert_eq!(format_decimal(500_000_000), "50");
    assert_eq!(format_decimal(1), "0.0000001");
    assert_eq!(format_decimal(-1), "-0.0000001");
    assert_eq!(format_decimal(123_456_789), "12.3456789");
    assert_eq!(format_decimal(100_000_100), "10.00001");
    assert_eq!(format_decimal(-1_200_000_000), "-120");
}

#[test]
fn division_rounds_down_and_up() {
    assert_eq!(floor_div(7, 2), 3);
    assert_eq!(floor_div(-7, 2), -4);
    assert_eq!(floor_div(-8, 2), -4);
    assert_eq!(floor_div(0, 5), 0);
    assert_eq!(floor_div(-1, 1_000), -1);
    assert_eq!(ceil_div(7, 2), 4);
    assert_eq!(ceil_div(-7, 2), -3);
    assert_eq!(ceil_div(8, 2), 4);
    assert_eq!(ceil_div(1, 1_000), 1);
    assert_eq!(ceil_div(0, 5), 0);
}

#[test]
fn powers_of_ten() {
    assert_eq!(power_of_ten(0), 1);
    assert_eq!(power_of_ten(3), 1_000);
    assert_eq!(power_of_ten(8), 100_000_000);
}

#[test]
fn tick_values_and_labels_of_a_small_range() {
    // from 1.34 to 1.54543: two decimal places
    let axis = Axis::set_axis_auto(1_545_430, 1_340_000, 300).unwrap();
    assert_eq!(axis.decimal_places, 2);
    assert_eq!(axis.min_value, 13_400_000);
    // labels are four characters wide: 285 / 20 - 1 intervals, at most ten
    assert_eq!(axis.interval_count, 10);
    // 0.21 / 10 rounded up to hundredths
    assert_eq!(axis.scale_interval_value, 300_000);
    assert_eq!(axis.max_value, 16_400_000);
    assert_eq!(format_decimal(axis.value_at(0)), "1.34");
    assert_eq!(format_decimal(axis.value_at(1)), "1.37");
    assert_eq!(format_decimal(axis.value_at(2)), "1.4");
    assert_eq!(format_decimal(axis.value_at(10)), "1.64");
    assert_eq!(axis.shift_at(0), 0);
    assert_eq!(axis.shift_at(1), 29);
    assert_eq!(axis.shift_at(3), 86);
    assert_eq!(axis.shift_at(10), 285);
}

#[test]
fn division_rounds_to_the_nearest_and_a_half_away_from_zero() {
    assert_eq!(round_div(7, 2), 4);
    assert_eq!(round_div(-7, 2), -4);
    assert_eq!(round_div(5, 3), 2);
    assert_eq!(round_div(4, 3), 1);
    assert_eq!(round_div(-4, 3), -1);
    assert_eq!(round_div(-5, 3), -2);
    assert_eq!(round_div(0, 9), 0);
    assert_eq!(round_div(9, 1), 9);
    assert_eq!(round_div(-1, 2), -1);
    assert_eq!(round_div(1, 3), 0);
}
