use simple_chart::axis::transpose;
use simple_chart::tick::create_dashes;
use simple_chart::tick::create_label;
use simple_chart::tick::create_mark;
use simple_chart::tick::create_tick_with_label;
use simple_chart::tick::get_char_picture;
use simple_chart::DisplayPoint;

fn p(x: usize, y: usize) -> DisplayPoint {
    DisplayPoint { x, y }
}

#[test]
fn mark_is_solid_then_dashed() {
    assert_eq!(create_mark(20, 18), vec![p(20, 7), p(20, 8), p(20, 9)]);
    assert_eq!(
        create_mark(20, 24),
        vec![p(20, 7), p(20, 8), p(20, 9), p(20, 11), p(20, 13), p(20, 15)]
    );
    assert_eq!(create_mark(20, 8), vec![p(20, 7), p(20, 8), p(20, 9)]);
}

#[test]
fn label_places_characters_five_pixels_apart() {
    assert_eq!(create_label(10, ".", false), vec![p(12, 1), p(11, 1)]);
    assert_eq!(
        create_label(10, "-.", false),
        vec![p(13, 3), p(12, 3), p(11, 3), p(10, 3), p(17, 1), p(16, 1)]
    );
    assert_eq!(create_label(10, "", false), vec![]);
    assert_eq!(create_label(10, "x", false), vec![]);
}

#[test]
fn inverse_label_is_turned_upside_down() {
    assert_eq!(create_label(10, ".", true), vec![p(12, 5), p(11, 5)]);
    assert_eq!(
        create_label(0, "7", true),
        vec![p(3, 1), p(2, 1), p(1, 1), p(0, 1), p(3, 2), p(2, 3), p(1, 4), p(0, 5)]
    );
}

#[test]
fn tick_is_mark_then_label() {
    let tick = create_tick_with_label(14, ".", false, 18);
    assert_eq!(tick, vec![p(14, 7), p(14, 8), p(14, 9), p(12, 1), p(11, 1)]);
}

#[test]
fn every_digit_has_a_picture_in_its_cell() {
    for c in "0123456789.-".chars() {
        let picture = get_char_picture(c);
        assert!(!picture.is_empty());
        for (x, y) in picture {
            assert!(x < 4);
            assert!(y >= 1 && y <= 5);
        }
    }
    assert_eq!(get_char_picture('1').len(), 10);
    assert_eq!(get_char_picture('5').len(), 12);
    assert_eq!(get_char_picture(' '), vec![]);
}

#[test]
fn dashes_take_the_odd_rows() {
    assert_eq!(create_dashes(4, 10, 16), vec![p(4, 11), p(4, 13), p(4, 15)]);
    assert_eq!(create_dashes(4, 11, 12), vec![p(4, 11)]);
    assert_eq!(create_dashes(4, 12, 12), vec![]);
    assert_eq!(create_dashes(4, 12, 3), vec![]);
}

#[test]
fn transpose_exchanges_column_and_row() {
    assert_eq!(transpose(&vec![p(1, 2), p(3, 4)]), vec![p(2, 1), p(4, 3)]);
    assert_eq!(transpose(&vec![]), vec![]);
}
