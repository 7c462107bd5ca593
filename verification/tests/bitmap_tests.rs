use simple_chart::BitMap;
use simple_chart::Color;
use simple_chart::GraphError;

#[test]
fn two_by_two_background_only() {
    let mut bitmap = BitMap::new(2, 2);
    let index = bitmap.add_color(Color::from_hex("#ffffff").unwrap()).unwrap();
    assert_eq!(index, 0);
    bitmap.add_pixels(&[index; 4]);
    let bytes = bitmap.as_vec();
    assert_eq!(bytes.len(), 14 + 124 + 256 * 4 + 4);
    assert_eq!(bytes[0], 0x42);
    assert_eq!(bytes[1], 0x4d);
    assert_eq!(&bytes[0..2], b"BM");
}

#[test]
fn file_header_fields_are_little_endian() {
    let mut bitmap = BitMap::new(3, 2);
    bitmap.add_color(Color { r: 1, g: 2, b: 3 }).unwrap();
    bitmap.add_color(Color { r: 0x10, g: 0x20, b: 0x30 }).unwrap();
    bitmap.add_pixels(&[0, 1, 0, 1, 1, 0]);
    let bytes = bitmap.as_vec();
    assert_eq!(bytes.len(), 1162 + 6);
    // file length 1168 = 0x0490, reserved, data offset 1162 = 0x048a
    assert_eq!(&bytes[2..6], &[0x90, 0x04, 0x00, 0x00]);
    assert_eq!(&bytes[6..10], &[0, 0, 0, 0]);
    assert_eq!(&bytes[10..14], &[0x8a, 0x04, 0x00, 0x00]);
    // info header: size 124, width 3, height 2, planes 1, bit count 8
    assert_eq!(&bytes[14..18], &[124, 0, 0, 0]);
    assert_eq!(&bytes[18..22], &[3, 0, 0, 0]);
    assert_eq!(&bytes[22..26], &[2, 0, 0, 0]);
    assert_eq!(&bytes[26..28], &[1, 0]);
    assert_eq!(&bytes[28..30], &[8, 0]);
    assert_eq!(&bytes[30..34], &[0, 0, 0, 0]);
    assert_eq!(&bytes[34..38], &[0, 0, 0, 0]);
    // 3780 = 0x0ec4 pixels per metre, both ways
    assert_eq!(&bytes[38..42], &[0xc4, 0x0e, 0, 0]);
    assert_eq!(&bytes[42..46], &[0xc4, 0x0e, 0, 0]);
    // two colours in use
    assert_eq!(&bytes[46..50], &[2, 0, 0, 0]);
    assert_eq!(&bytes[50..54], &[0, 0, 0, 0]);
    // masks, colour space type and colour space block are zero
    assert!(bytes[54..110].iter().all(|b| *b == 0));
    // gamma values are zero, the intent is 4
    assert!(bytes[110..122].iter().all(|b| *b == 0));
    assert_eq!(&bytes[122..126], &[4, 0, 0, 0]);
    assert!(bytes[126..138].iter().all(|b| *b == 0));
    // colour table: blue, green, red, reserved
    assert_eq!(&bytes[138..142], &[3, 2, 1, 0]);
    assert_eq!(&bytes[142..146], &[0x30, 0x20, 0x10, 0]);
    assert!(bytes[146..1162].iter().all(|b| *b == 0));
    // pixels in the order in which they were added
    assert_eq!(&bytes[1162..], &[0, 1, 0, 1, 1, 0]);
}

#[test]
fn default_bitmap_is_740_by_480() {
    let mut bitmap = BitMap::default();
    let bytes = bitmap.as_vec();
    assert_eq!(bytes.len(), 1162);
    // 740 = 0x02e4, 480 = 0x01e0
    assert_eq!(&bytes[18..22], &[0xe4, 0x02, 0, 0]);
    assert_eq!(&bytes[22..26], &[0xe0, 0x01, 0, 0]);
}

#[test]
fn colour_is_read_from_hex() {
    assert_eq!(Color::from_hex("#ffaabb"), Ok(Color { r: 0xff, g: 0xaa, b: 0xbb }));
    assert_eq!(Color::from_hex("#FFAABB"), Ok(Color { r: 0xff, g: 0xaa, b: 0xbb }));
    assert_eq!(Color::from_hex("#000000"), Ok(Color { r: 0, g: 0, b: 0 }));
    assert_eq!(Color::from_hex("#0a1B2c"), Ok(Color { r: 0x0a, g: 0x1b, b: 0x2c }));
}

#[test]
fn malformed_colour_is_refused() {
    assert_eq!(Color::from_hex(""), Err(GraphError::InvalidColorFormat));
    assert_eq!(Color::from_hex("ffaabb"), Err(GraphError::InvalidColorFormat));
    assert_eq!(Color::from_hex("#ffaab"), Err(GraphError::InvalidColorFormat));
    assert_eq!(Color::from_hex("#ffaabbc"), Err(GraphError::InvalidColorFormat));
    assert_eq!(Color::from_hex("#ffaabg"), Err(GraphError::InvalidColorFormat));
    assert_eq!(Color::from_hex("#+f+f+f"), Err(GraphError::InvalidColorFormat));
    assert_eq!(Color::from_hex("?ffaabb"), Err(GraphError::InvalidColorFormat));
    assert_eq!(Color::from_hex("#ffaaé"), Err(GraphError::InvalidColorFormat));
}

#[test]
fn colour_buffer_is_blue_green_red() {
    let color = Color { r: 1, g: 2, b: 3 };
    assert_eq!(color.get_buffer(), vec![3, 2, 1, 0]);
}

#[test]
fn same_colour_keeps_its_index() {
    let mut bitmap = BitMap::new(1, 1);
    let red = Color { r: 255, g: 0, b: 0 };
    let blue = Color { r: 0, g: 0, b: 255 };
    assert_eq!(bitmap.add_color(red), Ok(0));
    assert_eq!(bitmap.add_color(blue), Ok(1));
    assert_eq!(bitmap.add_color(red), Ok(0));
    assert_eq!(bitmap.add_color(blue), Ok(1));
}

#[test]
fn palette_holds_256_colours() {
    let mut bitmap = BitMap::new(1, 1);
    for i in 0..=255u8 {
        assert_eq!(bitmap.add_color(Color { r: i, g: 0, b: 0 }), Ok(i));
    }
    assert_eq!(bitmap.add_color(Color { r: 0, g: 1, b: 0 }), Err(GraphError::PaletteExhausted));
    assert_eq!(bitmap.add_color(Color { r: 7, g: 0, b: 0 }), Ok(7));
    let bytes = bitmap.as_vec();
    assert_eq!(&bytes[46..50], &[0, 1, 0, 0]);
    assert_eq!(&bytes[138 + 4 * 255..138 + 4 * 256], &[0, 0, 255, 0]);
}

#[test]
fn error_sentences() {
    assert_eq!(
        GraphError::InsufficientCanvasSize.to_string(),
        "There are not enough width and height to form graph with axis."
    );
    assert_eq!(
        GraphError::NotEnoughPoints.to_string(),
        "There are not enough points to display on graph."
    );
    assert_eq!(
        GraphError::DegenerateSeries.to_string(),
        "There are only one unique point. Can't construct line."
    );
    assert!(!GraphError::PaletteExhausted.to_string().is_empty());
    assert!(!GraphError::InvalidColorFormat.to_string().is_empty());
    assert!(!GraphError::DegenerateAxisRange.to_string().is_empty());
}
