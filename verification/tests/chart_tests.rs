use simple_chart::chart::paint;
use simple_chart::point::InPoint;
use simple_chart::point::IterInPoint;
use simple_chart::chart::Area;
use simple_chart::Axis;
use simple_chart::Chart;
use simple_chart::DisplayPoint;
use simple_chart::GraphError;
use simple_chart::Point;
use simple_chart::Serie;

const ONE: i64 = 1_000_000;

fn points(values: &[(i64, i64)]) -> Vec<Point> {
    values.iter().map(|v| Point { x: v.0 * ONE, y: v.1 * ONE }).collect()
}

fn pixel(bmp: &[u8], width: usize, x: usize, y: usize) -> u8 {
    bmp[1162 + y * width + x]
}

#[test]
fn not_enough_space_test() {
    let result = Chart::new(10, 15, "#ffffff", "#000000", None, None);
    assert_eq!(
        result.unwrap_err().to_string(),
        "There are not enough width and height to form graph with axis."
    );
}

#[test]
fn not_enough_points_test() {
    let v: Vec<Point> = vec![];
    let result = Serie::new(v, "#0000ff".to_string());
    assert_eq!(
        result.unwrap_err().to_string(),
        "There are not enough points to display on graph."
    );
}

#[test]
fn one_point_test() {
    let p = points(&[(1, 1)]);
    let result = Serie::new(p, "#0000ff".to_string());
    assert_eq!(
        result.unwrap_err().to_string(),
        "There are not enough points to display on graph."
    );
}

#[test]
fn two_identical_point_test() {
    let p = points(&[(1, 1), (1, 1)]);
    let result = Serie::new(p, "#0000ff".to_string());
    assert_eq!(
        result.unwrap_err().to_string(),
        "There are only one unique point. Can't construct line."
    );
}

#[test]
fn identical_points_fail_whatever_the_canvas() {
    let chart = Chart::new(100, 150, "#ffffff", "#000000", None, None);
    assert!(chart.is_ok());
    let result = Serie::new(points(&[(1, 1), (1, 1)]), "#0000ff".to_string());
    assert_eq!(result.unwrap_err(), GraphError::DegenerateSeries);
}

#[test]
fn small_canvas_fails_whatever_the_colours() {
    assert_eq!(
        Chart::new(10, 15, "white", "black", None, None).unwrap_err(),
        GraphError::InsufficientCanvasSize
    );
    assert_eq!(
        Chart::new(23, 100, "#ffffff", "#000000", None, None).unwrap_err(),
        GraphError::InsufficientCanvasSize
    );
    assert_eq!(
        Chart::new(100, 23, "#ffffff", "#000000", None, None).unwrap_err(),
        GraphError::InsufficientCanvasSize
    );
    assert!(Chart::new(24, 24, "#ffffff", "#000000", None, None).is_ok());
}

#[test]
fn malformed_colours_are_refused() {
    assert_eq!(
        Chart::new(100, 100, "white", "#000000", None, None).unwrap_err(),
        GraphError::InvalidColorFormat
    );
    assert_eq!(
        Chart::new(100, 100, "#ffffff", "#00000", None, None).unwrap_err(),
        GraphError::InvalidColorFormat
    );
    assert_eq!(
        Serie::new(points(&[(1, 1), (2, 2)]), "blue".to_string()).unwrap_err(),
        GraphError::InvalidColorFormat
    );
}

#[test]
fn series_keeps_points_and_extent() {
    let serie = Serie::new(points(&[(1, 5), (-2, 7), (3, -4)]), "#0000ff".to_string()).unwrap();
    assert_eq!(serie.points.len(), 3);
    assert_eq!(serie.max_x, 3 * ONE);
    assert_eq!(serie.min_x, -2 * ONE);
    assert_eq!(serie.max_y, 7 * ONE);
    assert_eq!(serie.min_y, -4 * ONE);
    assert_eq!((serie.color.r, serie.color.g, serie.color.b), (0, 0, 255));
}

#[test]
fn can_draw_array() {
    let p = points(&[(1, 1), (2, 2), (3, 3)]);
    let serie = Serie::new(p, "#0000ff".to_string()).unwrap();
    let mut chart = Chart::new(100, 100, "#ffffff", "#000000", None, None).unwrap();
    let series = vec![serie];
    let bmp = chart.draw(&series).unwrap();
    assert_eq!(bmp.len(), 14 + 124 + 256 * 4 + 100 * 100);
    assert_eq!(&bmp[0..2], b"BM");
    // three colours: white, black, blue, each as blue, green, red
    assert_eq!(&bmp[46..50], &[3, 0, 0, 0]);
    assert_eq!(&bmp[138..150], &[255, 255, 255, 0, 0, 0, 0, 0, 255, 0, 0, 0]);
    // the corner is background, the axis lines are in the axis colour
    assert_eq!(pixel(&bmp, 100, 0, 0), 0);
    assert_eq!(pixel(&bmp, 100, 50, 10), 1);
    assert_eq!(pixel(&bmp, 100, 10, 50), 1);
    // the greatest value falls on column 96, where the arrow starts and no
    // line is drawn; the line runs up to the pixel before it
    assert_eq!(pixel(&bmp, 100, 95, 95), 2);
    assert_eq!(pixel(&bmp, 100, 96, 96), 0);
    // the middle point and the diagonal between the points
    assert_eq!(pixel(&bmp, 100, 53, 53), 2);
    assert_eq!(pixel(&bmp, 100, 30, 30), 2);
    assert_eq!(pixel(&bmp, 100, 30, 32), 0);
    // the smallest value lies on the axes, where no line is drawn
    assert_eq!(pixel(&bmp, 100, 10, 10), 1);
}

#[test]
fn drawing_twice_gives_the_same_file() {
    let serie = Serie::new(points(&[(1, 1), (2, 2), (3, 3)]), "#0000ff".to_string()).unwrap();
    let mut chart = Chart::new(100, 100, "#ffffff", "#000000", None, None).unwrap();
    let series = vec![serie];
    let first = chart.draw(&series).unwrap();
    let second = chart.draw(&series).unwrap();
    assert_eq!(first, second);
}

#[test]
fn can_draw_axis_manual() {
    let p = points(&[(1, 1), (2, 2), (3, 3)]);
    let serie = Serie::new(p, "#0000ff".to_string()).unwrap();
    let axis_x = Some(Axis::create(0, 2 * ONE, 7, 2));
    let mut chart = Chart::new(100, 100, "#ffffff", "#000000", axis_x, None).unwrap();
    let series = vec![serie];
    let bmp = chart.draw(&series).unwrap();
    assert_eq!(bmp.len(), 1162 + 100 * 100);
    // the axis runs from 0 to 2: 1 falls on pixel 43 of 86 and on the level
    // axis; 2 and 3 fall on the last pixel, where no line is drawn
    assert_eq!(pixel(&bmp, 100, 53, 10), 1);
    assert_eq!(pixel(&bmp, 100, 54, 11), 2);
    assert_eq!(pixel(&bmp, 100, 95, 52), 2);
    assert_eq!(pixel(&bmp, 100, 96, 53), 0);
    assert_eq!(pixel(&bmp, 100, 96, 80), 0);
    assert_eq!(pixel(&bmp, 100, 95, 54), 0);
}

#[test]
fn later_series_overwrite_earlier_ones() {
    let red = Serie::new(points(&[(0, 0), (10, 10)]), "#ff0000".to_string()).unwrap();
    let green = Serie::new(points(&[(0, 0), (10, 10)]), "#00ff00".to_string()).unwrap();
    let mut chart = Chart::new(100, 100, "#000000", "#ffffff", None, None).unwrap();
    let bmp = chart.draw(&vec![red, green]).unwrap();
    assert_eq!(&bmp[46..50], &[4, 0, 0, 0]);
    // the axes run from 0 to 12 in four intervals: 10 falls on pixel 72 of 86
    assert_eq!(pixel(&bmp, 100, 82, 82), 3);
    assert_eq!(pixel(&bmp, 100, 83, 83), 0);
    assert_eq!(pixel(&bmp, 100, 40, 40), 3);
}

#[test]
fn series_of_one_colour_share_an_index() {
    let a = Serie::new(points(&[(0, 0), (10, 10)]), "#ffffff".to_string()).unwrap();
    let b = Serie::new(points(&[(0, 10), (10, 0)]), "#FFFFFF".to_string()).unwrap();
    let mut chart = Chart::new(100, 100, "#000000", "#ffffff", None, None).unwrap();
    let bmp = chart.draw(&vec![a, b]).unwrap();
    assert_eq!(&bmp[46..50], &[2, 0, 0, 0]);
    assert_eq!(pixel(&bmp, 100, 82, 82), 1);
    assert_eq!(pixel(&bmp, 100, 81, 11), 1);
    assert_eq!(pixel(&bmp, 100, 83, 83), 0);
}

#[test]
fn upright_line_has_no_level_axis() {
    let serie = Serie::new(points(&[(1, 1), (1, 5)]), "#0000ff".to_string()).unwrap();
    let mut chart = Chart::new(100, 100, "#ffffff", "#000000", None, None).unwrap();
    assert_eq!(chart.draw(&vec![serie]).unwrap_err(), GraphError::DegenerateAxisRange);
    let empty: Vec<Serie> = vec![];
    assert_eq!(chart.draw(&empty).unwrap_err(), GraphError::DegenerateAxisRange);
}

#[test]
fn described_axis_must_have_a_range() {
    let axis = Some(Axis::create(2 * ONE, 2 * ONE, 7, 2));
    assert_eq!(
        Chart::new(100, 100, "#ffffff", "#000000", axis, None).unwrap_err(),
        GraphError::DegenerateAxisRange
    );
    let axis = Some(Axis::create(0, 2 * ONE, 0, 2));
    assert_eq!(
        Chart::new(100, 100, "#ffffff", "#000000", None, axis).unwrap_err(),
        GraphError::DegenerateAxisRange
    );
}

#[test]
fn the_257th_colour_is_refused() {
    let mut series = vec![];
    for i in 0..255u32 {
        let color = format!("#00{:02x}01", i);
        series.push(Serie::new(points(&[(0, 0), (10, 10)]), color).unwrap());
    }
    let mut chart = Chart::new(50, 50, "#ffffff", "#000000", None, None).unwrap();
    assert_eq!(chart.draw(&series).unwrap_err(), GraphError::PaletteExhausted);
    series.pop();
    let bmp = chart.draw(&series).unwrap();
    assert_eq!(&bmp[46..50], &[0, 1, 0, 0]);
    assert_eq!(pixel(&bmp, 50, 45, 45), 255);
}

#[test]
fn rows_are_written_top_row_first() {
    let serie = Serie::new(points(&[(0, 0), (10, 5)]), "#0000ff".to_string()).unwrap();
    let mut chart = Chart::new(60, 40, "#ffffff", "#000000", None, None).unwrap();
    let bmp = chart.draw(&vec![serie]).unwrap();
    assert_eq!(bmp.len(), 1162 + 60 * 40);
    assert_eq!(&bmp[18..22], &[60, 0, 0, 0]);
    assert_eq!(&bmp[22..26], &[40, 0, 0, 0]);
    // the level axis line lies in row 10 of the data, counted from its start
    assert_eq!(pixel(&bmp, 60, 30, 10), 1);
    assert_eq!(pixel(&bmp, 60, 30, 0), 0);
}

#[test]
fn paint_keeps_to_its_area() {
    let mut pixs = vec![0u8; 12];
    let area = Area { x0: 1, x1: 3, y0: 0, y1: 3 };
    let dots = vec![
        DisplayPoint { x: 1, y: 0 },
        DisplayPoint { x: 0, y: 1 },
        DisplayPoint { x: 2, y: 2 },
        DisplayPoint { x: 3, y: 2 },
        DisplayPoint { x: 2, y: 3 },
    ];
    paint(&mut pixs, 4, area, &dots, 7);
    assert_eq!(pixs, vec![0, 7, 0, 0, 0, 0, 0, 0, 0, 0, 7, 0]);
}

#[test]
fn grid_and_ticks_of_a_small_chart() {
    let serie = Serie::new(points(&[(0, 0), (10, 10)]), "#0000ff".to_string()).unwrap();
    let mut chart = Chart::new(50, 50, "#ffffff", "#000000", None, None).unwrap();
    let (axis_x, axis_y) = chart.calc_axis(&vec![serie]).unwrap();
    assert_eq!(axis_x.interval_count, 1);
    assert_eq!(axis_x.max_value, 100_000_000);
    assert!(!axis_x.rotated);
    assert!(axis_y.rotated);
    let net = chart.get_minor_net(&axis_x, &axis_y);
    // one dashed column and one dashed row, each at the odd pixels from 11 to 45
    assert_eq!(net.len(), 36);
    assert_eq!((net[0].x, net[0].y), (10, 11));
    assert_eq!((net[17].x, net[17].y), (10, 45));
    assert_eq!((net[18].x, net[18].y), (11, 10));
    assert_eq!((net[35].x, net[35].y), (45, 10));
    let before = chart.draw(&vec![]).unwrap_err();
    assert_eq!(before, GraphError::DegenerateAxisRange);
}

#[test]
fn can_draw_circles_on_a_described_axis() {
    let mut outer = vec![];
    let mut inner = vec![];
    for k in 0..=200 {
        let x = -1.0 + (k as f64) * 0.01;
        let y = (1.0 - x * x).abs().sqrt();
        outer.push(Point { x: (x * 1e6).round() as i64, y: (y * 1e6).round() as i64 });
        let u = x * 0.8;
        let v = -(0.64 - u * u).abs().sqrt();
        inner.push(Point { x: (u * 1e6).round() as i64, y: (v * 1e6).round() as i64 });
    }
    let probe = inner[85];
    let serie1 = Serie::new(outer, "#ff0000".to_string()).unwrap();
    let serie2 = Serie::new(inner, "#00ff00".to_string()).unwrap();
    assert_eq!(serie1.min_x, -ONE);
    assert_eq!(serie1.max_x, ONE);
    assert_eq!(serie1.min_y, 0);
    assert_eq!(serie2.min_y, -800_000);
    let axis_x = Axis::create(-ONE, ONE, 10, 2);
    let mut chart = Chart::new(740, 740, "#000000", "#ffffff", Some(axis_x), None).unwrap();
    let series = vec![serie1, serie2];
    let (x, y) = chart.calc_axis(&series).unwrap();
    assert_eq!((x.min_value, x.max_value, x.interval_count), (-10_000_000, 10_000_000, 10));
    assert_eq!(x.scale_interval_value, 2_000_000);
    // from -0.8 to 1: one decimal place
    assert_eq!(y.decimal_places, 1);
    assert_eq!(y.min_value, -8_000_000);
    assert!(y.max_value >= 10_000_000);
    let bmp = chart.draw(&series).unwrap();
    assert_eq!(bmp.len(), 1162 + 740 * 740);
    assert_eq!(&bmp[46..50], &[4, 0, 0, 0]);
    // the top of the outer circle: x = 0 is the middle of the level axis
    let top_x = 10 + x.pixel_offset(0);
    let top_y = 10 + y.pixel_offset(ONE);
    assert_eq!(top_x, 10 + 363);
    assert_eq!(pixel(&bmp, 740, top_x, top_y), 2);
    // a point of the inner circle near its lowest
    assert_eq!(probe.x, -120_000);
    assert_eq!(pixel(&bmp, 740, 10 + x.pixel_offset(probe.x), 10 + y.pixel_offset(probe.y)), 3);
}

fn gather<P: InPoint, T: IterInPoint<P>>(iter: T) -> Vec<Point> {
    iter.map(|p| p.into()).collect()
}

#[test]
fn pairs_are_read_as_points() {
    assert_eq!(Point::from((3, -4)), Point { x: 3, y: -4 });
    assert_eq!(Point::from(&(5, 6)), Point { x: 5, y: 6 });
    let pairs = vec![(ONE, ONE), (2 * ONE, 2 * ONE)];
    let by_value = gather(pairs.clone().into_iter());
    let by_reference = gather(pairs.iter());
    assert_eq!(by_value, by_reference);
    assert_eq!(by_value, points(&[(1, 1), (2, 2)]));
    let serie = Serie::new(by_value, "#0000ff".to_string()).unwrap();
    assert_eq!(serie.max_x, 2 * ONE);
}

#[test]
fn values_at_and_beyond_the_ends_are_pinned_to_the_ends() {
    let serie = Serie::new(points(&[(-5, 1), (1, 1), (2, 3), (9, 9)]), "#0000ff".to_string())
        .unwrap();
    let axis_x = Some(Axis::create(ONE, 2 * ONE, 1, 0));
    let axis_y = Some(Axis::create(ONE, 3 * ONE, 1, 0));
    let chart = Chart::new(100, 60, "#ffffff", "#000000", axis_x, axis_y).unwrap();
    let (x, y) = chart.calc_axis(&vec![]).unwrap();
    assert_eq!((x.min_value, x.max_value), (10_000_000, 20_000_000));
    assert_eq!((y.min_value, y.max_value), (10_000_000, 30_000_000));
    assert!(y.rotated);
    let mut chart = chart;
    let bmp = chart.draw(&vec![]).unwrap();
    assert_eq!(bmp.len(), 1162 + 100 * 60);
    let dots = chart.serie_to_points(&serie);
    let dots: Vec<(usize, usize)> = dots.iter().map(|p| (p.x, p.y)).collect();
    // columns from 10 to 100 - 4, rows from 10 to 60 - 4
    assert_eq!(dots, vec![(10, 10), (10, 10), (96, 56), (96, 56)]);
}
