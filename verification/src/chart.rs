use vstd::prelude::*;
use crate::axis::auto_axis;
use crate::axis::lemma_offset_bounds;
use crate::axis::manual_axis;
use crate::axis::transpose;
use crate::axis::transposed;
use crate::axis::Axis;
use crate::axis::MAX_SIZE;
use crate::decimal::AXIS_PER_UNIT;
use crate::bitmap::data_offset;
use crate::bitmap::encoded;
use crate::bitmap::index_in;
use crate::bitmap::is_first_index;
use crate::bitmap::is_hex_color;
use crate::bitmap::lemma_index_in;
use crate::bitmap::parsed_color;
use crate::bitmap::BitMap;
use crate::bitmap::BitMapView;
use crate::bitmap::Color;
use crate::bitmap::PALETTE_CAPACITY;
use crate::error::GraphError;
use crate::line::extrapolate;
use crate::line::rasterized;
use crate::point::DisplayPoint;
use crate::point::Point;
use crate::tick::create_dashes;
use crate::tick::dashes;

verus! {

/// Width of an axis arrow.
pub const W_ARROW: usize = 4;
/// Width of a digit in pixels.
pub const W_NUMBER: usize = 4;
/// Height of a digit in pixels.
pub const H_NUMBER: usize = 5;
/// Free pixels round the graph.
pub const W_BORDER: usize = 1;
/// Half the height of an axis arrow.
pub const H_ARROW_HALF: usize = 3;
/// Pixels kept free before the plot: a border, and a label across and along.
pub const LEFT_SHIFT: usize = W_BORDER + W_NUMBER + H_NUMBER;
/// Pixels kept free behind the plot: the arrow.
pub const RIGHT_SHIFT: usize = W_ARROW;
/// Smallest side of a canvas that holds both axes with labels and arrows.
pub const MIN_SIDE: usize = 2 * H_NUMBER + 2 * W_NUMBER + W_ARROW + 2 * W_BORDER;

/// Whether every point equals the first one.
pub open spec fn all_same(points: Seq<Point>) -> bool {
    forall|i: int| 0 <= i < points.len() ==> #[trigger] points[i] == points[0]
}

/// Whether the four numbers are the greatest and the smallest `x` and the
/// greatest and the smallest `y` among `points`.
pub open spec fn is_extent(points: Seq<Point>, max_x: i64, min_x: i64, max_y: i64, min_y: i64) -> bool {
    &&& forall|i: int|
        0 <= i < points.len() ==> min_x <= (#[trigger] points[i]).x <= max_x && min_y
            <= points[i].y <= max_y
    &&& exists|i: int| 0 <= i < points.len() && (#[trigger] points[i]).x == max_x
    &&& exists|i: int| 0 <= i < points.len() && (#[trigger] points[i]).x == min_x
    &&& exists|i: int| 0 <= i < points.len() && (#[trigger] points[i]).y == max_y
    &&& exists|i: int| 0 <= i < points.len() && (#[trigger] points[i]).y == min_y
}

/// A line to draw: its points in order, its colour and its extent.
#[derive(Debug)]
pub struct Serie {
    pub points: Vec<Point>,
    pub color: Color,
    pub max_x: i64,
    pub max_y: i64,
    pub min_x: i64,
    pub min_y: i64,
}

impl Serie {
    /// At least two points, not all of them equal, and the extent is theirs.
    pub open spec fn wf(&self) -> bool {
        &&& self.points@.len() >= 2
        &&& !all_same(self.points@)
        &&& is_extent(self.points@, self.max_x, self.min_x, self.max_y, self.min_y)
    }

    /// A series of the given points in the given colour, written as `#RRGGBB`.
    pub fn new(points: Vec<Point>, color: String) -> (result: Result<Self, GraphError>)
        ensures
            points@.len() < 2 ==> result is Err && result->Err_0 == GraphError::NotEnoughPoints,
            points@.len() >= 2 && all_same(points@) ==> result is Err && result->Err_0
                == GraphError::DegenerateSeries,
            points@.len() >= 2 && !all_same(points@) && !is_hex_color(color@) ==> result is Err
                && result->Err_0 == GraphError::InvalidColorFormat,
            points@.len() >= 2 && !all_same(points@) && is_hex_color(color@) ==> result is Ok
                && result->Ok_0.wf() && result->Ok_0.points@ == points@ && result->Ok_0.color
                == parsed_color(color@),
    {
        if points.len() < 2 {
            return Err(GraphError::NotEnoughPoints);
        }
        let first: Point = points[0];
        let mut differs: bool = false;
        let mut i: usize = 1;
        while i < points.len()
            invariant
                1 <= i <= points@.len(),
                first == points@[0],
                differs <==> exists|j: int| 0 <= j < i && #[trigger] points@[j] != points@[0],
            decreases points@.len() - i,
        {
            if points[i] != first {
                differs = true;
            }
            i += 1;
        }
        if !differs {
            return Err(GraphError::DegenerateSeries);
        }
        let color: Color = match Color::from_hex(color.as_str()) {
            Ok(c) => c,
            Err(e) => {
                return Err(e);
            },
        };
        let (max_x, min_x, max_y, min_y) = Self::calculate_max_min(&points);
        Ok(
            Serie {
                points: points,
                color: color,
                max_x: max_x,
                max_y: max_y,
                min_x: min_x,
                min_y: min_y,
            },
        )
    }

    /// The greatest and the smallest `x`, then the greatest and the smallest
    /// `y`, among `points`.
    pub fn calculate_max_min(points: &Vec<Point>) -> (extent: (i64, i64, i64, i64))
        requires
            points@.len() >= 1,
        ensures
            is_extent(points@, extent.0, extent.1, extent.2, extent.3),
    {
        let first: Point = points[0];
        let mut max_x: i64 = first.x;
        let mut min_x: i64 = first.x;
        let mut max_y: i64 = first.y;
        let mut min_y: i64 = first.y;
        let mut i: usize = 1;
        proof {
            assert(points@.take(1)[0] == first);
        }
        while i < points.len()
            invariant
                1 <= i <= points@.len(),
                is_extent(points@.take(i as int), max_x, min_x, max_y, min_y),
            decreases points@.len() - i,
        {
            let p: Point = points[i];
            let ghost before = points@.take(i as int);
            let ghost after = points@.take(i + 1);
            proof {
                let a = choose|k: int| 0 <= k < before.len() && (#[trigger] before[k]).x == max_x;
                let b = choose|k: int| 0 <= k < before.len() && (#[trigger] before[k]).x == min_x;
                let c = choose|k: int| 0 <= k < before.len() && (#[trigger] before[k]).y == max_y;
                let d = choose|k: int| 0 <= k < before.len() && (#[trigger] before[k]).y == min_y;
                assert(after[a] == before[a] && after[b] == before[b] && after[c] == before[c]
                    && after[d] == before[d]);
                assert(after[i as int] == p);
                assert forall|k: int| 0 <= k < before.len() implies #[trigger] after[k]
                    == before[k] by {}
            }
            if p.x > max_x {
                max_x = p.x;
            }
            if p.x < min_x {
                min_x = p.x;
            }
            if p.y > max_y {
                max_y = p.y;
            }
            if p.y < min_y {
                min_y = p.y;
            }
            i += 1;
            proof {
                assert forall|k: int| 0 <= k < after.len() implies min_x <= (#[trigger] after[k]).x
                    <= max_x && min_y <= after[k].y <= max_y by {
                    if k < before.len() {
                        assert(after[k] == before[k]);
                    }
                }
            }
        }
        proof {
            assert(points@.take(points@.len() as int) =~= points@);
        }
        (max_x, min_x, max_y, min_y)
    }
}


/// A rectangle of pixels: the columns from `x0` up to, not including, `x1`,
/// and the rows from `y0` up to, not including, `y1`.
#[derive(Debug, Clone, Copy)]
pub struct Area {
    pub x0: usize,
    pub x1: usize,
    pub y0: usize,
    pub y1: usize,
}

/// Whether `p` lies in `area`.
pub open spec fn inside(p: DisplayPoint, area: Area) -> bool {
    area.x0 <= p.x < area.x1 && area.y0 <= p.y < area.y1
}

/// The rows of `pixels`, `width` pixels each, after every point of `points`
/// that lies in `area` was given `color`, in the order of `points`.
pub open spec fn painted(
    pixels: Seq<u8>,
    width: int,
    area: Area,
    points: Seq<DisplayPoint>,
    color: u8,
) -> Seq<u8>
    decreases points.len(),
{
    if points.len() == 0 {
        pixels
    } else {
        let before = painted(pixels, width, area, points.drop_last(), color);
        let p = points.last();
        if inside(p, area) {
            before.update(p.y * width + p.x, color)
        } else {
            before
        }
    }
}

/// Whether one of `points` lies in `area` and on the pixel at place `at` of
/// rows `width` pixels long.
pub open spec fn names(points: Seq<DisplayPoint>, width: int, area: Area, at: int) -> bool {
    exists|k: int|
        0 <= k < points.len() && inside(#[trigger] points[k], area) && points[k].y * width
            + points[k].x == at
}

/// Painting keeps the number of pixels, gives the colour to every pixel that
/// a point in the area names, and leaves every other pixel as it was.
pub proof fn lemma_painted(
    pixels: Seq<u8>,
    width: int,
    area: Area,
    points: Seq<DisplayPoint>,
    color: u8,
)
    requires
        area.x1 <= width,
        area.y1 * width <= pixels.len(),
    ensures
        painted(pixels, width, area, points, color).len() == pixels.len(),
        forall|at: int|
            0 <= at < pixels.len() ==> #[trigger] painted(pixels, width, area, points, color)[at]
                == (if names(points, width, area, at) {
                color
            } else {
                pixels[at]
            }),
    decreases points.len(),
{
    if points.len() > 0 {
        let front = points.drop_last();
        let p = points.last();
        let before = painted(pixels, width, area, front, color);
        lemma_painted(pixels, width, area, front, color);
        if inside(p, area) {
            assert(0 <= p.y * width + p.x < pixels.len()) by (nonlinear_arith)
                requires
                    0 <= p.y < area.y1,
                    0 <= p.x < width,
                    area.y1 * width <= pixels.len(),
            ;
        }
        assert forall|at: int| 0 <= at < pixels.len() implies #[trigger] painted(
            pixels,
            width,
            area,
            points,
            color,
        )[at] == (if names(points, width, area, at) {
            color
        } else {
            pixels[at]
        }) by {
            if names(front, width, area, at) {
                let k = choose|k: int|
                    0 <= k < front.len() && inside(#[trigger] front[k], area) && front[k].y
                        * width + front[k].x == at;
                assert(points[k] == front[k]);
            }
            if inside(p, area) && p.y * width + p.x == at {
                assert(points[points.len() - 1] == p);
            }
            if names(points, width, area, at) {
                let k = choose|k: int|
                    0 <= k < points.len() && inside(#[trigger] points[k], area) && points[k].y
                        * width + points[k].x == at;
                if k < front.len() {
                    assert(front[k] == points[k]);
                }
            }
        }
    }
}

/// Gives every point of `points` that lies in `area` the colour `color`.
pub fn paint(pixs: &mut Vec<u8>, width: usize, area: Area, points: &Vec<DisplayPoint>, color: u8)
    requires
        area.x1 <= width,
        area.y1 * width <= old(pixs)@.len(),
    ensures
        final(pixs)@ == painted(old(pixs)@, width as int, area, points@, color),
        final(pixs)@.len() == old(pixs)@.len(),
{
    let length: usize = pixs.len();
    let mut i: usize = 0;
    while i < points.len()
        invariant
            i <= points@.len(),
            area.x1 <= width,
            area.y1 * width <= length,
            pixs@.len() == length,
            length == old(pixs)@.len(),
            pixs@ == painted(old(pixs)@, width as int, area, points@.take(i as int), color),
        decreases points@.len() - i,
    {
        let p: DisplayPoint = points[i];
        proof {
            assert(points@.take(i + 1).drop_last() =~= points@.take(i as int));
            assert(points@.take(i + 1).last() == p);
        }
        if area.x0 <= p.x && p.x < area.x1 && area.y0 <= p.y && p.y < area.y1 {
            proof {
                assert(0 <= p.y * width && p.y * width + p.x < area.y1 * width)
                    by (nonlinear_arith)
                    requires
                        0 <= p.y < area.y1,
                        0 <= p.x < width,
                ;
            }
            pixs.set(p.y * width + p.x, color);
        }
        i += 1;
    }
    proof {
        assert(points@.take(points@.len() as int) =~= points@);
    }
}

/// The whole canvas.
pub open spec fn canvas_area(width: usize, height: usize) -> Area {
    Area { x0: 0, x1: width, y0: 0, y1: height }
}

/// The part of the canvas on which lines are drawn: right of and above the
/// axis lines, and short of the arrows.
pub open spec fn plot_area(width: usize, height: usize) -> Area {
    Area {
        x0: (LEFT_SHIFT + 1) as usize,
        x1: (width - RIGHT_SHIFT) as usize,
        y0: (LEFT_SHIFT + 1) as usize,
        y1: (height - RIGHT_SHIFT) as usize,
    }
}

/// The greatest and smallest `x` and the greatest and smallest `y` of the
/// first `n` series, for `n` at least one.
pub open spec fn extent_of(series: Seq<Serie>, n: int) -> (i64, i64, i64, i64)
    decreases n,
{
    if n <= 1 {
        (series[0].max_x, series[0].min_x, series[0].max_y, series[0].min_y)
    } else {
        let e = extent_of(series, n - 1);
        let s = series[n - 1];
        (
            if s.max_x > e.0 {
                s.max_x
            } else {
                e.0
            },
            if s.min_x < e.1 {
                s.min_x
            } else {
                e.1
            },
            if s.max_y > e.2 {
                s.max_y
            } else {
                e.2
            },
            if s.min_y < e.3 {
                s.min_y
            } else {
                e.3
            },
        )
    }
}

/// The level axis of a chart as a caller described it, fitted to the canvas.
pub open spec fn placed_x(axis: Axis, width: usize, height: usize) -> Axis {
    Axis {
        opposite_size: height,
        ..manual_axis(
            axis.min_value as int,
            axis.max_value as int,
            axis.interval_count,
            axis.decimal_places,
            width,
        )
    }
}

/// The upright axis of a chart as a caller described it, fitted to the canvas.
pub open spec fn placed_y(axis: Axis, width: usize, height: usize) -> Axis {
    Axis {
        opposite_size: width,
        rotated: true,
        ..manual_axis(
            axis.min_value as int,
            axis.max_value as int,
            axis.interval_count,
            axis.decimal_places,
            height,
        )
    }
}

/// The palette with `color` in it: behind the others where it is new.
pub open spec fn with_color(palette: Seq<Color>, color: Color) -> Seq<Color> {
    if palette.contains(color) {
        palette
    } else {
        palette.push(color)
    }
}

/// The palette of a chart: the background, the axis colour, then the colours
/// of the first `n` series, each where it first occurs.
pub open spec fn palette_of(background: Color, axis_color: Color, series: Seq<Serie>, n: int) -> Seq<
    Color,
>
    decreases n,
{
    if n <= 0 {
        with_color(seq![background], axis_color)
    } else {
        with_color(palette_of(background, axis_color, series, n - 1), series[n - 1].color)
    }
}

/// A palette only grows as more series are taken in.
pub proof fn lemma_palette_grows(
    background: Color,
    axis_color: Color,
    series: Seq<Serie>,
    a: int,
    b: int,
)
    requires
        0 <= a <= b,
    ensures
        palette_of(background, axis_color, series, a).len() <= palette_of(
            background,
            axis_color,
            series,
            b,
        ).len(),
    decreases b - a,
{
    if a < b {
        lemma_palette_grows(background, axis_color, series, a, b - 1);
    }
}

/// The dashed columns at the first `n` ticks of the level axis.
pub open spec fn net_columns(axis_x: Axis, height: usize, n: int) -> Seq<DisplayPoint>
    decreases n,
{
    if n <= 0 {
        Seq::empty()
    } else {
        net_columns(axis_x, height, n - 1) + dashes(
            (LEFT_SHIFT + axis_x.tick_shift(n - 1)) as usize,
            LEFT_SHIFT as int,
            height - H_ARROW_HALF,
        )
    }
}

/// The dashed rows at the first `n` ticks of the upright axis.
pub open spec fn net_rows(axis_y: Axis, width: usize, n: int) -> Seq<DisplayPoint>
    decreases n,
{
    if n <= 0 {
        Seq::empty()
    } else {
        net_rows(axis_y, width, n - 1) + transposed(
            dashes(
                (LEFT_SHIFT + axis_y.tick_shift(n - 1)) as usize,
                LEFT_SHIFT as int,
                width - H_ARROW_HALF,
            ),
        )
    }
}

/// The grid: a dashed line across the plot at every tick of both axes.
pub open spec fn minor_net(axis_x: Axis, axis_y: Axis, width: usize, height: usize) -> Seq<
    DisplayPoint,
> {
    net_columns(axis_x, height, axis_x.interval_count as int) + net_rows(
        axis_y,
        width,
        axis_y.interval_count as int,
    )
}

/// The pixels on which the data points fall.
pub open spec fn mapped(points: Seq<Point>, axis_x: Axis, axis_y: Axis) -> Seq<DisplayPoint> {
    Seq::new(
        points.len(),
        |i: int|
            DisplayPoint {
                x: (axis_x.offset_of(points[i].x as int) + LEFT_SHIFT) as usize,
                y: (axis_y.offset_of(points[i].y as int) + LEFT_SHIFT) as usize,
            },
    )
}

/// Every data point, whatever its value, falls on a pixel between the axis
/// lines and the arrows, never outside the canvas: a value at or above the
/// upper end of an axis on the pixel at which the arrow starts, a value at
/// or below the lower end on the axis line.
pub proof fn lemma_mapped_on_canvas(
    points: Seq<Point>,
    axis_x: Axis,
    axis_y: Axis,
    width: usize,
    height: usize,
    i: int,
)
    requires
        fits_x(axis_x, width, height),
        fits_y(axis_y, width, height),
        0 <= i < points.len(),
    ensures
        LEFT_SHIFT <= mapped(points, axis_x, axis_y)[i].x <= width - RIGHT_SHIFT < width,
        LEFT_SHIFT <= mapped(points, axis_x, axis_y)[i].y <= height - RIGHT_SHIFT < height,
        points[i].x * AXIS_PER_UNIT >= axis_x.max_value ==> mapped(points, axis_x, axis_y)[i].x
            == width - RIGHT_SHIFT,
        points[i].y * AXIS_PER_UNIT >= axis_y.max_value ==> mapped(points, axis_x, axis_y)[i].y
            == height - RIGHT_SHIFT,
        points[i].x * AXIS_PER_UNIT <= axis_x.min_value ==> mapped(points, axis_x, axis_y)[i].x
            == LEFT_SHIFT,
        points[i].y * AXIS_PER_UNIT <= axis_y.min_value ==> mapped(points, axis_x, axis_y)[i].y
            == LEFT_SHIFT,
{
    lemma_offset_bounds(axis_x, points[i].x);
    lemma_offset_bounds(axis_y, points[i].y);
}

/// A canvas with the grid, then the level axis, then the upright axis drawn
/// on the background.
pub open spec fn with_axes(width: usize, height: usize, axis_x: Axis, axis_y: Axis, color: u8) -> Seq<
    u8,
> {
    let blank = Seq::new((width * height) as nat, |i: int| 0u8);
    let area = canvas_area(width, height);
    let net = painted(blank, width as int, area, minor_net(axis_x, axis_y, width, height), color);
    let level = painted(net, width as int, area, axis_x.points(), color);
    painted(level, width as int, area, axis_y.points(), color)
}

/// The canvas `pixels` after the lines of the first `n` series were drawn on
/// it in their order, each in the palette index of its colour.
pub open spec fn with_series(
    pixels: Seq<u8>,
    width: usize,
    height: usize,
    axis_x: Axis,
    axis_y: Axis,
    palette: Seq<Color>,
    series: Seq<Serie>,
    n: int,
) -> Seq<u8>
    decreases n,
{
    if n <= 0 {
        pixels
    } else {
        painted(
            with_series(pixels, width, height, axis_x, axis_y, palette, series, n - 1),
            width as int,
            plot_area(width, height),
            rasterized(mapped(series[n - 1].points@, axis_x, axis_y)),
            index_in(palette, series[n - 1].color) as u8,
        )
    }
}

/// What a chart holds, as plain values.
pub ghost struct ChartView {
    pub width: usize,
    pub height: usize,
    pub background: Color,
    pub axis_color: Color,
    pub pixels: Seq<u8>,
    pub axis_x: Option<Axis>,
    pub axis_y: Option<Axis>,
}

/// The level axis on which a chart draws `series`: its own where it has one,
/// else the one derived from the extent of the series. There is none
/// without a series or where all points share one `x`.
pub open spec fn resolved_x(chart: ChartView, series: Seq<Serie>) -> Option<Axis> {
    match chart.axis_x {
        Some(axis) => Some(axis),
        None => {
            let e = extent_of(series, series.len() as int);
            if series.len() == 0 || e.0 <= e.1 {
                None
            } else {
                Some(
                    Axis {
                        opposite_size: chart.height,
                        ..auto_axis(e.0 as int, e.1 as int, chart.width)
                    },
                )
            }
        },
    }
}

/// The upright axis on which a chart draws `series`.
pub open spec fn resolved_y(chart: ChartView, series: Seq<Serie>) -> Option<Axis> {
    match chart.axis_y {
        Some(axis) => Some(axis),
        None => {
            let e = extent_of(series, series.len() as int);
            if series.len() == 0 || e.2 <= e.3 {
                None
            } else {
                Some(
                    Axis {
                        opposite_size: chart.width,
                        rotated: true,
                        ..auto_axis(e.2 as int, e.3 as int, chart.height)
                    },
                )
            }
        },
    }
}

/// The palette with which a chart draws `series`.
pub open spec fn chart_palette(chart: ChartView, series: Seq<Serie>) -> Seq<Color> {
    palette_of(chart.background, chart.axis_color, series, series.len() as int)
}

/// The canvas of a chart after it drew `series` on the two axes.
pub open spec fn rendered(chart: ChartView, series: Seq<Serie>, axis_x: Axis, axis_y: Axis) -> Seq<
    u8,
> {
    let palette = chart_palette(chart, series);
    with_series(
        with_axes(
            chart.width,
            chart.height,
            axis_x,
            axis_y,
            index_in(palette, chart.axis_color) as u8,
        ),
        chart.width,
        chart.height,
        axis_x,
        axis_y,
        palette,
        series,
        series.len() as int,
    )
}

/// A canvas with two axes, on which series are drawn as lines.
#[derive(Debug)]
pub struct Chart {
    width: usize,
    height: usize,
    background_color: Color,
    axis_color: Color,
    pixs: Vec<u8>,
    axis_x: Option<Axis>,
    axis_y: Option<Axis>,
}

impl View for Chart {
    type V = ChartView;

    closed spec fn view(&self) -> ChartView {
        ChartView {
            width: self.width,
            height: self.height,
            background: self.background_color,
            axis_color: self.axis_color,
            pixels: self.pixs@,
            axis_x: self.axis_x,
            axis_y: self.axis_y,
        }
    }
}

/// Whether `axis` can serve as the level axis of a canvas of the given size.
pub open spec fn fits_x(axis: Axis, width: usize, height: usize) -> bool {
    axis.wf() && axis.size == width && axis.opposite_size == height
}

/// Whether `axis` can serve as the upright axis of a canvas of the given size.
pub open spec fn fits_y(axis: Axis, width: usize, height: usize) -> bool {
    axis.wf() && axis.size == height && axis.opposite_size == width
}

impl ChartView {
    /// The canvas holds both axes and one byte a pixel, and its size can be
    /// written into a file; an axis that is set fits the canvas.
    pub open spec fn wf(self) -> bool {
        &&& MIN_SIDE <= self.width <= MAX_SIZE
        &&& MIN_SIDE <= self.height <= MAX_SIZE
        &&& data_offset() + self.width * self.height <= u32::MAX
        &&& self.pixels.len() == self.width * self.height
        &&& self.axis_x matches Some(axis) ==> fits_x(axis, self.width, self.height)
        &&& self.axis_y matches Some(axis) ==> fits_y(axis, self.width, self.height)
    }
}

impl Chart {
    /// What the chart holds is well formed.
    pub open spec fn wf(&self) -> bool {
        self@.wf()
    }

    /// A chart of the given size with background and axes in the given
    /// colours, written as `#RRGGBB`. An axis that is handed in as described
    /// is fitted to the canvas; one that is left out is derived from the
    /// data when the chart is drawn.
    pub fn new(
        width: usize,
        height: usize,
        background_color: &str,
        axis_color: &str,
        axis_x: Option<Axis>,
        axis_y: Option<Axis>,
    ) -> (result: Result<Self, GraphError>)
        requires
            width <= MAX_SIZE,
            height <= MAX_SIZE,
            data_offset() + width * height <= u32::MAX,
        ensures
            width < MIN_SIDE || height < MIN_SIDE ==> result is Err && result->Err_0
                == GraphError::InsufficientCanvasSize,
            width >= MIN_SIDE && height >= MIN_SIDE && !(is_hex_color(background_color@)
                && is_hex_color(axis_color@)) ==> result is Err && result->Err_0
                == GraphError::InvalidColorFormat,
            width >= MIN_SIDE && height >= MIN_SIDE && is_hex_color(background_color@)
                && is_hex_color(axis_color@) && !((axis_x matches Some(x) ==> x.is_described())
                && (axis_y matches Some(y) ==> y.is_described())) ==> result is Err
                && result->Err_0 == GraphError::DegenerateAxisRange,
            width >= MIN_SIDE && height >= MIN_SIDE && is_hex_color(background_color@)
                && is_hex_color(axis_color@) && (axis_x matches Some(x) ==> x.is_described()) && (
            axis_y matches Some(y) ==> y.is_described()) ==> result is Ok && result->Ok_0.wf()
                && result->Ok_0@ == (ChartView {
                width: width,
                height: height,
                background: parsed_color(background_color@),
                axis_color: parsed_color(axis_color@),
                pixels: Seq::new((width * height) as nat, |i: int| 0u8),
                axis_x: match axis_x {
                    Some(x) => Some(placed_x(x, width, height)),
                    None => None,
                },
                axis_y: match axis_y {
                    Some(y) => Some(placed_y(y, width, height)),
                    None => None,
                },
            }),
    {
        if width < (2 * H_NUMBER + 2 * W_NUMBER + W_ARROW + 2 * W_BORDER) || height < (2 * H_NUMBER
            + 2 * W_NUMBER + W_ARROW + 2 * W_BORDER) {
            return Err(GraphError::InsufficientCanvasSize);
        }
        let background: Color = match Color::from_hex(background_color) {
            Ok(c) => c,
            Err(e) => {
                return Err(e);
            },
        };
        let axis: Color = match Color::from_hex(axis_color) {
            Ok(c) => c,
            Err(e) => {
                return Err(e);
            },
        };
        let new_axis_x: Option<Axis> = match axis_x {
            Some(x) => {
                match x.fitted(width) {
                    Ok(a) => Some(a.across(height)),
                    Err(e) => {
                        return Err(e);
                    },
                }
            },
            None => None,
        };
        let new_axis_y: Option<Axis> = match axis_y {
            Some(y) => {
                match y.fitted(height) {
                    Ok(a) => Some(a.across(width).rotate()),
                    Err(e) => {
                        return Err(e);
                    },
                }
            },
            None => None,
        };
        proof {
            assert(width * height <= u32::MAX);
        }
        let size: usize = width * height;
        let pixs: Vec<u8> = vec![0u8; size];
        let chart = Chart {
            width: width,
            height: height,
            background_color: background,
            axis_color: axis,
            pixs: pixs,
            axis_x: new_axis_x,
            axis_y: new_axis_y,
        };
        proof {
            assert(chart@.pixels =~= Seq::new((width * height) as nat, |i: int| 0u8));
        }
        Ok(chart)
    }

    fn series_extent(series: &Vec<Serie>) -> (e: (i64, i64, i64, i64))
        requires
            series@.len() >= 1,
        ensures
            e == extent_of(series@, series@.len() as int),
    {
        let mut max_x: i64 = series[0].max_x;
        let mut min_x: i64 = series[0].min_x;
        let mut max_y: i64 = series[0].max_y;
        let mut min_y: i64 = series[0].min_y;
        let mut i: usize = 1;
        while i < series.len()
            invariant
                1 <= i <= series@.len(),
                (max_x, min_x, max_y, min_y) == extent_of(series@, i as int),
            decreases series@.len() - i,
        {
            if series[i].max_x > max_x {
                max_x = series[i].max_x;
            }
            if series[i].min_x < min_x {
                min_x = series[i].min_x;
            }
            if series[i].max_y > max_y {
                max_y = series[i].max_y;
            }
            if series[i].min_y < min_y {
                min_y = series[i].min_y;
            }
            i += 1;
        }
        (max_x, min_x, max_y, min_y)
    }

    /// The two axes on which `series` are drawn: those of the chart where
    /// they are set, else those derived from the extent of the series.
    pub fn calc_axis(&self, series: &Vec<Serie>) -> (result: Result<(Axis, Axis), GraphError>)
        requires
            self.wf(),
        ensures
            match (resolved_x(self@, series@), resolved_y(self@, series@)) {
                (Some(x), Some(y)) => result == Ok::<(Axis, Axis), GraphError>((x, y)) && fits_x(
                    x,
                    self@.width,
                    self@.height,
                ) && fits_y(y, self@.width, self@.height),
                _ => result == Err::<(Axis, Axis), GraphError>(GraphError::DegenerateAxisRange),
            },
    {
        let axis_x: Axis = match self.axis_x {
            Some(axis) => axis,
            None => {
                if series.len() == 0 {
                    return Err(GraphError::DegenerateAxisRange);
                }
                let e = Self::series_extent(series);
                match Axis::set_axis_auto(e.0, e.1, self.width) {
                    Ok(axis) => axis.across(self.height),
                    Err(error) => {
                        return Err(error);
                    },
                }
            },
        };
        let axis_y: Axis = match self.axis_y {
            Some(axis) => axis,
            None => {
                if series.len() == 0 {
                    return Err(GraphError::DegenerateAxisRange);
                }
                let e = Self::series_extent(series);
                match Axis::set_axis_auto(e.2, e.3, self.height) {
                    Ok(axis) => axis.across(self.width).rotate(),
                    Err(error) => {
                        return Err(error);
                    },
                }
            },
        };
        Ok((axis_x, axis_y))
    }

    /// The grid: a dashed line across the plot at every tick of both axes.
    pub fn get_minor_net(&self, axis_x: &Axis, axis_y: &Axis) -> (v: Vec<DisplayPoint>)
        requires
            self.wf(),
            fits_x(*axis_x, self@.width, self@.height),
            fits_y(*axis_y, self@.width, self@.height),
        ensures
            v@ == minor_net(*axis_x, *axis_y, self@.width, self@.height),
    {
        let mut v: Vec<DisplayPoint> = Vec::new();
        let mut i: u8 = 0;
        while i < axis_x.interval_count
            invariant
                self.wf(),
                fits_x(*axis_x, self@.width, self@.height),
                i <= axis_x.interval_count,
                v@ == net_columns(*axis_x, self@.height, i as int),
            decreases axis_x.interval_count - i,
        {
            let shift: usize = LEFT_SHIFT + axis_x.shift_at(i);
            let mut column = create_dashes(shift, LEFT_SHIFT, self.height - H_ARROW_HALF);
            v.append(&mut column);
            i += 1;
        }
        let ghost columns = v@;
        let mut k: u8 = 0;
        proof {
            assert(v@ =~= columns + net_rows(*axis_y, self@.width, 0));
        }
        while k < axis_y.interval_count
            invariant
                self.wf(),
                fits_y(*axis_y, self@.width, self@.height),
                k <= axis_y.interval_count,
                v@ == columns + net_rows(*axis_y, self@.width, k as int),
            decreases axis_y.interval_count - k,
        {
            let shift: usize = LEFT_SHIFT + axis_y.shift_at(k);
            let column = create_dashes(shift, LEFT_SHIFT, self.width - H_ARROW_HALF);
            let mut row = transpose(&column);
            v.append(&mut row);
            k += 1;
            proof {
                assert(v@ =~= columns + net_rows(*axis_y, self@.width, k as int));
            }
        }
        v
    }

    /// Gives every point of `points` that lies on the canvas the colour `color`.
    pub fn draw_pixels(&mut self, points: &Vec<DisplayPoint>, color: u8)
        requires
            old(self).wf(),
        ensures
            final(self).wf(),
            final(self)@ == (ChartView {
                pixels: painted(
                    old(self)@.pixels,
                    old(self)@.width as int,
                    canvas_area(old(self)@.width, old(self)@.height),
                    points@,
                    color,
                ),
                ..old(self)@
            }),
    {
        let area = Area { x0: 0, x1: self.width, y0: 0, y1: self.height };
        proof {
            assert(self.height * self.width == self.width * self.height) by (nonlinear_arith);
        }
        paint(&mut self.pixs, self.width, area, points, color);
    }

    /// Draws the grid and both axes in the colour `color`.
    pub fn draw_axis(&mut self, color: u8)
        requires
            old(self).wf(),
            old(self)@.axis_x is Some,
            old(self)@.axis_y is Some,
        ensures
            final(self).wf(),
            final(self)@ == (ChartView {
                pixels: painted(
                    painted(
                        painted(
                            old(self)@.pixels,
                            old(self)@.width as int,
                            canvas_area(old(self)@.width, old(self)@.height),
                            minor_net(
                                old(self)@.axis_x->Some_0,
                                old(self)@.axis_y->Some_0,
                                old(self)@.width,
                                old(self)@.height,
                            ),
                            color,
                        ),
                        old(self)@.width as int,
                        canvas_area(old(self)@.width, old(self)@.height),
                        old(self)@.axis_x->Some_0.points(),
                        color,
                    ),
                    old(self)@.width as int,
                    canvas_area(old(self)@.width, old(self)@.height),
                    old(self)@.axis_y->Some_0.points(),
                    color,
                ),
                ..old(self)@
            }),
    {
        let axis_x: Axis = match self.axis_x {
            Some(axis) => axis,
            None => {
                return ;
            },
        };
        let axis_y: Axis = match self.axis_y {
            Some(axis) => axis,
            None => {
                return ;
            },
        };
        let minor_net = self.get_minor_net(&axis_x, &axis_y);
        self.draw_pixels(&minor_net, color);
        let points_x = axis_x.create_points();
        self.draw_pixels(&points_x, color);
        let points_y = axis_y.create_points();
        self.draw_pixels(&points_y, color);
    }

    /// The pixels on which the points of `serie` fall.
    pub fn serie_to_points(&self, serie: &Serie) -> (v: Vec<DisplayPoint>)
        requires
            self.wf(),
            self@.axis_x is Some,
            self@.axis_y is Some,
        ensures
            v@ == mapped(serie.points@, self@.axis_x->Some_0, self@.axis_y->Some_0),
            v@.len() == serie.points@.len(),
            forall|k: int|
                0 <= k < v@.len() ==> LEFT_SHIFT <= (#[trigger] v@[k]).x <= self@.width
                    - RIGHT_SHIFT && LEFT_SHIFT <= v@[k].y <= self@.height - RIGHT_SHIFT,
    {
        let mut v: Vec<DisplayPoint> = Vec::new();
        let (axis_x, axis_y) = match (self.axis_x, self.axis_y) {
            (Some(x), Some(y)) => (x, y),
            _ => {
                return v;
            },
        };
        let mut i: usize = 0;
        while i < serie.points.len()
            invariant
                i <= serie.points@.len(),
                axis_x.wf(),
                axis_y.wf(),
                v@.len() == i,
                forall|k: int|
                    0 <= k < i ==> v@[k] == mapped(serie.points@, axis_x, axis_y)[k],
            decreases serie.points@.len() - i,
        {
            let p: Point = serie.points[i];
            let id_x: usize = axis_x.pixel_offset(p.x);
            let id_y: usize = axis_y.pixel_offset(p.y);
            v.push(DisplayPoint { x: id_x + LEFT_SHIFT, y: id_y + LEFT_SHIFT });
            i += 1;
        }
        proof {
            assert(v@ =~= mapped(serie.points@, axis_x, axis_y));
            assert forall|k: int| 0 <= k < v@.len() implies LEFT_SHIFT <= (#[trigger] v@[k]).x
                <= self@.width - RIGHT_SHIFT && LEFT_SHIFT <= v@[k].y <= self@.height
                - RIGHT_SHIFT by {
                lemma_mapped_on_canvas(
                    serie.points@,
                    axis_x,
                    axis_y,
                    self@.width,
                    self@.height,
                    k,
                );
            }
        }
        v
    }

    /// Draws the line of `serie` in the colour `color` on the plot.
    pub fn draw_serie(&mut self, serie: &Serie, color: u8)
        requires
            old(self).wf(),
            old(self)@.axis_x is Some,
            old(self)@.axis_y is Some,
        ensures
            final(self).wf(),
            final(self)@ == (ChartView {
                pixels: painted(
                    old(self)@.pixels,
                    old(self)@.width as int,
                    plot_area(old(self)@.width, old(self)@.height),
                    rasterized(
                        mapped(
                            serie.points@,
                            old(self)@.axis_x->Some_0,
                            old(self)@.axis_y->Some_0,
                        ),
                    ),
                    color,
                ),
                ..old(self)@
            }),
    {
        let function = self.serie_to_points(serie);
        let func_points = extrapolate(function);
        let area = Area {
            x0: LEFT_SHIFT + 1,
            x1: self.width - RIGHT_SHIFT,
            y0: LEFT_SHIFT + 1,
            y1: self.height - RIGHT_SHIFT,
        };
        proof {
            assert((self.height - RIGHT_SHIFT) * self.width <= self.width * self.height)
                by (nonlinear_arith)
                requires
                    self.height >= RIGHT_SHIFT,
                    self.width >= 0,
            ;
        }
        paint(&mut self.pixs, self.width, area, &func_points, color);
    }

    /// Draws the grid, the axes and the lines of `series`, in their order,
    /// on the background, and hands out the picture as a file. An axis that
    /// is not set yet is derived from the series and kept.
    pub fn draw(&mut self, series: &Vec<Serie>) -> (result: Result<Vec<u8>, GraphError>)
        requires
            old(self).wf(),
        ensures
            final(self).wf(),
            match (resolved_x(old(self)@, series@), resolved_y(old(self)@, series@)) {
                (Some(x), Some(y)) => if chart_palette(old(self)@, series@).len()
                    <= PALETTE_CAPACITY {
                    &&& result is Ok
                    &&& final(self)@ == (ChartView {
                        pixels: rendered(old(self)@, series@, x, y),
                        axis_x: Some(x),
                        axis_y: Some(y),
                        ..old(self)@
                    })
                    &&& result->Ok_0@ == encoded(
                        BitMapView {
                            width: old(self)@.width as int,
                            height: old(self)@.height as int,
                            palette: chart_palette(old(self)@, series@),
                            pixels: rendered(old(self)@, series@, x, y),
                        },
                    )
                } else {
                    &&& result is Err
                    &&& result->Err_0 == GraphError::PaletteExhausted
                    &&& final(self)@ == old(self)@
                },
                _ => {
                    &&& result is Err
                    &&& result->Err_0 == GraphError::DegenerateAxisRange
                    &&& final(self)@ == old(self)@
                },
            },
    {
        let (axis_x, axis_y) = match self.calc_axis(series) {
            Ok(axes) => axes,
            Err(e) => {
                return Err(e);
            },
        };
        let mut picture = BitMap::new(self.width, self.height);
        let ghost background = self.background_color;
        let ghost axis_color = self.axis_color;
        match picture.add_color(self.background_color) {
            Ok(_) => {},
            Err(e) => {
                return Err(e);
            },
        }
        proof {
            assert(picture@.palette =~= seq![background]);
        }
        let axis_index: u8 = match picture.add_color(self.axis_color) {
            Ok(index) => index,
            Err(e) => {
                return Err(e);
            },
        };
        proof {
            assert(seq![background].contains(axis_color) <==> axis_color == background) by {
                if axis_color == background {
                    assert(seq![background][0] == axis_color);
                }
            }
            assert(picture@.palette =~= palette_of(background, axis_color, series@, 0));
        }
        let mut indices: Vec<u8> = Vec::new();
        let mut i: usize = 0;
        while i < series.len()
            invariant
                i <= series@.len(),
                self.wf(),
                self@ == old(self)@,
                background == self@.background,
                axis_color == self@.axis_color,
                resolved_x(old(self)@, series@) == Some(axis_x),
                resolved_y(old(self)@, series@) == Some(axis_y),
                picture.wf(),
                picture@.width == self.width,
                picture@.height == self.height,
                picture@.pixels == Seq::<u8>::empty(),
                picture@.palette == palette_of(background, axis_color, series@, i as int),
                picture@.palette.len() <= PALETTE_CAPACITY,
                is_first_index(picture@.palette, axis_color, axis_index as int),
                indices@.len() == i,
                forall|k: int|
                    0 <= k < i ==> is_first_index(
                        picture@.palette,
                        (#[trigger] series@[k]).color,
                        indices@[k] as int,
                    ),
            decreases series@.len() - i,
        {
            let ghost before = picture@.palette;
            match picture.add_color(series[i].color) {
                Ok(index) => {
                    indices.push(index);
                },
                Err(e) => {
                    proof {
                        assert(palette_of(background, axis_color, series@, i + 1)
                            == before.push(series@[i as int].color));
                        lemma_palette_grows(
                            background,
                            axis_color,
                            series@,
                            i + 1,
                            series@.len() as int,
                        );
                    }
                    return Err(e);
                },
            }
            proof {
                assert forall|j: int| 0 <= j < before.len() implies picture@.palette[j]
                    == before[j] by {}
            }
            i += 1;
        }
        proof {
            lemma_index_in(picture@.palette, axis_color, axis_index as int);
        }
        let ghost palette = picture@.palette;
        self.axis_x = Some(axis_x);
        self.axis_y = Some(axis_y);
        self.pixs = vec![0u8; self.width * self.height];
        proof {
            assert(self.pixs@ =~= Seq::new((self.width * self.height) as nat, |i: int| 0u8));
        }
        self.draw_axis(axis_index);
        let ghost base = self.pixs@;
        let mut n: usize = 0;
        while n < series.len()
            invariant
                n <= series@.len(),
                self.wf(),
                indices@.len() == series@.len(),
                forall|k: int|
                    0 <= k < series@.len() ==> is_first_index(
                        palette,
                        (#[trigger] series@[k]).color,
                        indices@[k] as int,
                    ),
                self@ == (ChartView {
                    pixels: with_series(
                        base,
                        self.width,
                        self.height,
                        axis_x,
                        axis_y,
                        palette,
                        series@,
                        n as int,
                    ),
                    axis_x: Some(axis_x),
                    axis_y: Some(axis_y),
                    ..old(self)@
                }),
            decreases series@.len() - n,
        {
            proof {
                lemma_index_in(palette, series@[n as int].color, indices@[n as int] as int);
            }
            self.draw_serie(&series[n], indices[n]);
            n += 1;
        }
        picture.add_pixels(self.pixs.as_slice());
        proof {
            assert(picture@.pixels =~= self.pixs@);
        }
        Ok(picture.as_vec())
    }
}

} // verus!
