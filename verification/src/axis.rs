use vstd::prelude::*;
use vstd::arithmetic::div_mod::lemma_div_is_ordered;
use vstd::arithmetic::div_mod::lemma_fundamental_div_mod;
use vstd::arithmetic::div_mod::lemma_fundamental_div_mod_converse;
use vstd::arithmetic::div_mod::lemma_mod_multiples_basic;
use crate::decimal::ceil_div;
use crate::decimal::ceil_quotient;
use crate::decimal::decimal_text;
use crate::decimal::floor_div;
use crate::decimal::format_decimal;
pub use crate::decimal::get_numbers_count;
use crate::decimal::integer_text;
use crate::decimal::lemma_pow10_increasing;
use crate::decimal::lemma_pow10_values;
use crate::decimal::lemma_round_quotient;
use crate::decimal::lemma_round_quotient_exact;
use crate::decimal::pow10;
use crate::decimal::power_of_ten;
use crate::decimal::round_div;
use crate::decimal::round_quotient;
use crate::decimal::AXIS_PER_ONE;
use crate::decimal::AXIS_PER_UNIT;
use crate::decimal::MAX_DECIMAL_PLACES;
use crate::decimal::UNITS_PER_ONE;
use crate::error::GraphError;
use crate::line::lemma_nearest_bounds;
use crate::line::nearest;
use crate::point::DisplayPoint;
use crate::tick::create_tick_with_label;
use crate::tick::tick_points;

verus! {

/// Width of the decimal point of a label, in characters.
pub const W_POINT: u8 = 1;
/// Free pixels round the graph.
pub const W_BORDER: usize = 1;
/// Free pixels between two characters of a label.
pub const W_DECIMAL_SEPARATOR: usize = 1;
/// Width of an axis arrow.
pub const W_ARROW: usize = 4;
/// Width of a digit in pixels.
pub const W_NUMBER: usize = 4;
/// Height of a digit in pixels.
pub const H_NUMBER: usize = 5;
/// Most intervals that an axis is divided into by itself.
pub const MAX_INTERVALS: u8 = 10;
/// Pixel at which an axis starts: a border, and a label across and along.
pub const START_SHIFT: usize = W_BORDER + H_NUMBER + W_NUMBER;
/// Length of an axis that was described but not yet fitted to a canvas.
pub const DEFAULT_SIZE: usize = 100;
/// Pixels of an axis that carry no data: both borders, the labels and the arrow.
pub const MARGINS: usize = 2 * W_BORDER + H_NUMBER + W_NUMBER + W_ARROW;
/// Greatest length of a canvas side: what the picture's header can hold.
pub const MAX_SIZE: usize = 0x7fff_ffff;
/// No axis value lies further from zero than this.
pub const AXIS_BOUND: i128 = 100_000_000_000_000_000_000;
/// No end of a described axis may lie further from zero than this: the
/// range of the data values, in axis units.
pub const RAW_BOUND: i128 = 92_233_720_368_547_758_080;

/// The whole part of a data value: the value without its fraction.
pub open spec fn whole_part(v: int) -> int {
    if v >= 0 {
        v / (UNITS_PER_ONE as int)
    } else {
        -((-v) / (UNITS_PER_ONE as int))
    }
}

/// How often a difference `d`, in axis units, has to be multiplied by ten
/// until it is at least ten: the number of decimal places that tell the two
/// ends of a small range apart. A difference of ten or more needs none.
pub open spec fn decimal_places_of(d: int) -> nat
    decreases
        (if d < 100_000_000 {
            100_000_000 - d
        } else {
            0
        }),
{
    if d <= 0 || d >= 100_000_000 {
        0
    } else {
        1 + decimal_places_of(10 * d)
    }
}

/// Number of characters kept free for a label: the longer whole part of the
/// two ends, the decimal point and the decimal places.
pub open spec fn label_width(max: int, min: int) -> int {
    let c_max = integer_text(whole_part(max)).len();
    let c_min = integer_text(whole_part(min)).len();
    (if c_max >= c_min {
        c_max
    } else {
        c_min
    }) + W_POINT + decimal_places_of((max - min) * AXIS_PER_UNIT)
}

/// Number of intervals for which `available_size` pixels have room when a
/// label is `s_max` characters wide and a character takes five pixels, its
/// own four and a free one: one less than the number of labels that fit,
/// but at least one and at most ten.
pub open spec fn intervals_count(available_size: int, s_max: int) -> int {
    let k = available_size / (5 * s_max) - 1;
    if k > MAX_INTERVALS {
        MAX_INTERVALS as int
    } else if k < 1 {
        1
    } else {
        k
    }
}

/// Number of axis units in the last decimal place of `decimal_places`. An
/// axis value has seven places, so with seven or more it is one.
pub open spec fn quantum(decimal_places: nat) -> int {
    if decimal_places >= MAX_DECIMAL_PLACES {
        1
    } else {
        pow10((MAX_DECIMAL_PLACES - decimal_places) as nat)
    }
}

/// The last decimal place is worth at least one axis unit and at most ten
/// million of them, which make one.
pub proof fn lemma_quantum_bounds(decimal_places: nat)
    ensures
        1 <= quantum(decimal_places) <= AXIS_PER_ONE,
{
    lemma_pow10_values();
    if decimal_places < MAX_DECIMAL_PLACES {
        lemma_pow10_increasing(0, (MAX_DECIMAL_PLACES - decimal_places) as nat);
        lemma_pow10_increasing((MAX_DECIMAL_PLACES - decimal_places) as nat, 7);
    }
}

fn quantum_of(decimal_places: u8) -> (q: i128)
    ensures
        q == quantum(decimal_places as nat),
        1 <= q <= AXIS_PER_ONE,
{
    proof {
        lemma_quantum_bounds(decimal_places as nat);
        lemma_pow10_values();
    }
    if decimal_places >= MAX_DECIMAL_PLACES {
        1
    } else {
        power_of_ten(MAX_DECIMAL_PLACES - decimal_places)
    }
}

fn whole_of(v: i64) -> (w: i64)
    ensures
        w == whole_part(v as int),
{
    if v >= 0 {
        ((v as u64) / 1_000_000) as i64
    } else {
        let m: u64 = (-(v as i128)) as u64;
        let w: u64 = m / 1_000_000;
        -(w as i64)
    }
}

/// The width of a label and the number of decimal places for data between
/// `min` and `max`.
pub fn determine_max_numbers_count(max: i64, min: i64) -> (widths: (u8, u8))
    requires
        max > min,
    ensures
        widths.0 == label_width(max as int, min as int),
        widths.1 == decimal_places_of((max - min) * AXIS_PER_UNIT),
        widths.1 <= MAX_DECIMAL_PLACES,
        1 <= widths.0,
{
    let d: i128 = (max as i128 - min as i128) * 10;
    let c_max: u8 = get_numbers_count(whole_of(max));
    let c_min: u8 = get_numbers_count(whole_of(min));
    let maxc: u8 = if c_max >= c_min {
        c_max
    } else {
        c_min
    };
    let mut t: i128 = d;
    let mut decimal_places: u8 = 0;
    proof {
        lemma_pow10_values();
    }
    while t < 100_000_000
        invariant
            t >= 10,
            t >= 10 * pow10(decimal_places as nat),
            decimal_places <= MAX_DECIMAL_PLACES,
            decimal_places + decimal_places_of(t as int) == decimal_places_of(d as int),
        decreases
            (if t < 100_000_000 {
                100_000_000 - t
            } else {
                0
            }),
    {
        proof {
            lemma_pow10_values();
            reveal_with_fuel(pow10, 2);
            if decimal_places >= 7 {
                lemma_pow10_increasing(7, decimal_places as nat);
            }
        }
        t = t * 10;
        decimal_places += 1;
    }
    (maxc + W_POINT + decimal_places, decimal_places)
}

/// Number of intervals for which `available_size` pixels have room when a
/// label is `s_max` characters wide.
pub fn calculate_intervals_count(available_size: usize, s_max: u8) -> (count: u8)
    requires
        s_max > 0,
    ensures
        count == intervals_count(available_size as int, s_max as int),
        1 <= count <= MAX_INTERVALS,
{
    assert((W_NUMBER + W_DECIMAL_SEPARATOR) * (s_max as usize) == 5 * s_max) by (nonlinear_arith)
        requires
            W_NUMBER + W_DECIMAL_SEPARATOR == 5,
    ;
    let k: usize = available_size / ((W_NUMBER + W_DECIMAL_SEPARATOR) * (s_max as usize));
    if k > (MAX_INTERVALS as usize) + 1 {
        MAX_INTERVALS
    } else if k < 2 {
        1
    } else {
        (k - 1) as u8
    }
}


/// `v` rounded down to a multiple of `q`.
pub open spec fn floor_to(v: int, q: int) -> int {
    (v / q) * q
}

/// `v` rounded up to a multiple of `q`.
pub open spec fn ceil_to(v: int, q: int) -> int {
    ceil_quotient(v, q) * q
}

/// Rounding to a multiple of `q` moves a value by less than `q`, down or up.
pub proof fn lemma_floor_ceil(v: int, q: int)
    requires
        q > 0,
    ensures
        floor_to(v, q) <= v < floor_to(v, q) + q,
        ceil_to(v, q) - q < v <= ceil_to(v, q),
{
    lemma_fundamental_div_mod(v, q);
    lemma_fundamental_div_mod(-v, q);
    assert(0 <= v % q < q);
    assert(0 <= (-v) % q < q);
    assert((v / q) * q == q * (v / q)) by (nonlinear_arith);
    assert((-((-v) / q)) * q == -(q * ((-v) / q))) by (nonlinear_arith);
}

/// One axis of a chart: a range of values divided into equal intervals, and
/// the pixels it is drawn on. Values count ten-millionths.
#[derive(Debug, Clone, Copy, PartialEq, Eq, Structural)]
pub struct Axis {
    /// Value at the first tick.
    pub min_value: i128,
    /// Value at the far end of the last interval.
    pub max_value: i128,
    /// Number of intervals.
    pub interval_count: u8,
    /// Length of one interval in whole axis units: the range over the number
    /// of intervals, rounded down where they do not divide it.
    pub scale_interval_value: i128,
    /// Number of decimal places to which the value at a tick is rounded
    /// when it is written.
    pub decimal_places: u8,
    /// Length in pixels of the canvas side along the axis.
    pub size: usize,
    /// Length in pixels of the canvas side across the axis.
    pub opposite_size: usize,
    /// Whether the axis is the vertical one.
    pub rotated: bool,
}

/// The axis from `min` to `max`, in axis units, with `count` intervals and
/// ticks at multiples of the last of `places` decimal places: the lower end is
/// rounded down, the interval is rounded up, and the upper end lies `count`
/// intervals above the lower one.
pub open spec fn scaled(min: int, max: int, count: int, places: nat, size: usize) -> Axis {
    let q = quantum(places);
    let low = floor_to(min, q);
    let high = ceil_to(max, q);
    let interval = ceil_quotient(high - low, q * count) * q;
    Axis {
        min_value: low as i128,
        max_value: (low + interval * count) as i128,
        interval_count: count as u8,
        scale_interval_value: interval as i128,
        decimal_places: places as u8,
        size: size,
        opposite_size: size,
        rotated: false,
    }
}

/// The axis that is derived from the extent of the data and the length of the
/// canvas side.
pub open spec fn auto_axis(max: int, min: int, total_size: usize) -> Axis {
    scaled(
        min * AXIS_PER_UNIT,
        max * AXIS_PER_UNIT,
        intervals_count(total_size - MARGINS, label_width(max, min)),
        decimal_places_of((max - min) * AXIS_PER_UNIT),
        total_size,
    )
}

/// The axis that a caller describes by its ends in axis units, its number of
/// intervals and its decimal places, on a canvas side `size` pixels long.
/// Ends, intervals and places are taken as they are given.
pub open spec fn manual_axis(min: int, max: int, count: u8, places: u8, size: usize) -> Axis {
    Axis {
        min_value: min as i128,
        max_value: max as i128,
        interval_count: count,
        scale_interval_value: ((max - min) / (count as int)) as i128,
        decimal_places: places,
        size: size,
        opposite_size: size,
        rotated: false,
    }
}

/// A scaled axis is well formed, covers the range it was made for, and
/// exceeds it by less than one rounding step at the lower end and by less
/// than one step and one step an interval at the upper end.
pub proof fn lemma_scaled(min: int, max: int, count: int, places: nat, size: usize)
    requires
        -RAW_BOUND <= min < max <= RAW_BOUND,
        1 <= count <= 255,
        places <= MAX_DECIMAL_PLACES,
        MARGINS <= size <= MAX_SIZE,
    ensures
        scaled(min, max, count, places, size).wf(),
        scaled(min, max, count, places, size).min_value <= min,
        scaled(min, max, count, places, size).max_value >= max,
        scaled(min, max, count, places, size).min_value > min - quantum(places),
        scaled(min, max, count, places, size).max_value < max + quantum(places) * (count + 1),
        scaled(min, max, count, places, size).min_value == floor_to(min, quantum(places)),
        scaled(min, max, count, places, size).scale_interval_value == ceil_quotient(
            ceil_to(max, quantum(places)) - floor_to(min, quantum(places)),
            quantum(places) * count,
        ) * quantum(places),
        1 <= quantum(places) <= AXIS_PER_ONE,
        scaled(min, max, count, places, size).is_even(),
        scaled(min, max, count, places, size).scale_interval_value > 0,
{
    lemma_quantum_bounds(places);
    let q = quantum(places);
    let low = floor_to(min, q);
    let high = ceil_to(max, q);
    lemma_floor_ceil(min, q);
    lemma_floor_ceil(max, q);
    let width = q * count;
    assert(q <= width <= 255 * q) by (nonlinear_arith)
        requires
            width == q * count,
            1 <= count <= 255,
            q >= 1,
    ;
    let units = ceil_quotient(high - low, width);
    lemma_floor_ceil(high - low, width);
    assert(ceil_to(high - low, width) == units * width);
    let interval = units * q;
    assert(interval * count == units * width) by (nonlinear_arith)
        requires
            interval == units * q,
            width == q * count,
    ;
    assert(units >= 1) by (nonlinear_arith)
        requires
            units * width >= high - low,
            high - low > 0,
            width > 0,
    ;
    assert(q <= interval <= units * width) by (nonlinear_arith)
        requires
            interval == units * q,
            interval * count == units * width,
            units >= 1,
            count >= 1,
            q >= 1,
    ;
    let axis = scaled(min, max, count, places, size);
    assert(axis.min_value == low);
    assert(axis.scale_interval_value == interval);
    assert(axis.max_value == low + interval * count);
    assert(q * (count + 1) == q + width) by (nonlinear_arith)
        requires
            width == q * count,
    ;
    lemma_fundamental_div_mod_converse(interval * count, count, interval, 0);
}

impl Axis {
    /// Number of pixels along the axis over which the ticks are spread.
    pub open spec fn available(self) -> int {
        self.size - MARGINS
    }

    /// Number of pixels along the axis over which the range of values is
    /// spread: from the start of the axis line to the arrow.
    pub open spec fn plot_pixels(self) -> int {
        self.size - START_SHIFT - W_ARROW
    }

    /// The upper end lies above the lower end, there is an interval, the
    /// interval is the range over the number of intervals, in whole axis
    /// units, and nothing is out of range.
    pub open spec fn wf(self) -> bool {
        &&& 1 <= self.interval_count
        &&& self.min_value < self.max_value
        &&& self.scale_interval_value == (self.max_value - self.min_value) / (
        self.interval_count as int)
        &&& -AXIS_BOUND <= self.min_value
        &&& self.max_value <= AXIS_BOUND
        &&& MARGINS <= self.size <= MAX_SIZE
        &&& MARGINS <= self.opposite_size <= MAX_SIZE
    }

    /// Whether the intervals divide the range without a rest: the upper end
    /// lies a whole number of intervals above the lower end.
    pub open spec fn is_even(self) -> bool {
        self.max_value == self.min_value + self.scale_interval_value * self.interval_count
    }

    /// The same axis, drawn upright.
    pub fn rotate(self) -> (axis: Self)
        ensures
            axis == (Axis { rotated: true, ..self }),
    {
        Axis { rotated: true, ..self }
    }

    /// The same axis on a canvas whose other side is `opposite_size` long.
    pub fn across(self, opposite_size: usize) -> (axis: Self)
        ensures
            axis == (Axis { opposite_size: opposite_size, ..self }),
    {
        Axis { opposite_size: opposite_size, ..self }
    }

    fn fit(min: i128, max: i128, interval_count: u8, decimal_places: u8, size: usize) -> (axis:
        Axis)
        requires
            -RAW_BOUND <= min < max <= RAW_BOUND,
            1 <= interval_count,
            decimal_places <= MAX_DECIMAL_PLACES,
            MARGINS <= size <= MAX_SIZE,
        ensures
            axis == scaled(
                min as int,
                max as int,
                interval_count as int,
                decimal_places as nat,
                size,
            ),
            axis.wf(),
            axis.is_even(),
            axis.scale_interval_value > 0,
            axis.min_value <= min,
            max <= axis.max_value,
    {
        proof {
            lemma_scaled(
                min as int,
                max as int,
                interval_count as int,
                decimal_places as nat,
                size,
            );
            lemma_floor_ceil(min as int, quantum(decimal_places as nat));
            lemma_floor_ceil(max as int, quantum(decimal_places as nat));
        }
        let q: i128 = quantum_of(decimal_places);
        let low: i128 = floor_div(min, q) * q;
        let high: i128 = ceil_div(max, q) * q;
        proof {
            assert(q * interval_count <= 255 * q) by (nonlinear_arith)
                requires
                    interval_count <= 255,
                    q >= 1,
            ;
            assert(q * interval_count >= q) by (nonlinear_arith)
                requires
                    interval_count >= 1,
                    q >= 1,
            ;
        }
        let width: i128 = q * (interval_count as i128);
        let units: i128 = ceil_div(high - low, width);
        proof {
            lemma_floor_ceil(high - low, width as int);
        }
        let interval: i128 = units * q;
        proof {
            assert(interval * interval_count == units * width) by (nonlinear_arith)
                requires
                    interval == units * q,
                    width == q * interval_count,
            ;
        }
        Axis {
            min_value: low,
            max_value: low + interval * (interval_count as i128),
            interval_count: interval_count,
            scale_interval_value: interval,
            decimal_places: decimal_places,
            size: size,
            opposite_size: size,
            rotated: false,
        }
    }

    /// Whether an axis as described can be fitted: its upper end lies above
    /// its lower end, both within the range of the data values, and it has
    /// an interval.
    pub open spec fn is_described(self) -> bool {
        &&& -RAW_BOUND <= self.min_value < self.max_value <= RAW_BOUND
        &&& self.interval_count >= 1
    }

    /// Fits a described axis to the length of the canvas side it is drawn
    /// along.
    pub fn fitted(&self, size: usize) -> (result: Result<Axis, GraphError>)
        requires
            size <= MAX_SIZE,
        ensures
            size < MARGINS ==> result == Err::<Axis, GraphError>(
                GraphError::InsufficientCanvasSize,
            ),
            size >= MARGINS && !self.is_described() ==> result == Err::<Axis, GraphError>(
                GraphError::DegenerateAxisRange,
            ),
            size >= MARGINS && self.is_described() ==> result == Ok::<Axis, GraphError>(
                manual_axis(
                    self.min_value as int,
                    self.max_value as int,
                    self.interval_count,
                    self.decimal_places,
                    size,
                ),
            ) && result.unwrap().wf(),
            result matches Ok(axis) ==> axis.min_value == self.min_value && axis.max_value
                == self.max_value && axis.interval_count == self.interval_count
                && axis.decimal_places == self.decimal_places,
    {
        if size < MARGINS {
            return Err(GraphError::InsufficientCanvasSize);
        }
        if self.max_value <= self.min_value || self.interval_count == 0 || self.min_value
            < -RAW_BOUND || self.max_value > RAW_BOUND {
            return Err(GraphError::DegenerateAxisRange);
        }
        let interval: i128 = floor_div(
            self.max_value - self.min_value,
            self.interval_count as i128,
        );
        Ok(
            Axis {
                min_value: self.min_value,
                max_value: self.max_value,
                interval_count: self.interval_count,
                scale_interval_value: interval,
                decimal_places: self.decimal_places,
                size: size,
                opposite_size: size,
                rotated: false,
            },
        )
    }

    /// Derives an axis from the greatest and the smallest value of the data
    /// and the length of the canvas side it is drawn along.
    pub fn set_axis_auto(max: i64, min: i64, total_size: usize) -> (result: Result<
        Axis,
        GraphError,
    >)
        requires
            total_size <= MAX_SIZE,
        ensures
            total_size < MARGINS ==> result == Err::<Axis, GraphError>(
                GraphError::InsufficientCanvasSize,
            ),
            total_size >= MARGINS && max <= min ==> result == Err::<Axis, GraphError>(
                GraphError::DegenerateAxisRange,
            ),
            total_size >= MARGINS && max > min ==> result == Ok::<Axis, GraphError>(
                auto_axis(max as int, min as int, total_size),
            ) && result.unwrap().wf(),
            result matches Ok(axis) ==> axis.min_value <= min * AXIS_PER_UNIT && max
                * AXIS_PER_UNIT <= axis.max_value && axis.interval_count <= MAX_INTERVALS
                && axis.is_even() && axis.scale_interval_value > 0 && axis.decimal_places
                <= MAX_DECIMAL_PLACES,
    {
        if total_size < MARGINS {
            return Err(GraphError::InsufficientCanvasSize);
        }
        if max <= min {
            return Err(GraphError::DegenerateAxisRange);
        }
        let available_size: usize = total_size - 2 * W_BORDER - H_NUMBER - W_NUMBER - W_ARROW;
        let (s_max, decimal_places) = determine_max_numbers_count(max, min);
        let interval_count: u8 = calculate_intervals_count(available_size, s_max);
        Ok(
            Axis::fit(
                (min as i128) * AXIS_PER_UNIT,
                (max as i128) * AXIS_PER_UNIT,
                interval_count,
                decimal_places,
                total_size,
            ),
        )
    }

    /// Fits the axis from `min_value` to `max_value`, in data units, with
    /// the given number of intervals and decimal places to the length of the
    /// canvas side it is drawn along. The scale is taken as it is given;
    /// only the pixels are worked out.
    pub fn set_axis_manual(
        min_value: i64,
        max_value: i64,
        interval_count: u8,
        decimal_places: u8,
        size: usize,
    ) -> (result: Result<Axis, GraphError>)
        requires
            size <= MAX_SIZE,
        ensures
            size < MARGINS ==> result == Err::<Axis, GraphError>(
                GraphError::InsufficientCanvasSize,
            ),
            size >= MARGINS && (max_value <= min_value || interval_count == 0) ==> result
                == Err::<Axis, GraphError>(GraphError::DegenerateAxisRange),
            size >= MARGINS && max_value > min_value && interval_count > 0 ==> result == Ok::<
                Axis,
                GraphError,
            >(
                manual_axis(
                    min_value * AXIS_PER_UNIT,
                    max_value * AXIS_PER_UNIT,
                    interval_count,
                    decimal_places,
                    size,
                ),
            ) && result.unwrap().wf(),
            result matches Ok(axis) ==> axis.min_value == min_value * AXIS_PER_UNIT
                && axis.max_value == max_value * AXIS_PER_UNIT && axis.interval_count
                == interval_count && axis.decimal_places == decimal_places,
    {
        Axis::create(min_value, max_value, interval_count, decimal_places).fitted(size)
    }

    /// Describes an axis that has not been fitted to a canvas yet.
    pub fn create(min_value: i64, max_value: i64, interval_count: u8, decimal_places: u8) -> (axis:
        Axis)
        ensures
            axis == (Axis {
                min_value: (min_value * AXIS_PER_UNIT) as i128,
                max_value: (max_value * AXIS_PER_UNIT) as i128,
                interval_count: interval_count,
                scale_interval_value: 0,
                decimal_places: decimal_places,
                size: DEFAULT_SIZE,
                opposite_size: DEFAULT_SIZE,
                rotated: false,
            }),
    {
        Axis {
            min_value: (min_value as i128) * AXIS_PER_UNIT,
            max_value: (max_value as i128) * AXIS_PER_UNIT,
            interval_count: interval_count,
            scale_interval_value: 0,
            decimal_places: decimal_places,
            size: DEFAULT_SIZE,
            opposite_size: DEFAULT_SIZE,
            rotated: false,
        }
    }

    /// The value written at tick `i`: the lower end and `i` of the equal
    /// shares of the range, rounded to the nearest multiple of the last
    /// decimal place of the axis, a half away from zero.
    pub open spec fn tick_value(self, i: int) -> int {
        let q = quantum(self.decimal_places as nat);
        q * round_quotient(
            self.min_value * self.interval_count + (self.max_value - self.min_value) * i,
            self.interval_count * q,
        )
    }

    /// Distance in pixels of tick `i` from the start of the axis: its share
    /// of the available pixels, rounded to the nearest pixel.
    pub open spec fn tick_shift(self, i: int) -> int {
        nearest(i * self.available(), self.interval_count as int)
    }

    /// The pixels of tick `i` with its label, along a level axis.
    pub open spec fn tick(self, i: int) -> Seq<DisplayPoint> {
        tick_points(
            (START_SHIFT + self.tick_shift(i)) as usize,
            decimal_text(self.tick_value(i)),
            self.rotated,
            self.opposite_size,
        )
    }

    /// The pixels of the first `n` ticks, in their order.
    pub open spec fn ticks(self, n: int) -> Seq<DisplayPoint>
        decreases n,
    {
        if n <= 0 {
            Seq::empty()
        } else {
            self.ticks(n - 1) + self.tick(n - 1)
        }
    }

    /// The pixels of the axis line, from its start to the end of the canvas.
    pub open spec fn axis_line(self) -> Seq<DisplayPoint> {
        Seq::new(
            (self.size - START_SHIFT) as nat,
            |k: int| DisplayPoint { x: (START_SHIFT + k) as usize, y: START_SHIFT },
        )
    }

    /// The six pixels of the arrow at the end of the axis line.
    pub open spec fn axis_arrow(self) -> Seq<DisplayPoint> {
        seq![
            DisplayPoint { x: (self.size - 4) as usize, y: 13 },
            DisplayPoint { x: (self.size - 3) as usize, y: 12 },
            DisplayPoint { x: (self.size - 2) as usize, y: 11 },
            DisplayPoint { x: (self.size - 4) as usize, y: 7 },
            DisplayPoint { x: (self.size - 3) as usize, y: 8 },
            DisplayPoint { x: (self.size - 2) as usize, y: 9 },
        ]
    }

    /// All pixels of the axis: ticks with labels, line and arrow; with
    /// columns and rows exchanged where the axis is upright.
    pub open spec fn points(self) -> Seq<DisplayPoint> {
        let level = self.ticks(self.interval_count as int) + self.axis_line() + self.axis_arrow();
        if self.rotated {
            transposed(level)
        } else {
            level
        }
    }

    /// The pixel, counted from the start of the axis, on which the data value
    /// `value` falls: its share of the pixels of the plot, rounded to the
    /// nearest pixel, and the nearer end of the axis for a value outside it.
    pub open spec fn offset_of(self, value: int) -> int {
        let v = value * AXIS_PER_UNIT;
        let raw = if v <= self.min_value {
            0
        } else {
            nearest((v - self.min_value) * self.plot_pixels(), self.max_value - self.min_value)
        };
        if raw > self.plot_pixels() {
            self.plot_pixels()
        } else {
            raw
        }
    }

    /// The value written at tick `i`.
    pub fn value_at(&self, i: u8) -> (value: i128)
        requires
            self.wf(),
            i <= self.interval_count,
        ensures
            value == self.tick_value(i as int),
            2 * self.min_value - quantum(self.decimal_places as nat) <= 2 * value <= 2
                * self.max_value + quantum(self.decimal_places as nat),
    {
        let q: i128 = quantum_of(self.decimal_places);
        let count: i128 = self.interval_count as i128;
        let range: i128 = self.max_value - self.min_value;
        proof {
            assert(-AXIS_BOUND * 255 <= self.min_value * count <= AXIS_BOUND * 255)
                by (nonlinear_arith)
                requires
                    -AXIS_BOUND <= self.min_value <= AXIS_BOUND,
                    1 <= count <= 255,
            ;
            assert(0 <= range * i <= range * count <= 2 * AXIS_BOUND * 255) by (nonlinear_arith)
                requires
                    0 < range <= 2 * AXIS_BOUND,
                    0 <= i <= count <= 255,
            ;
            assert(1 <= count * q <= 255 * AXIS_PER_ONE) by (nonlinear_arith)
                requires
                    1 <= count <= 255,
                    1 <= q <= AXIS_PER_ONE,
            ;
        }
        let share: i128 = self.min_value * count + range * (i as i128);
        let r: i128 = round_div(share, count * q);
        proof {
            let d = count * q;
            assert(r * d == (q * r) * count) by (nonlinear_arith)
                requires
                    d == count * q,
            ;
            assert(self.min_value * count <= share <= self.max_value * count)
                by (nonlinear_arith)
                requires
                    share == self.min_value * count + range * i,
                    0 <= range * i <= range * count,
                    range == self.max_value - self.min_value,
            ;
            assert(2 * (q * r) <= 2 * self.max_value + q && 2 * self.min_value - q <= 2 * (q * r))
                by (nonlinear_arith)
                requires
                    2 * share - d <= 2 * ((q * r) * count) <= 2 * share + d,
                    self.min_value * count <= share <= self.max_value * count,
                    d == count * q,
                    count >= 1,
            ;
        }
        q * r
    }

    /// Distance in pixels of tick `i` from the start of the axis.
    pub fn shift_at(&self, i: u8) -> (shift: usize)
        requires
            self.wf(),
            i <= self.interval_count,
        ensures
            shift == self.tick_shift(i as int),
            shift <= self.available(),
    {
        let available: u64 = (self.size - MARGINS) as u64;
        let count: u64 = self.interval_count as u64;
        proof {
            lemma_nearest_bounds(i as int, available as int, count as int);
            assert(0 <= i * available <= 255 * available) by (nonlinear_arith)
                requires
                    0 <= i <= 255,
                    0 <= available,
            ;
        }
        ((2 * ((i as u64) * available) + count) / (2 * count)) as usize
    }

    /// The pixel, counted from the start of the axis, on which `value` falls.
    pub fn pixel_offset(&self, value: i64) -> (offset: usize)
        requires
            self.wf(),
        ensures
            offset == self.offset_of(value as int),
            offset <= self.plot_pixels(),
            value * AXIS_PER_UNIT <= self.min_value ==> offset == 0,
            value * AXIS_PER_UNIT >= self.max_value ==> offset == self.plot_pixels(),
    {
        let v: i128 = (value as i128) * AXIS_PER_UNIT;
        let pixels: usize = self.size - START_SHIFT - W_ARROW;
        proof {
            lemma_offset_bounds(*self, value);
        }
        if v <= self.min_value {
            return 0;
        }
        let range: i128 = self.max_value - self.min_value;
        let part: i128 = v - self.min_value;
        if v >= self.max_value {
            return pixels;
        }
        proof {
            lemma_nearest_bounds(part as int, pixels as int, range as int);
            assert(0 <= part * pixels <= range * pixels <= range * MAX_SIZE) by (nonlinear_arith)
                requires
                    0 <= part <= range,
                    0 <= pixels <= MAX_SIZE,
            ;
        }
        ((2 * (part * (pixels as i128)) + range) as u128 / ((2 * range) as u128)) as usize
    }

    /// The pixels of every tick with its label.
    pub fn create_ticks_points(&self) -> (v: Vec<DisplayPoint>)
        requires
            self.wf(),
        ensures
            v@ == self.ticks(self.interval_count as int),
    {
        let mut v: Vec<DisplayPoint> = Vec::new();
        let mut i: u8 = 0;
        while i < self.interval_count
            invariant
                self.wf(),
                i <= self.interval_count,
                v@ == self.ticks(i as int),
            decreases self.interval_count - i,
        {
            let value: i128 = self.value_at(i);
            proof {
                lemma_quantum_bounds(self.decimal_places as nat);
            }
            let text: String = format_decimal(value);
            let shift: usize = self.shift_at(i);
            let mut tick = create_tick_with_label(
                START_SHIFT + shift,
                text.as_str(),
                self.rotated,
                self.opposite_size,
            );
            v.append(&mut tick);
            i += 1;
        }
        v
    }

    /// The pixels of the axis line.
    pub fn calculate_axis_line(&self) -> (v: Vec<DisplayPoint>)
        requires
            self.wf(),
        ensures
            v@ == self.axis_line(),
    {
        let mut v: Vec<DisplayPoint> = Vec::new();
        let mut x: usize = START_SHIFT;
        while x < self.size
            invariant
                START_SHIFT <= x <= self.size,
                v@.len() == x - START_SHIFT,
                forall|k: int| 0 <= k < v@.len() ==> v@[k] == self.axis_line()[k],
            decreases self.size - x,
        {
            v.push(DisplayPoint { x: x, y: START_SHIFT });
            x += 1;
        }
        proof {
            assert(v@ =~= self.axis_line());
        }
        v
    }

    /// The pixels of the arrow at the end of the axis line.
    pub fn calculate_axis_arrow(&self) -> (v: Vec<DisplayPoint>)
        requires
            self.wf(),
        ensures
            v@ == self.axis_arrow(),
    {
        let mut v: Vec<DisplayPoint> = Vec::new();
        v.push(DisplayPoint { x: self.size - 4, y: 13 });
        v.push(DisplayPoint { x: self.size - 3, y: 12 });
        v.push(DisplayPoint { x: self.size - 2, y: 11 });
        v.push(DisplayPoint { x: self.size - 4, y: 7 });
        v.push(DisplayPoint { x: self.size - 3, y: 8 });
        v.push(DisplayPoint { x: self.size - 2, y: 9 });
        proof {
            assert(v@ =~= self.axis_arrow());
        }
        v
    }

    /// All pixels of the axis.
    pub fn create_points(&self) -> (v: Vec<DisplayPoint>)
        requires
            self.wf(),
        ensures
            v@ == self.points(),
    {
        let mut v: Vec<DisplayPoint> = Vec::new();
        let mut ticks = self.create_ticks_points();
        let mut line = self.calculate_axis_line();
        let mut arrow = self.calculate_axis_arrow();
        v.append(&mut ticks);
        v.append(&mut line);
        v.append(&mut arrow);
        proof {
            assert(v@ =~= self.ticks(self.interval_count as int) + self.axis_line()
                + self.axis_arrow());
        }
        if self.rotated {
            transpose(&v)
        } else {
            v
        }
    }
}

/// The same pixels with columns and rows exchanged.
pub open spec fn transposed(points: Seq<DisplayPoint>) -> Seq<DisplayPoint> {
    Seq::new(points.len(), |k: int| DisplayPoint { x: points[k].y, y: points[k].x })
}

/// Exchanges the column and the row of every pixel.
pub fn transpose(points: &Vec<DisplayPoint>) -> (turned: Vec<DisplayPoint>)
    ensures
        turned@ == transposed(points@),
{
    let mut turned: Vec<DisplayPoint> = Vec::new();
    let mut k: usize = 0;
    while k < points.len()
        invariant
            k <= points@.len(),
            turned@.len() == k,
            forall|j: int| 0 <= j < k ==> turned@[j] == transposed(points@)[j],
        decreases points@.len() - k,
    {
        let p: DisplayPoint = points[k];
        turned.push(DisplayPoint { x: p.y, y: p.x });
        k += 1;
    }
    proof {
        assert(turned@ =~= transposed(points@));
    }
    turned
}

/// A value at or above the upper end of the axis falls on the last pixel of
/// the plot, a value at or below the lower end on the first, and no value
/// falls outside the plot.
pub proof fn lemma_offset_bounds(axis: Axis, value: i64)
    requires
        axis.wf(),
    ensures
        0 <= axis.offset_of(value as int) <= axis.plot_pixels(),
        value * AXIS_PER_UNIT >= axis.max_value ==> axis.offset_of(value as int)
            == axis.plot_pixels(),
        value * AXIS_PER_UNIT <= axis.min_value ==> axis.offset_of(value as int) == 0,
{
    let range = axis.max_value - axis.min_value;
    let part = value * AXIS_PER_UNIT - axis.min_value;
    let pixels = axis.plot_pixels();
    if part > 0 {
        if part <= range {
            lemma_nearest_bounds(part, pixels, range);
        } else {
            lemma_nearest_bounds(range, pixels, range);
            assert(range * pixels <= part * pixels) by (nonlinear_arith)
                requires
                    range <= part,
                    0 <= pixels,
            ;
            lemma_div_is_ordered(
                2 * (range * pixels) + range,
                2 * (part * pixels) + range,
                2 * range,
            );
        }
    }
}

/// The value written at a tick is a multiple of the last decimal place of
/// the axis, the first tick shows the lower end and the tick behind the last
/// interval the upper end, each rounded, and no tick is written further than
/// half a decimal place beyond the ends.
pub proof fn lemma_tick_value(axis: Axis, i: int)
    requires
        axis.wf(),
        0 <= i <= axis.interval_count,
    ensures
        axis.tick_value(i) % quantum(axis.decimal_places as nat) == 0,
        2 * axis.min_value - quantum(axis.decimal_places as nat) <= 2 * axis.tick_value(i) <= 2
            * axis.max_value + quantum(axis.decimal_places as nat),
        axis.tick_value(0) == quantum(axis.decimal_places as nat) * round_quotient(
            axis.min_value as int,
            quantum(axis.decimal_places as nat),
        ),
        axis.tick_value(axis.interval_count as int) == quantum(axis.decimal_places as nat)
            * round_quotient(axis.max_value as int, quantum(axis.decimal_places as nat)),
{
    let q = quantum(axis.decimal_places as nat);
    let count = axis.interval_count as int;
    let range = axis.max_value - axis.min_value;
    let d = count * q;
    lemma_quantum_bounds(axis.decimal_places as nat);
    assert(d >= 1) by (nonlinear_arith)
        requires
            d == count * q,
            count >= 1,
            q >= 1,
    ;
    let share = axis.min_value * count + range * i;
    let r = round_quotient(share, d);
    lemma_round_quotient(share, d);
    assert(q * r == r * q) by (nonlinear_arith);
    lemma_mod_multiples_basic(r, q);
    assert(0 <= range * i <= range * count) by (nonlinear_arith)
        requires
            0 <= i <= count,
            range > 0,
    ;
    assert(r * d == (q * r) * count) by (nonlinear_arith)
        requires
            d == count * q,
    ;
    assert(axis.min_value * count <= share <= axis.max_value * count) by (nonlinear_arith)
        requires
            share == axis.min_value * count + range * i,
            0 <= range * i <= range * count,
            range == axis.max_value - axis.min_value,
    ;
    assert(2 * (q * r) <= 2 * axis.max_value + q && 2 * axis.min_value - q <= 2 * (q * r))
        by (nonlinear_arith)
        requires
            2 * share - d <= 2 * ((q * r) * count) <= 2 * share + d,
            axis.min_value * count <= share <= axis.max_value * count,
            d == count * q,
            count >= 1,
    ;
    lemma_round_scaled(axis.min_value as int, q, count);
    lemma_round_scaled(axis.max_value as int, q, count);
    assert(range * 0 == 0);
    assert(axis.min_value * count + range * count == axis.max_value * count)
        by (nonlinear_arith)
        requires
            range == axis.max_value - axis.min_value,
    ;
}

/// Rounding is the same for a fraction and for the fraction with both parts
/// multiplied by one positive number.
pub proof fn lemma_round_scaled(n: int, q: int, count: int)
    requires
        q > 0,
        count > 0,
    ensures
        round_quotient(n * count, count * q) == round_quotient(n, q),
{
    let m = if n >= 0 {
        n
    } else {
        -n
    };
    let c = (2 * m + q) / (2 * q);
    lemma_fundamental_div_mod(2 * m + q, 2 * q);
    let r = (2 * m + q) % (2 * q);
    assert(0 <= r < 2 * q);
    assert(2 * (m * count) + count * q == c * (2 * (count * q)) + r * count) by (nonlinear_arith)
        requires
            2 * m + q == (2 * q) * c + r,
    ;
    assert(0 <= r * count < 2 * (count * q)) by (nonlinear_arith)
        requires
            0 <= r < 2 * q,
            count > 0,
    ;
    lemma_fundamental_div_mod_converse(
        2 * (m * count) + count * q,
        2 * (count * q),
        c,
        r * count,
    );
    assert(n >= 0 ==> n * count >= 0) by (nonlinear_arith)
        requires
            count > 0,
    ;
    assert(n < 0 ==> n * count < 0 && -(n * count) == m * count) by (nonlinear_arith)
        requires
            count > 0,
            n < 0 ==> m == -n,
    ;
}

/// The ticks of an axis whose intervals divide the range without a rest,
/// and whose lower end and interval are multiples of the last decimal place,
/// are written unrounded: tick `i` shows the lower end and `i` intervals.
pub proof fn lemma_ticks_on_round_values(axis: Axis, i: int)
    requires
        axis.wf(),
        axis.is_even(),
        (axis.min_value as int) % quantum(axis.decimal_places as nat) == 0,
        (axis.scale_interval_value as int) % quantum(axis.decimal_places as nat) == 0,
    ensures
        axis.tick_value(i) == axis.min_value + axis.scale_interval_value * i,
{
    let q = quantum(axis.decimal_places as nat);
    let count = axis.interval_count as int;
    lemma_quantum_bounds(axis.decimal_places as nat);
    lemma_fundamental_div_mod(axis.min_value as int, q);
    lemma_fundamental_div_mod(axis.scale_interval_value as int, q);
    let low = (axis.min_value as int) / q;
    let units = (axis.scale_interval_value as int) / q;
    let d = count * q;
    assert(axis.min_value * count + (axis.max_value - axis.min_value) * i == (low + units * i)
        * d) by (nonlinear_arith)
        requires
            axis.min_value == q * low,
            axis.scale_interval_value == q * units,
            axis.max_value - axis.min_value == axis.scale_interval_value * count,
            d == count * q,
    ;
    assert(d > 0) by (nonlinear_arith)
        requires
            d == count * q,
            count >= 1,
            q >= 1,
    ;
    lemma_round_quotient_exact(low + units * i, d);
    assert(q * (low + units * i) == axis.min_value + axis.scale_interval_value * i)
        by (nonlinear_arith)
        requires
            axis.min_value == q * low,
            axis.scale_interval_value == q * units,
    ;
}

/// An axis derived from data writes its ticks unrounded.
pub proof fn lemma_scaled_ticks(min: int, max: int, count: int, places: nat, size: usize, i: int)
    requires
        -RAW_BOUND <= min < max <= RAW_BOUND,
        1 <= count <= 255,
        places <= MAX_DECIMAL_PLACES,
        MARGINS <= size <= MAX_SIZE,
    ensures
        scaled(min, max, count, places, size).tick_value(i) == scaled(
            min,
            max,
            count,
            places,
            size,
        ).min_value + scaled(min, max, count, places, size).scale_interval_value * i,
{
    lemma_scaled(min, max, count, places, size);
    let q = quantum(places);
    let axis = scaled(min, max, count, places, size);
    let units = ceil_quotient(ceil_to(max, q) - floor_to(min, q), q * count);
    lemma_mod_multiples_basic(min / q, q);
    lemma_mod_multiples_basic(units, q);
    lemma_ticks_on_round_values(axis, i);
}

/// Laying out the ticks of one axis twice gives the same pixels in the same
/// order.
pub proof fn lemma_tick_layout_repeatable(
    axis: Axis,
    first: Seq<DisplayPoint>,
    second: Seq<DisplayPoint>,
)
    requires
        first == axis.ticks(axis.interval_count as int),
        second == axis.ticks(axis.interval_count as int),
    ensures
        first == second,
{
}

/// An axis derived from data covers the data, and its ends lie a whole number
/// of intervals apart.
pub proof fn lemma_auto_axis_covers(max: i64, min: i64, total_size: usize)
    requires
        max > min,
        MARGINS <= total_size <= MAX_SIZE,
    ensures
        auto_axis(max as int, min as int, total_size).max_value >= max * AXIS_PER_UNIT,
        auto_axis(max as int, min as int, total_size).min_value <= min * AXIS_PER_UNIT,
        auto_axis(max as int, min as int, total_size).wf(),
        1 <= auto_axis(max as int, min as int, total_size).interval_count <= MAX_INTERVALS,
{
    lemma_decimal_places_bound((max - min) * AXIS_PER_UNIT);
    lemma_scaled(
        min * AXIS_PER_UNIT,
        max * AXIS_PER_UNIT,
        intervals_count(total_size - MARGINS, label_width(max as int, min as int)),
        decimal_places_of((max - min) * AXIS_PER_UNIT),
        total_size,
    );
}

/// The number of decimal places for a difference is the least number of
/// multiplications by ten that bring it to ten or more.
pub proof fn lemma_decimal_places_least(d: int)
    requires
        d >= 1,
    ensures
        d * pow10(decimal_places_of(d)) >= 10 * AXIS_PER_ONE,
        decimal_places_of(d) > 0 ==> d * pow10((decimal_places_of(d) - 1) as nat) < 10
            * AXIS_PER_ONE,
    decreases
        (if d < 100_000_000 {
            100_000_000 - d
        } else {
            0
        }),
{
    reveal_with_fuel(pow10, 2);
    if d < 100_000_000 {
        lemma_decimal_places_least(10 * d);
        let k = decimal_places_of(10 * d);
        assert(decimal_places_of(d) == k + 1);
        assert(d * pow10(k + 1) == (10 * d) * pow10(k)) by (nonlinear_arith)
            requires
                pow10(k + 1) == 10 * pow10(k),
        ;
        if k > 0 {
            let j = (k - 1) as nat;
            assert(d * pow10(k) == (10 * d) * pow10(j)) by (nonlinear_arith)
                requires
                    pow10(k) == 10 * pow10(j),
            ;
        }
    }
}

/// A difference of at least one axis unit needs at most eight decimal
/// places, and one of at least ten units at most seven.
pub proof fn lemma_decimal_places_bound(d: int)
    requires
        d >= 1,
    ensures
        decimal_places_of(d) <= 8,
        d >= 10 ==> decimal_places_of(d) <= MAX_DECIMAL_PLACES,
{
    reveal_with_fuel(decimal_places_of, 10);
}

} // verus!
