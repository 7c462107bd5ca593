use vstd::prelude::*;

verus! {

/// A data point. Each coordinate counts millionths: `2_500_000` is two and a half.
#[derive(Debug, Clone, Copy, PartialEq, Eq, Structural)]
pub struct Point {
    pub x: i64,
    pub y: i64,
}

impl From<(i64, i64)> for Point {
    /// The point with the pair's first number as `x` and its second as `y`.
    fn from(t: (i64, i64)) -> (p: Point) {
        Point { x: t.0, y: t.1 }
    }
}

impl vstd::std_specs::convert::FromSpecImpl<(i64, i64)> for Point {
    open spec fn obeys_from_spec() -> bool {
        true
    }

    open spec fn from_spec(t: (i64, i64)) -> Point {
        Point { x: t.0, y: t.1 }
    }
}

impl<'a> From<&'a (i64, i64)> for Point {
    /// The point with the pair's first number as `x` and its second as `y`.
    fn from(t: &'a (i64, i64)) -> (p: Point) {
        Point { x: t.0, y: t.1 }
    }
}

impl<'a> vstd::std_specs::convert::FromSpecImpl<&'a (i64, i64)> for Point {
    open spec fn obeys_from_spec() -> bool {
        true
    }

    open spec fn from_spec(t: &'a (i64, i64)) -> Point {
        Point { x: t.0, y: t.1 }
    }
}

/// Anything that can be read as a data point and compared with its like.
pub trait InPoint: Into<Point> + PartialEq {

}

impl<T: Into<Point> + PartialEq> InPoint for T {

}

/// A sequence of data points that can be walked more than once.
pub trait IterInPoint<P: InPoint>: Iterator<Item = P> + Clone {

}

impl<T, P> IterInPoint<P> for T where T: Iterator<Item = P> + Clone, P: InPoint {

}

/// A pixel of the canvas, column then row.
#[derive(Debug, Clone, Copy, PartialEq, Eq, Structural)]
pub struct DisplayPoint {
    pub x: usize,
    pub y: usize,
}

} // verus!
