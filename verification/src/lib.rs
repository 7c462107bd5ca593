//! Line charts rendered into an indexed-colour bitmap.
//!
//! Every quantity is an integer. A data coordinate is an `i64` count of
//! millionths, so `1_500_000` stands for one and a half. An axis value is an
//! `i128` count of ten-millionths, one decimal place finer than the data, so
//! that the ticks of the smallest range that the data can span still fall on
//! whole numbers.
//!
//! - [`axis`] derives a readable scale from the extent of the data and the
//!   length of a canvas side, lays out ticks and labels, and maps values to
//!   pixels.
//! - [`line`] lays a gap-free path of pixels through a sequence of pixels;
//!   [`flatmappairs`] walks any sequence pair by pair and hands out what an
//!   expander makes of each pair.
//! - [`tick`] holds the pictures of the digits and places marks and labels.
//! - [`chart`] composes grid, axes and series on one canvas.
//! - [`bitmap`] holds the palette and writes canvas and palette as a file.
//! - [`decimal`] is the arithmetic of rounding and the text of axis values.
//! - [`formula`] steps through the places at which a function is sampled.

pub mod error;
pub mod bitmap;
pub mod point;
pub mod tick;
pub mod decimal;
pub mod line;
pub mod flatmappairs;
pub mod axis;
pub mod chart;
pub mod formula;

pub use self::error::GraphError;
pub use self::bitmap::BitMap;
pub use self::bitmap::Color;
pub use self::point::DisplayPoint;
pub use self::point::Point;
pub use self::flatmappairs::FlatMapPairs;
pub use self::axis::Axis;
pub use self::chart::Serie;
pub use self::chart::Chart;
pub use self::formula::Formula;
