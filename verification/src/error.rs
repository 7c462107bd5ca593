use vstd::prelude::*;

verus! {

/// Why a chart, a series or a colour was refused.
#[derive(Debug, Clone, Copy, PartialEq, Eq, Structural)]
pub enum GraphError {
    /// A series holds fewer than two points.
    NotEnoughPoints,
    /// Width or height cannot hold the axes with their labels and arrows.
    InsufficientCanvasSize,
    /// Every point of a series equals its first point.
    DegenerateSeries,
    /// The palette already holds 256 colours and another one was asked for.
    PaletteExhausted,
    /// A colour string is not `#` followed by six hexadecimal digits.
    InvalidColorFormat,
    /// An axis whose upper end does not lie above its lower end, or with no interval.
    DegenerateAxisRange,
}

impl GraphError {
    /// The sentence shown to a user for this error.
    pub open spec fn message(self) -> Seq<char> {
        match self {
            GraphError::NotEnoughPoints => "There are not enough points to display on graph."@,
            GraphError::InsufficientCanvasSize =>
                "There are not enough width and height to form graph with axis."@,
            GraphError::DegenerateSeries =>
                "There are only one unique point. Can't construct line."@,
            GraphError::PaletteExhausted => "There are more than 256 colors on graph."@,
            GraphError::InvalidColorFormat => "Color must be written as #RRGGBB."@,
            GraphError::DegenerateAxisRange =>
                "Axis maximum must be greater than axis minimum."@,
        }
    }

    /// Renders the error as its sentence.
    pub fn to_string(&self) -> (text: String)
        ensures
            text@ == self.message(),
    {
        match self {
            GraphError::NotEnoughPoints =>
                "There are not enough points to display on graph.".to_owned(),
            GraphError::InsufficientCanvasSize =>
                "There are not enough width and height to form graph with axis.".to_owned(),
            GraphError::DegenerateSeries =>
                "There are only one unique point. Can't construct line.".to_owned(),
            GraphError::PaletteExhausted => "There are more than 256 colors on graph.".to_owned(),
            GraphError::InvalidColorFormat => "Color must be written as #RRGGBB.".to_owned(),
            GraphError::DegenerateAxisRange =>
                "Axis maximum must be greater than axis minimum.".to_owned(),
        }
    }
}

} // verus!
