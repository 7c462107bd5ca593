use vstd::prelude::*;
use crate::point::DisplayPoint;

verus! {

/// Width of a digit in pixels.
pub const W_NUMBER: usize = 4;
/// Height of a digit in pixels.
pub const H_NUMBER: usize = 5;
/// Free pixels between two characters of a label.
pub const SPACE_BETWEEN_NUMBERS: usize = 1;
/// Free pixels round the graph.
pub const BORDER: usize = 1;
/// Half the height of an axis arrow.
pub const H_ARROW_HALF: usize = 3;
/// Row at which a tick mark starts: below the label and its two borders.
pub const MARK_START: usize = BORDER + H_NUMBER + BORDER;

/// The pixels of the character `c` in a cell four wide and five high, with
/// rows counted from one upwards. A character without a picture has none.
pub open spec fn char_picture(c: char) -> Seq<(usize, usize)> {
    if c == '1' {
        seq![(2, 5), (1, 4), (2, 4), (0, 3), (2, 3), (2, 2), (0, 1), (1, 1), (2, 1), (3, 1)]
    } else if c == '2' {
        seq![(1, 5), (2, 5), (0, 4), (3, 4), (2, 3), (1, 2), (0, 1), (1, 1), (2, 1), (3, 1)]
    } else if c == '3' {
        seq![(1, 5), (2, 5), (0, 4), (3, 4), (2, 3), (3, 2), (0, 2), (1, 1), (2, 1)]
    } else if c == '4' {
        seq![(0, 5), (3, 5), (0, 4), (3, 4), (1, 3), (2, 3), (3, 3), (3, 2), (3, 1)]
    } else if c == '5' {
        seq![(3, 5), (2, 5), (1, 5), (0, 5), (0, 4), (2, 3), (1, 3), (0, 3), (3, 2), (2, 1), (1, 1), (0, 1)]
    } else if c == '6' {
        seq![(3, 5), (2, 5), (1, 5), (0, 4), (2, 3), (1, 3), (0, 3), (3, 2), (0, 2), (2, 1), (1, 1)]
    } else if c == '7' {
        seq![(3, 5), (2, 5), (1, 5), (0, 5), (3, 4), (2, 3), (1, 2), (0, 1)]
    } else if c == '8' {
        seq![(2, 5), (1, 5), (3, 4), (0, 4), (2, 3), (1, 3), (3, 2), (0, 2), (2, 1), (1, 1)]
    } else if c == '9' {
        seq![(2, 5), (1, 5), (3, 4), (0, 4), (3, 3), (2, 3), (1, 3), (3, 2), (2, 1), (1, 1), (0, 1)]
    } else if c == '0' {
        seq![(2, 5), (1, 5), (3, 4), (0, 4), (3, 3), (0, 3), (3, 2), (0, 2), (2, 1), (1, 1)]
    } else if c == '.' {
        seq![(2, 1), (1, 1)]
    } else if c == '-' {
        seq![(3, 3), (2, 3), (1, 3), (0, 3)]
    } else {
        Seq::empty()
    }
}

/// Whether a pixel lies in the cell of a character.
pub open spec fn in_cell(p: (usize, usize)) -> bool {
    p.0 < W_NUMBER && 1 <= p.1 <= H_NUMBER
}

/// Every pixel of every picture lies in the cell.
pub proof fn lemma_picture_in_cell(c: char)
    ensures
        forall|k: int| 0 <= k < char_picture(c).len() ==> in_cell(#[trigger] char_picture(c)[k]),
{
}

/// The pixels of the digit one.
pub fn get_picture_of_1() -> (picture: Vec<(usize, usize)>)
    ensures
        picture@ == char_picture('1'),
{
    let picture: Vec<(usize, usize)> = vec![(2, 5), (1, 4), (2, 4), (0, 3), (2, 3), (2, 2), (0, 1), (1, 1), (2, 1), (3, 1)];
    proof {
        assert(picture@ =~= char_picture('1'));
    }
    picture
}

/// The pixels of the digit two.
pub fn get_picture_of_2() -> (picture: Vec<(usize, usize)>)
    ensures
        picture@ == char_picture('2'),
{
    let picture: Vec<(usize, usize)> = vec![(1, 5), (2, 5), (0, 4), (3, 4), (2, 3), (1, 2), (0, 1), (1, 1), (2, 1), (3, 1)];
    proof {
        assert(picture@ =~= char_picture('2'));
    }
    picture
}

/// The pixels of the digit three.
pub fn get_picture_of_3() -> (picture: Vec<(usize, usize)>)
    ensures
        picture@ == char_picture('3'),
{
    let picture: Vec<(usize, usize)> = vec![(1, 5), (2, 5), (0, 4), (3, 4), (2, 3), (3, 2), (0, 2), (1, 1), (2, 1)];
    proof {
        assert(picture@ =~= char_picture('3'));
    }
    picture
}

/// The pixels of the digit four.
pub fn get_picture_of_4() -> (picture: Vec<(usize, usize)>)
    ensures
        picture@ == char_picture('4'),
{
    let picture: Vec<(usize, usize)> = vec![(0, 5), (3, 5), (0, 4), (3, 4), (1, 3), (2, 3), (3, 3), (3, 2), (3, 1)];
    proof {
        assert(picture@ =~= char_picture('4'));
    }
    picture
}

/// The pixels of the digit five.
pub fn get_picture_of_5() -> (picture: Vec<(usize, usize)>)
    ensures
        picture@ == char_picture('5'),
{
    let picture: Vec<(usize, usize)> = vec![(3, 5), (2, 5), (1, 5), (0, 5), (0, 4), (2, 3), (1, 3), (0, 3), (3, 2), (2, 1), (1, 1), (0, 1)];
    proof {
        assert(picture@ =~= char_picture('5'));
    }
    picture
}

/// The pixels of the digit six.
pub fn get_picture_of_6() -> (picture: Vec<(usize, usize)>)
    ensures
        picture@ == char_picture('6'),
{
    let picture: Vec<(usize, usize)> = vec![(3, 5), (2, 5), (1, 5), (0, 4), (2, 3), (1, 3), (0, 3), (3, 2), (0, 2), (2, 1), (1, 1)];
    proof {
        assert(picture@ =~= char_picture('6'));
    }
    picture
}

/// The pixels of the digit seven.
pub fn get_picture_of_7() -> (picture: Vec<(usize, usize)>)
    ensures
        picture@ == char_picture('7'),
{
    let picture: Vec<(usize, usize)> = vec![(3, 5), (2, 5), (1, 5), (0, 5), (3, 4), (2, 3), (1, 2), (0, 1)];
    proof {
        assert(picture@ =~= char_picture('7'));
    }
    picture
}

/// The pixels of the digit eight.
pub fn get_picture_of_8() -> (picture: Vec<(usize, usize)>)
    ensures
        picture@ == char_picture('8'),
{
    let picture: Vec<(usize, usize)> = vec![(2, 5), (1, 5), (3, 4), (0, 4), (2, 3), (1, 3), (3, 2), (0, 2), (2, 1), (1, 1)];
    proof {
        assert(picture@ =~= char_picture('8'));
    }
    picture
}

/// The pixels of the digit nine.
pub fn get_picture_of_9() -> (picture: Vec<(usize, usize)>)
    ensures
        picture@ == char_picture('9'),
{
    let picture: Vec<(usize, usize)> = vec![(2, 5), (1, 5), (3, 4), (0, 4), (3, 3), (2, 3), (1, 3), (3, 2), (2, 1), (1, 1), (0, 1)];
    proof {
        assert(picture@ =~= char_picture('9'));
    }
    picture
}

/// The pixels of the digit zero.
pub fn get_picture_of_0() -> (picture: Vec<(usize, usize)>)
    ensures
        picture@ == char_picture('0'),
{
    let picture: Vec<(usize, usize)> = vec![(2, 5), (1, 5), (3, 4), (0, 4), (3, 3), (0, 3), (3, 2), (0, 2), (2, 1), (1, 1)];
    proof {
        assert(picture@ =~= char_picture('0'));
    }
    picture
}

/// The pixels of the decimal point.
pub fn get_picture_of_point() -> (picture: Vec<(usize, usize)>)
    ensures
        picture@ == char_picture('.'),
{
    let picture: Vec<(usize, usize)> = vec![(2, 1), (1, 1)];
    proof {
        assert(picture@ =~= char_picture('.'));
    }
    picture
}

/// The pixels of the minus sign.
pub fn get_picture_of_minus() -> (picture: Vec<(usize, usize)>)
    ensures
        picture@ == char_picture('-'),
{
    let picture: Vec<(usize, usize)> = vec![(3, 3), (2, 3), (1, 3), (0, 3)];
    proof {
        assert(picture@ =~= char_picture('-'));
    }
    picture
}

/// The pixels of the character `c`; none for a character without a picture.
pub fn get_char_picture(c: char) -> (picture: Vec<(usize, usize)>)
    ensures
        picture@ == char_picture(c),
{
    match c {
        '1' => get_picture_of_1(),
        '2' => get_picture_of_2(),
        '3' => get_picture_of_3(),
        '4' => get_picture_of_4(),
        '5' => get_picture_of_5(),
        '6' => get_picture_of_6(),
        '7' => get_picture_of_7(),
        '8' => get_picture_of_8(),
        '9' => get_picture_of_9(),
        '0' => get_picture_of_0(),
        '.' => get_picture_of_point(),
        '-' => get_picture_of_minus(),
        _ => Vec::new(),
    }
}


/// The pixels of a column `x` at the odd rows from `from` up to, not
/// including, `to`, lowest row first.
pub open spec fn dashes(x: usize, from: int, to: int) -> Seq<DisplayPoint>
    decreases to - from,
{
    if to <= from {
        Seq::empty()
    } else if (to - 1) % 2 != 0 {
        dashes(x, from, to - 1).push(DisplayPoint { x: x, y: (to - 1) as usize })
    } else {
        dashes(x, from, to - 1)
    }
}

/// The pixels of a column `x` at every row from `from` up to, not including,
/// `to`, lowest row first.
pub open spec fn solid(x: usize, from: int, to: int) -> Seq<DisplayPoint> {
    Seq::new((to - from) as nat, |k: int| DisplayPoint { x: x, y: (from + k) as usize })
}

/// A tick mark at column `shift`: three solid pixels, then a dashed line that
/// stops short of the far end of a canvas `opposite_size` high.
pub open spec fn mark_points(shift: usize, opposite_size: usize) -> Seq<DisplayPoint> {
    solid(shift, MARK_START as int, MARK_START + H_ARROW_HALF) + dashes(
        shift,
        MARK_START + H_ARROW_HALF,
        opposite_size - MARK_START - BORDER,
    )
}

/// The picture of `c` moved right by `shift`; `inverse` turns it upside down
/// within the label's rows.
pub open spec fn glyph_points(shift: int, c: char, inverse: bool) -> Seq<DisplayPoint> {
    Seq::new(
        char_picture(c).len(),
        |k: int|
            DisplayPoint {
                x: (shift + char_picture(c)[k].0) as usize,
                y: if inverse {
                    (H_NUMBER + BORDER - char_picture(c)[k].1) as usize
                } else {
                    char_picture(c)[k].1
                },
            },
    )
}

/// Distance between the left edges of two neighbouring characters of a label.
pub open spec fn char_pitch() -> int {
    W_NUMBER + SPACE_BETWEEN_NUMBERS
}

/// The pixels of the text `value` written from column `shift` rightwards,
/// character by character.
pub open spec fn label_points(shift: int, value: Seq<char>, inverse: bool) -> Seq<DisplayPoint>
    decreases value.len(),
{
    if value.len() == 0 {
        Seq::empty()
    } else {
        label_points(shift, value.drop_last(), inverse) + glyph_points(
            shift + char_pitch() * (value.len() - 1),
            value.last(),
            inverse,
        )
    }
}

/// A tick mark at column `shift` with its label, which starts one digit's
/// width to the left of the mark.
pub open spec fn tick_points(
    shift: usize,
    value: Seq<char>,
    inverse: bool,
    opposite_size: usize,
) -> Seq<DisplayPoint> {
    mark_points(shift, opposite_size) + label_points(shift - W_NUMBER, value, inverse)
}

/// The pixels of a tick mark at column `shift` and of its label `value`.
pub fn create_tick_with_label(shift: usize, value: &str, inverse: bool, opposite_size: usize) -> (v:
    Vec<DisplayPoint>)
    requires
        shift >= W_NUMBER,
        opposite_size >= MARK_START + BORDER,
        shift + char_pitch() * value@.len() <= usize::MAX,
    ensures
        v@ == tick_points(shift, value@, inverse, opposite_size),
{
    let mut v: Vec<DisplayPoint> = Vec::new();
    let mut mark = create_mark(shift, opposite_size);
    let mut label = create_label(shift - W_NUMBER, value, inverse);
    v.append(&mut mark);
    v.append(&mut label);
    proof {
        assert(v@ =~= tick_points(shift, value@, inverse, opposite_size));
    }
    v
}

/// The pixels of a tick mark at column `shift` on a canvas `opposite_size` high.
pub fn create_mark(shift: usize, opposite_size: usize) -> (v: Vec<DisplayPoint>)
    requires
        opposite_size >= MARK_START + BORDER,
    ensures
        v@ == mark_points(shift, opposite_size),
{
    let mut v: Vec<DisplayPoint> = Vec::new();
    let opposite_shift: usize = BORDER + H_NUMBER + BORDER;

    let mut i: usize = opposite_shift;
    while i < opposite_shift + H_ARROW_HALF
        invariant
            opposite_shift == MARK_START,
            opposite_shift <= i <= opposite_shift + H_ARROW_HALF,
            v@ == solid(shift, MARK_START as int, i as int),
        decreases opposite_shift + H_ARROW_HALF - i,
    {
        v.push(DisplayPoint { x: shift, y: i });
        i += 1;
        proof {
            assert(v@ =~= solid(shift, MARK_START as int, i as int));
        }
    }

    let ghost head = v@;
    let end: usize = opposite_size - opposite_shift - BORDER;
    let mut j: usize = opposite_shift + H_ARROW_HALF;
    proof {
        assert(v@ =~= head + dashes(shift, MARK_START + H_ARROW_HALF, j as int));
    }
    while j < end
        invariant
            MARK_START + H_ARROW_HALF <= j,
            j <= end || j == MARK_START + H_ARROW_HALF,
            v@ == head + dashes(shift, MARK_START + H_ARROW_HALF, j as int),
        decreases end - j,
    {
        if j % 2 != 0 {
            v.push(DisplayPoint { x: shift, y: j });
        }
        j += 1;
        proof {
            assert(v@ =~= head + dashes(shift, MARK_START + H_ARROW_HALF, j as int));
        }
    }
    proof {
        assert(dashes(shift, MARK_START + H_ARROW_HALF, j as int) =~= dashes(
            shift,
            MARK_START + H_ARROW_HALF,
            end as int,
        ));
    }
    v
}

/// The pixels of column `x` at the odd rows from `from` up to, not including, `to`.
pub fn create_dashes(x: usize, from: usize, to: usize) -> (v: Vec<DisplayPoint>)
    ensures
        v@ == dashes(x, from as int, to as int),
{
    let mut v: Vec<DisplayPoint> = Vec::new();
    let mut j: usize = from;
    while j < to
        invariant
            from <= j,
            j <= to || j == from,
            v@ == dashes(x, from as int, j as int),
        decreases to - j,
    {
        if j % 2 != 0 {
            v.push(DisplayPoint { x: x, y: j });
        }
        j += 1;
    }
    proof {
        assert(dashes(x, from as int, j as int) =~= dashes(x, from as int, to as int));
    }
    v
}

/// The pixels of the text `value` written from column `shift` rightwards.
pub fn create_label(shift: usize, value: &str, inverse: bool) -> (v: Vec<DisplayPoint>)
    requires
        shift + char_pitch() * value@.len() <= usize::MAX,
    ensures
        v@ == label_points(shift as int, value@, inverse),
{
    let mut char_position: usize = shift;
    let mut v: Vec<DisplayPoint> = Vec::new();
    let count: usize = value.unicode_len();
    let mut n: usize = 0;
    while n < count
        invariant
            n <= count,
            count == value@.len(),
            char_position == shift + char_pitch() * n,
            shift + char_pitch() * value@.len() <= usize::MAX,
            v@ == label_points(shift as int, value@.take(n as int), inverse),
        decreases count - n,
    {
        let c: char = value.get_char(n);
        let picture = get_char_picture(c);
        let ghost before = v@;
        proof {
            lemma_picture_in_cell(c);
            assert(char_pitch() * (n + 1) <= char_pitch() * value@.len()) by (nonlinear_arith)
                requires
                    n + 1 <= value@.len(),
            ;
        }
        let mut k: usize = 0;
        while k < picture.len()
            invariant
                k <= picture@.len(),
                picture@ == char_picture(c),
                char_position + W_NUMBER <= usize::MAX,
                forall|m: int| 0 <= m < picture@.len() ==> in_cell(#[trigger] picture@[m]),
                v@ == before + glyph_points(char_position as int, c, inverse).take(k as int),
            decreases picture@.len() - k,
        {
            let p: (usize, usize) = picture[k];
            assert(in_cell(picture@[k as int]));
            let y: usize = if inverse {
                H_NUMBER + BORDER - p.1
            } else {
                p.1
            };
            v.push(DisplayPoint { x: char_position + p.0, y: y });
            k += 1;
            proof {
                assert(v@ =~= before + glyph_points(char_position as int, c, inverse).take(
                    k as int,
                ));
            }
        }
        proof {
            let prefix = value@.take(n + 1);
            assert(prefix.drop_last() =~= value@.take(n as int));
            assert(prefix.last() == c);
            assert(glyph_points(char_position as int, c, inverse).take(k as int)
                =~= glyph_points(char_position as int, c, inverse));
        }
        char_position += W_NUMBER + SPACE_BETWEEN_NUMBERS;
        n += 1;
    }
    proof {
        assert(value@.take(count as int) =~= value@);
    }
    v
}

} // verus!
