use vstd::prelude::*;
use vstd::arithmetic::div_mod::lemma_fundamental_div_mod_converse;
use vstd::arithmetic::div_mod::lemma_fundamental_div_mod;
use crate::point::DisplayPoint;
use crate::flatmappairs::expands_to;
use crate::flatmappairs::partner;
use crate::flatmappairs::FlatMapPairs;

verus! {

/// The quotient `n / d` rounded to the nearest whole number, a half upwards,
/// for `n` not negative and `d` positive.
pub open spec fn nearest(n: int, d: int) -> int {
    (2 * n + d) / (2 * d)
}

/// Distance between two coordinates.
pub open spec fn span(from: usize, to: usize) -> int {
    if to >= from {
        to - from
    } else {
        from - to
    }
}

/// The coordinate `by` pixels away from `from` in the direction of `to`.
pub open spec fn toward(from: usize, to: usize, by: int) -> usize {
    if to >= from {
        (from + by) as usize
    } else {
        (from - by) as usize
    }
}

/// Number of unit steps from `a` to `b` along the axis on which they lie
/// further apart.
pub open spec fn steps(a: DisplayPoint, b: DisplayPoint) -> int {
    if span(a.x, b.x) >= span(a.y, b.y) {
        span(a.x, b.x)
    } else {
        span(a.y, b.y)
    }
}

/// The pixel `i` steps away from `a` on the straight path to `b`: `i` pixels
/// along the longer axis, and the proportional distance, rounded to the
/// nearest pixel, along the shorter one.
pub open spec fn segment_point(a: DisplayPoint, b: DisplayPoint, i: int) -> DisplayPoint {
    let dx = span(a.x, b.x);
    let dy = span(a.y, b.y);
    if dx >= dy {
        DisplayPoint { x: toward(a.x, b.x, i), y: toward(a.y, b.y, nearest(i * dy, dx)) }
    } else {
        DisplayPoint { x: toward(a.x, b.x, nearest(i * dx, dy)), y: toward(a.y, b.y, i) }
    }
}

/// The path from `a` up to, not including, `b`. A point paired with itself
/// gives that point alone.
pub open spec fn segment_points(a: DisplayPoint, b: DisplayPoint) -> Seq<DisplayPoint> {
    if a == b {
        seq![a]
    } else {
        Seq::new(steps(a, b) as nat, |i: int| segment_point(a, b, i))
    }
}

/// The paths of the pairs of neighbours of `points` from index `from` on, one
/// behind the other. The last point is paired with itself.
pub open spec fn expand_from(points: Seq<DisplayPoint>, from: int) -> Seq<DisplayPoint>
    decreases points.len() - from,
{
    if from < 0 || from >= points.len() {
        Seq::empty()
    } else if from + 1 < points.len() {
        segment_points(points[from], points[from + 1]) + expand_from(points, from + 1)
    } else {
        segment_points(points[from], points[from]) + expand_from(points, from + 1)
    }
}

/// The gap-free path through all of `points`, in their order.
pub open spec fn rasterized(points: Seq<DisplayPoint>) -> Seq<DisplayPoint> {
    expand_from(points, 0)
}

/// Whether `p` lies in the smallest upright rectangle that holds `a` and `b`.
pub open spec fn in_bounding_box(p: DisplayPoint, a: DisplayPoint, b: DisplayPoint) -> bool {
    &&& (a.x <= p.x <= b.x || b.x <= p.x <= a.x)
    &&& (a.y <= p.y <= b.y || b.y <= p.y <= a.y)
}

/// Whether `p` and `q` are neighbours, diagonals included, or equal.
pub open spec fn adjacent(p: DisplayPoint, q: DisplayPoint) -> bool {
    span(p.x, q.x) <= 1 && span(p.y, q.y) <= 1
}

/// A rounded share of `minor` never exceeds `minor`, and the full share is
/// `minor` itself.
pub proof fn lemma_nearest_bounds(i: int, minor: int, major: int)
    requires
        0 <= i <= major,
        0 <= minor,
        0 < major,
    ensures
        0 <= nearest(i * minor, major) <= minor,
        nearest(0 * minor, major) == 0,
        nearest(major * minor, major) == minor,
{
    let d = 2 * major;
    let x = 2 * (i * minor) + major;
    lemma_fundamental_div_mod(x, d);
    let q = x / d;
    assert(0 <= i * minor <= major * minor) by (nonlinear_arith)
        requires
            0 <= i <= major,
            0 <= minor,
    ;
    assert(0 <= x % d < d);
    assert(q <= minor) by (nonlinear_arith)
        requires
            x == d * q + x % d,
            0 <= x % d,
            x <= 2 * (major * minor) + major,
            d == 2 * major,
            0 < major,
    ;
    assert(q >= 0) by (nonlinear_arith)
        requires
            x == d * q + x % d,
            x % d < d,
            x >= 0,
            d > 0,
    ;
    assert(0 * minor == 0);
    lemma_fundamental_div_mod_converse(major, d, 0, major);
    assert(2 * (major * minor) + major == minor * d + major) by (nonlinear_arith)
        requires
            d == 2 * major,
    ;
    lemma_fundamental_div_mod_converse(2 * (major * minor) + major, d, minor, major);
}

/// One step further along the longer axis moves the rounded share by at most one.
pub proof fn lemma_nearest_step(i: int, minor: int, major: int)
    requires
        0 <= i,
        0 <= minor <= major,
        0 < major,
    ensures
        nearest(i * minor, major) <= nearest((i + 1) * minor, major) <= nearest(i * minor, major)
            + 1,
{
    let d = 2 * major;
    let x = 2 * (i * minor) + major;
    let y = 2 * ((i + 1) * minor) + major;
    assert(y == x + 2 * minor) by (nonlinear_arith)
        requires
            x == 2 * (i * minor) + major,
            y == 2 * ((i + 1) * minor) + major,
    ;
    lemma_fundamental_div_mod(x, d);
    lemma_fundamental_div_mod(y, d);
    let q = x / d;
    let p = y / d;
    assert(0 <= x % d < d);
    assert(0 <= y % d < d);
    assert(q <= p <= q + 1) by (nonlinear_arith)
        requires
            x == d * q + x % d,
            y == d * p + y % d,
            y == x + 2 * minor,
            0 <= x % d < d,
            0 <= y % d < d,
            0 <= 2 * minor <= d,
            d > 0,
    ;
}

/// Every pixel of a segment lies in the bounding box of its two ends, the
/// first one is the start, and the one after the last would be the end.
pub proof fn lemma_segment_point(a: DisplayPoint, b: DisplayPoint, i: int)
    requires
        0 <= i <= steps(a, b),
        a != b,
    ensures
        in_bounding_box(segment_point(a, b, i), a, b),
        i == 0 ==> segment_point(a, b, i) == a,
        i == steps(a, b) ==> segment_point(a, b, i) == b,
        i < steps(a, b) ==> adjacent(segment_point(a, b, i), segment_point(a, b, i + 1)),
{
    let dx = span(a.x, b.x);
    let dy = span(a.y, b.y);
    if dx >= dy {
        lemma_nearest_bounds(i, dy, dx);
        if i < dx {
            lemma_nearest_bounds(i + 1, dy, dx);
            lemma_nearest_step(i, dy, dx);
        }
    } else {
        lemma_nearest_bounds(i, dx, dy);
        if i < dy {
            lemma_nearest_bounds(i + 1, dx, dy);
            lemma_nearest_step(i, dx, dy);
        }
    }
}

/// The path through two points starts at the first, ends at the second, and
/// stays within their bounding box.
pub proof fn lemma_rasterized_pair(a: DisplayPoint, b: DisplayPoint)
    ensures
        ({
            let path = rasterized(seq![a, b]);
            &&& path.len() == (if a == b {
                2
            } else {
                steps(a, b) + 1
            })
            &&& path.first() == a
            &&& path.last() == b
            &&& path.contains(a)
            &&& path.contains(b)
            &&& forall|k: int| 0 <= k < path.len() ==> in_bounding_box(#[trigger] path[k], a, b)
            &&& forall|k: int|
                0 <= k < path.len() - 1 ==> adjacent(#[trigger] path[k], path[k + 1])
        }),
{
    let points = seq![a, b];
    let path = rasterized(points);
    reveal_with_fuel(expand_from, 3);
    assert(expand_from(points, 2) =~= Seq::empty());
    assert(expand_from(points, 1) =~= seq![b]);
    assert(path =~= segment_points(a, b) + seq![b]);
    if a == b {
        assert(path =~= seq![a, b]);
        assert(path[0] == a && path[1] == b);
    } else {
        assert(path.len() == steps(a, b) + 1);
        assert(steps(a, b) >= 1);
        lemma_segment_point(a, b, 0);
        lemma_segment_point(a, b, steps(a, b));
        assert(path[0] == a);
        assert(path[steps(a, b)] == b);
        assert forall|k: int| 0 <= k < path.len() implies in_bounding_box(
            #[trigger] path[k],
            a,
            b,
        ) by {
            lemma_segment_point(a, b, k);
        }
        assert forall|k: int| 0 <= k < path.len() - 1 implies adjacent(
            #[trigger] path[k],
            path[k + 1],
        ) by {
            lemma_segment_point(a, b, k);
            lemma_segment_point(a, b, k + 1);
        }
    }
}

/// A segment starts at its first end, has no gap, and its last pixel
/// touches its second end.
pub proof fn lemma_segment_connected(a: DisplayPoint, b: DisplayPoint)
    ensures
        segment_points(a, b).len() >= 1,
        segment_points(a, b).first() == a,
        adjacent(segment_points(a, b).last(), b),
        forall|k: int|
            0 <= k < segment_points(a, b).len() - 1 ==> adjacent(
                #[trigger] segment_points(a, b)[k],
                segment_points(a, b)[k + 1],
            ),
        forall|k: int|
            0 <= k < segment_points(a, b).len() ==> in_bounding_box(
                #[trigger] segment_points(a, b)[k],
                a,
                b,
            ),
{
    let seg = segment_points(a, b);
    if a != b {
        assert(steps(a, b) >= 1);
        lemma_segment_point(a, b, 0);
        lemma_segment_point(a, b, steps(a, b) - 1);
        lemma_segment_point(a, b, steps(a, b));
        assert forall|k: int| 0 <= k < seg.len() - 1 implies adjacent(
            #[trigger] seg[k],
            seg[k + 1],
        ) by {
            lemma_segment_point(a, b, k);
        }
        assert forall|k: int| 0 <= k < seg.len() implies in_bounding_box(
            #[trigger] seg[k],
            a,
            b,
        ) by {
            lemma_segment_point(a, b, k);
        }
    }
}

/// The path through points from index `from` on starts at that point, ends
/// at the last point, and has no gap.
pub proof fn lemma_expand_connected(points: Seq<DisplayPoint>, from: int)
    requires
        0 <= from < points.len(),
    ensures
        expand_from(points, from).len() >= 1,
        expand_from(points, from).first() == points[from],
        expand_from(points, from).last() == points.last(),
        forall|k: int|
            0 <= k < expand_from(points, from).len() - 1 ==> adjacent(
                #[trigger] expand_from(points, from)[k],
                expand_from(points, from)[k + 1],
            ),
    decreases points.len() - from,
{
    let path = expand_from(points, from);
    if from + 1 < points.len() {
        let seg = segment_points(points[from], points[from + 1]);
        let rest = expand_from(points, from + 1);
        lemma_segment_connected(points[from], points[from + 1]);
        lemma_expand_connected(points, from + 1);
        assert(path =~= seg + rest);
        assert forall|k: int| 0 <= k < path.len() - 1 implies adjacent(
            #[trigger] path[k],
            path[k + 1],
        ) by {
            if k < seg.len() - 1 {
                assert(path[k] == seg[k] && path[k + 1] == seg[k + 1]);
            } else if k == seg.len() - 1 {
                assert(path[k] == seg.last() && path[k + 1] == rest[0]);
            } else {
                assert(path[k] == rest[k - seg.len()] && path[k + 1] == rest[k - seg.len() + 1]);
            }
        }
    } else {
        assert(expand_from(points, from + 1) =~= Seq::empty());
        assert(path =~= seq![points[from]]);
    }
}

/// The path through any points starts at the first of them, ends at the
/// last, and has no gap: each pixel is a neighbour of the next.
pub proof fn lemma_rasterized_connected(points: Seq<DisplayPoint>)
    requires
        points.len() >= 1,
    ensures
        rasterized(points).len() >= points.len(),
        rasterized(points).first() == points.first(),
        rasterized(points).last() == points.last(),
        forall|k: int|
            0 <= k < rasterized(points).len() - 1 ==> adjacent(
                #[trigger] rasterized(points)[k],
                rasterized(points)[k + 1],
            ),
{
    lemma_expand_connected(points, 0);
    lemma_expand_length(points, 0);
}

/// The path through points from index `from` on holds at least one pixel
/// for each of them.
pub proof fn lemma_expand_length(points: Seq<DisplayPoint>, from: int)
    requires
        0 <= from <= points.len(),
    ensures
        expand_from(points, from).len() >= points.len() - from,
    decreases points.len() - from,
{
    if from < points.len() {
        lemma_expand_length(points, from + 1);
        if from + 1 < points.len() {
            lemma_segment_connected(points[from], points[from + 1]);
        } else {
            lemma_segment_connected(points[from], points[from]);
        }
    }
}

fn step_toward(from: usize, to: usize, by: usize) -> (at: usize)
    requires
        by <= span(from, to),
    ensures
        at == toward(from, to, by as int),
{
    if to >= from {
        from + by
    } else {
        from - by
    }
}

/// The path from `a` up to, not including, `b`; `a` alone where the two are equal.
pub fn line_points(a: DisplayPoint, b: DisplayPoint) -> (path: Vec<DisplayPoint>)
    ensures
        path@ == segment_points(a, b),
        path@.len() >= 1,
{
    let mut path: Vec<DisplayPoint> = Vec::new();
    if a.x == b.x && a.y == b.y {
        path.push(a);
        proof {
            assert(path@ =~= segment_points(a, b));
        }
        return path;
    }
    let dx: usize = if b.x >= a.x {
        b.x - a.x
    } else {
        a.x - b.x
    };
    let dy: usize = if b.y >= a.y {
        b.y - a.y
    } else {
        a.y - b.y
    };
    let wide: bool = dx >= dy;
    let major: usize = if wide {
        dx
    } else {
        dy
    };
    let minor: usize = if wide {
        dy
    } else {
        dx
    };
    let mut i: usize = 0;
    let mut share: usize = 0;
    let mut rest: u128 = major as u128;
    proof {
        assert(2 * (0 * minor) + major == 0 * (2 * major) + major);
    }
    while i < major
        invariant
            i <= major,
            0 < major,
            minor <= major,
            dx == span(a.x, b.x),
            dy == span(a.y, b.y),
            wide == (dx >= dy),
            major == (if wide {
                dx
            } else {
                dy
            }),
            minor == (if wide {
                dy
            } else {
                dx
            }),
            major == steps(a, b),
            0 <= rest < 2 * major,
            2 * (i * minor) + major == share * (2 * major) + rest,
            path@.len() == i,
            forall|k: int| 0 <= k < i ==> path@[k] == segment_point(a, b, k),
        decreases major - i,
    {
        proof {
            lemma_fundamental_div_mod_converse(
                2 * (i * minor) + major,
                2 * major,
                share as int,
                rest as int,
            );
            lemma_nearest_bounds(i as int, minor as int, major as int);
        }
        let p: DisplayPoint = if wide {
            DisplayPoint { x: step_toward(a.x, b.x, i), y: step_toward(a.y, b.y, share) }
        } else {
            DisplayPoint { x: step_toward(a.x, b.x, share), y: step_toward(a.y, b.y, i) }
        };
        path.push(p);
        proof {
            lemma_nearest_bounds(i + 1, minor as int, major as int);
            assert(2 * ((i + 1) * minor) + major == share * (2 * major) + rest + 2 * minor)
                by (nonlinear_arith)
                requires
                    2 * (i * minor) + major == share * (2 * major) + rest,
            ;
        }
        i += 1;
        rest = rest + 2 * (minor as u128);
        if rest >= 2 * (major as u128) {
            rest = rest - 2 * (major as u128);
            proof {
                assert(2 * (i * minor) + major == (share + 1) * (2 * major) + rest)
                    by (nonlinear_arith)
                    requires
                        2 * (i * minor) + major == share * (2 * major) + rest + 2 * major,
                ;
                lemma_fundamental_div_mod_converse(
                    2 * (i * minor) + major,
                    2 * major,
                    share + 1,
                    rest as int,
                );
            }
            share += 1;
        }
    }
    proof {
        assert(path@ =~= segment_points(a, b));
    }
    path
}

/// The paths of all pairs of neighbours, one behind the other, are the path
/// through the points.
pub proof fn lemma_chunks_are_path(
    points: Seq<DisplayPoint>,
    chunks: Seq<Seq<DisplayPoint>>,
    from: int,
)
    requires
        chunks.len() == points.len(),
        0 <= from <= points.len(),
        forall|k: int|
            0 <= k < points.len() ==> #[trigger] chunks[k] == segment_points(
                points[k],
                partner(points, k),
            ),
    ensures
        chunks.skip(from).flatten() == expand_from(points, from),
    decreases points.len() - from,
{
    let rest = chunks.skip(from);
    if from < points.len() {
        lemma_chunks_are_path(points, chunks, from + 1);
        assert(rest.first() == chunks[from]);
        assert(rest.drop_first() =~= chunks.skip(from + 1));
    }
}

/// Lays a gap-free path through `points`: each point, then the pixels between
/// it and the next one.
pub fn extrapolate(points: Vec<DisplayPoint>) -> (path: Vec<DisplayPoint>)
    ensures
        path@ == rasterized(points@),
{
    let ghost items = points@;
    let mut pairs = FlatMapPairs::new(points, line_points);
    let mut path: Vec<DisplayPoint> = Vec::new();
    loop
        invariant
            pairs.wf(),
            pairs.items() == items,
            path@ == pairs.handed_out(),
            forall|a: DisplayPoint, b: DisplayPoint, v: Vec<DisplayPoint>|
                call_ensures(pairs.expander(), (a, b), v) ==> v@ == segment_points(a, b),
        ensures
            pairs.wf(),
            pairs.items() == items,
            path@ == pairs.handed_out(),
            pairs.pairs_left() == 0,
            pairs.pending() == 0,
            forall|a: DisplayPoint, b: DisplayPoint, v: Vec<DisplayPoint>|
                call_ensures(pairs.expander(), (a, b), v) ==> v@ == segment_points(a, b),
        decreases pairs.pairs_left(), pairs.pending(),
    {
        match pairs.next() {
            Some(p) => {
                path.push(p);
            },
            None => {
                break ;
            },
        }
    }
    proof {
        let chunks = pairs.chunks();
        assert forall|k: int| 0 <= k < items.len() implies #[trigger] chunks[k]
            == segment_points(items[k], partner(items, k)) by {
            assert(expands_to(pairs.expander(), items[k], partner(items, k), chunks[k]));
        }
        lemma_chunks_are_path(items, chunks, 0);
        assert(chunks.skip(0) =~= chunks);
        assert(path@ =~= chunks.flatten());
    }
    path
}

} // verus!
