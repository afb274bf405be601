//! Line drawing with Bresenham's algorithm, and wireframe triangles.

use vstd::prelude::*;
use vstd::math::abs;
use crate::color::Color;
use crate::geometry::{clamp_coord, clip_point, Vec2i};
use crate::screen::{set_color, Frame, Screen};

verus! {

/// The horizontal extent of the line from `a` to `b`.
pub open spec fn span_x(a: Vec2i, b: Vec2i) -> int {
    abs(b.x - a.x) as int
}

/// The vertical extent of the line from `a` to `b`.
pub open spec fn span_y(a: Vec2i, b: Vec2i) -> int {
    abs(b.y - a.y) as int
}

/// The direction in which the walk from `a` to `b` steps in x.
pub open spec fn dir_x(a: Vec2i, b: Vec2i) -> int {
    if a.x < b.x {
        1
    } else {
        -1
    }
}

/// The direction in which the walk from `a` to `b` steps in y.
pub open spec fn dir_y(a: Vec2i, b: Vec2i) -> int {
    if a.y < b.y {
        1
    } else {
        -1
    }
}

/// `v` lies between `from` and `to`, whichever of the two is larger.
pub open spec fn between(from: int, v: int, to: int) -> bool {
    (from <= v <= to) || (to <= v <= from)
}

/// One step of the walk from `a` to `b`, at the point `(x, y)` with error
/// term `err`: the next point and error term, or `None` where the walk ends.
///
/// Twice the error term is held against both extents. Where it is at least
/// the negated vertical extent the walk steps in x, unless x is `b`'s; where
/// it is at most the horizontal extent the walk steps in y, unless y is `b`'s.
pub open spec fn line_step(a: Vec2i, b: Vec2i, x: int, y: int, err: int) -> Option<
    (int, int, int),
> {
    let e2 = 2 * err;
    let goes_x = e2 >= -span_y(a, b);
    let goes_y = e2 <= span_x(a, b);
    if goes_x && x == b.x {
        None
    } else if goes_y && y == b.y {
        None
    } else {
        Some(
            (
                if goes_x { x + dir_x(a, b) } else { x },
                if goes_y { y + dir_y(a, b) } else { y },
                err + (if goes_x { -span_y(a, b) } else { 0 }) + (if goes_y { span_x(a, b) } else { 0 }),
            ),
        )
    }
}

/// The points of the walk from `(x, y)` on.
pub open spec fn line_from(a: Vec2i, b: Vec2i, x: int, y: int, err: int) -> Seq<(int, int)>
    decreases abs(b.x - x) + abs(b.y - y),
    when between(a.x as int, x, b.x as int) && between(a.y as int, y, b.y as int)
{
    match line_step(a, b, x, y, err) {
        None => seq![(x, y)],
        Some((x2, y2, err2)) => seq![(x, y)] + line_from(a, b, x2, y2, err2),
    }
}

/// The pixels of the line from `a` to `b`, in the order in which they are
/// drawn.
pub open spec fn line_points(a: Vec2i, b: Vec2i) -> Seq<(int, int)> {
    line_from(a, b, a.x as int, a.y as int, span_x(a, b) - span_y(a, b))
}

/// The walk starts where it stands, moves by one pixel at a time, to a
/// neighbour of the pixel before, and never leaves the box that `a` and `b`
/// span.
pub proof fn lemma_line_from_shape(a: Vec2i, b: Vec2i, x: int, y: int, err: int)
    requires
        between(a.x as int, x, b.x as int),
        between(a.y as int, y, b.y as int),
    ensures
        line_from(a, b, x, y, err).len() >= 1,
        line_from(a, b, x, y, err)[0] == (x, y),
        forall|i: int|
            0 <= i < line_from(a, b, x, y, err).len() ==> between(
                a.x as int,
                (#[trigger] line_from(a, b, x, y, err)[i]).0,
                b.x as int,
            ) && between(a.y as int, line_from(a, b, x, y, err)[i].1, b.y as int),
        forall|i: int|
            0 <= i < line_from(a, b, x, y, err).len() - 1 ==> neighbours(
                #[trigger] line_from(a, b, x, y, err)[i],
                line_from(a, b, x, y, err)[i + 1],
            ),
    decreases abs(b.x - x) + abs(b.y - y),
{
    let path = line_from(a, b, x, y, err);
    match line_step(a, b, x, y, err) {
        None => {
            assert(path =~= seq![(x, y)]);
        },
        Some((x2, y2, err2)) => {
            lemma_line_from_shape(a, b, x2, y2, err2);
            let tail = line_from(a, b, x2, y2, err2);
            assert(path =~= seq![(x, y)] + tail);
            assert forall|i: int| 0 <= i < path.len() implies between(
                a.x as int,
                (#[trigger] path[i]).0,
                b.x as int,
            ) && between(a.y as int, path[i].1, b.y as int) by {
                if i > 0 {
                    assert(path[i] == tail[i - 1]);
                }
            }
            assert forall|i: int| 0 <= i < path.len() - 1 implies neighbours(
                #[trigger] path[i],
                path[i + 1],
            ) by {
                if i > 0 {
                    assert(path[i] == tail[i - 1]);
                    assert(path[i + 1] == tail[i]);
                } else {
                    assert(path[1] == tail[0]);
                }
            }
        },
    }
}

/// Two different pixels that touch, by an edge or by a corner.
pub open spec fn neighbours(p: (int, int), q: (int, int)) -> bool {
    p != q && -1 <= q.0 - p.0 <= 1 && -1 <= q.1 - p.1 <= 1
}

/// The error term that the walk holds at `(x, y)`: its start value, lowered
/// by the vertical extent for each step taken in x and raised by the
/// horizontal extent for each step taken in y.
pub open spec fn line_error(a: Vec2i, b: Vec2i, x: int, y: int) -> int {
    (abs(y - a.y) + 1) * span_x(a, b) - (abs(x - a.x) + 1) * span_y(a, b)
}

/// The walk from a point between `a` and `b`, with the error term of that
/// point, ends at `b`.
pub proof fn lemma_line_from_ends(a: Vec2i, b: Vec2i, x: int, y: int, err: int)
    requires
        between(a.x as int, x, b.x as int),
        between(a.y as int, y, b.y as int),
        err == line_error(a, b, x, y),
    ensures
        line_from(a, b, x, y, err).last() == (b.x as int, b.y as int),
    decreases abs(b.x - x) + abs(b.y - y),
{
    let path = line_from(a, b, x, y, err);
    let w = span_x(a, b);
    let d = span_y(a, b);
    let i = abs(x - a.x) as int;
    let j = abs(y - a.y) as int;
    assert(0 <= i <= w && 0 <= j <= d);
    match line_step(a, b, x, y, err) {
        None => {
            assert(path =~= seq![(x, y)]);
            if 2 * err >= -d && x == b.x {
                assert(i == w);
                assert(j == d) by (nonlinear_arith)
                    requires
                        0 <= j <= d,
                        0 <= w,
                        2 * ((j + 1) * w - (w + 1) * d) >= -d,
                ;
            } else {
                assert(j == d);
                assert(i == w) by (nonlinear_arith)
                    requires
                        0 <= i <= w,
                        0 <= d,
                        2 * ((d + 1) * w - (i + 1) * d) <= w,
                ;
            }
        },
        Some((x2, y2, err2)) => {
            let i2 = abs(x2 - a.x) as int;
            let j2 = abs(y2 - a.y) as int;
            assert(i2 == if 2 * err >= -d { i + 1 } else { i });
            assert(j2 == if 2 * err <= w { j + 1 } else { j });
            assert(err2 == line_error(a, b, x2, y2)) by (nonlinear_arith)
                requires
                    err == (j + 1) * w - (i + 1) * d,
                    err2 == err + (if i2 == i + 1 { -d } else { 0 }) + (if j2 == j + 1 { w } else { 0 }),
                    i2 == i || i2 == i + 1,
                    j2 == j || j2 == j + 1,
                    line_error(a, b, x2, y2) == (j2 + 1) * w - (i2 + 1) * d,
            ;
            lemma_line_from_ends(a, b, x2, y2, err2);
            lemma_line_from_shape(a, b, x2, y2, err2);
            let tail = line_from(a, b, x2, y2, err2);
            assert(path =~= seq![(x, y)] + tail);
            assert(path.last() == tail.last());
        },
    }
}

/// How far the pixel `p` lies off the ideal line from `a` to `b`: its
/// distance from the line along the y axis, times the horizontal extent, which
/// is also its distance along the x axis, times the vertical extent.
pub open spec fn deviation(a: Vec2i, b: Vec2i, p: (int, int)) -> int {
    span_x(a, b) * abs(p.1 - a.y) - span_y(a, b) * abs(p.0 - a.x)
}

/// The larger of the two extents of the line.
pub open spec fn long_extent(a: Vec2i, b: Vec2i) -> int {
    if span_x(a, b) >= span_y(a, b) {
        span_x(a, b)
    } else {
        span_y(a, b)
    }
}

/// Whether `p` lies within half a pixel of the ideal line from `a` to `b`,
/// measured along the axis in which the line is shorter.
pub open spec fn hugs_line(a: Vec2i, b: Vec2i, p: (int, int)) -> bool {
    -long_extent(a, b) <= 2 * deviation(a, b, p) <= long_extent(a, b)
}

/// From a point that hugs the ideal line, every later point of the walk
/// hugs it too, and the walk takes one pixel for each step that is left along
/// the longer extent.
pub proof fn lemma_line_from_hugs(a: Vec2i, b: Vec2i, x: int, y: int, err: int)
    requires
        between(a.x as int, x, b.x as int),
        between(a.y as int, y, b.y as int),
        err == line_error(a, b, x, y),
        hugs_line(a, b, (x, y)),
    ensures
        forall|i: int|
            0 <= i < line_from(a, b, x, y, err).len() ==> hugs_line(
                a,
                b,
                #[trigger] line_from(a, b, x, y, err)[i],
            ),
        line_from(a, b, x, y, err).len() == 1 + (if span_x(a, b) >= span_y(a, b) {
            abs(b.x - x)
        } else {
            abs(b.y - y)
        }),
    decreases abs(b.x - x) + abs(b.y - y),
{
    let path = line_from(a, b, x, y, err);
    let w = span_x(a, b);
    let d = span_y(a, b);
    let i = abs(x - a.x) as int;
    let j = abs(y - a.y) as int;
    let dev = w * j - d * i;
    assert(err == dev + w - d) by (nonlinear_arith)
        requires
            err == (j + 1) * w - (i + 1) * d,
            dev == w * j - d * i,
    ;
    match line_step(a, b, x, y, err) {
        None => {
            assert(path =~= seq![(x, y)]);
            lemma_line_from_ends(a, b, x, y, err);
        },
        Some((x2, y2, err2)) => {
            let i2 = abs(x2 - a.x) as int;
            let j2 = abs(y2 - a.y) as int;
            assert(i2 == if 2 * err >= -d { i + 1 } else { i });
            assert(j2 == if 2 * err <= w { j + 1 } else { j });
            let dev2 = w * j2 - d * i2;
            assert(dev2 == dev + (if j2 == j + 1 { w } else { 0 }) - (if i2 == i + 1 { d } else { 0 }))
                by (nonlinear_arith)
                requires
                    dev == w * j - d * i,
                    dev2 == w * j2 - d * i2,
                    i2 == i || i2 == i + 1,
                    j2 == j || j2 == j + 1,
            ;
            assert(err2 == line_error(a, b, x2, y2)) by (nonlinear_arith)
                requires
                    err == (j + 1) * w - (i + 1) * d,
                    err2 == err + (if i2 == i + 1 { -d } else { 0 }) + (if j2 == j + 1 { w } else { 0 }),
                    i2 == i || i2 == i + 1,
                    j2 == j || j2 == j + 1,
                    line_error(a, b, x2, y2) == (j2 + 1) * w - (i2 + 1) * d,
            ;
            assert(hugs_line(a, b, (x2, y2)));
            lemma_line_from_hugs(a, b, x2, y2, err2);
            let tail = line_from(a, b, x2, y2, err2);
            assert(path =~= seq![(x, y)] + tail);
            assert(path.len() == 1 + tail.len());
            assert forall|k: int| 0 <= k < path.len() implies hugs_line(a, b, #[trigger] path[k]) by {
                if k > 0 {
                    assert(path[k] == tail[k - 1]);
                }
            }
        },
    }
}

/// The line starts at `a`, ends at `b`, stays in the box that the two span,
/// steps from each pixel to a neighbour, never strays more than half a pixel
/// from the ideal line, and has one pixel more than its longer extent.
pub proof fn lemma_line_points(a: Vec2i, b: Vec2i)
    ensures
        line_points(a, b).len() >= 1,
        line_points(a, b)[0] == (a.x as int, a.y as int),
        line_points(a, b).last() == (b.x as int, b.y as int),
        forall|i: int|
            0 <= i < line_points(a, b).len() ==> between(
                a.x as int,
                (#[trigger] line_points(a, b)[i]).0,
                b.x as int,
            ) && between(a.y as int, line_points(a, b)[i].1, b.y as int),
        forall|i: int|
            0 <= i < line_points(a, b).len() - 1 ==> neighbours(
                #[trigger] line_points(a, b)[i],
                line_points(a, b)[i + 1],
            ),
        forall|i: int|
            0 <= i < line_points(a, b).len() ==> hugs_line(a, b, #[trigger] line_points(a, b)[i]),
        line_points(a, b).len() == long_extent(a, b) + 1,
{
    let err = span_x(a, b) - span_y(a, b);
    assert(deviation(a, b, (a.x as int, a.y as int)) == 0) by (nonlinear_arith)
        requires
            deviation(a, b, (a.x as int, a.y as int)) == span_x(a, b) * 0 - span_y(a, b) * 0,
    ;
    assert(err == line_error(a, b, a.x as int, a.y as int)) by (nonlinear_arith)
        requires
            err == span_x(a, b) - span_y(a, b),
            line_error(a, b, a.x as int, a.y as int) == (0 + 1) * span_x(a, b) - (0 + 1) * span_y(
                a,
                b,
            ),
    ;
    lemma_line_from_shape(a, b, a.x as int, a.y as int, err);
    lemma_line_from_ends(a, b, a.x as int, a.y as int, err);
    lemma_line_from_hugs(a, b, a.x as int, a.y as int, err);
}

/// Draws the line from `a` to `b`.
pub fn line(screen: &mut Screen, a: Vec2i, b: Vec2i, color: &Color)
    requires
        old(screen).wf(),
        old(screen)@.on_screen(a.x as int, a.y as int),
        old(screen)@.on_screen(b.x as int, b.y as int),
    ensures
        final(screen).wf(),
        final(screen).width == old(screen).width,
        final(screen).height == old(screen).height,
        final(screen)@ == old(screen)@.plot_all(line_points(a, b), *color),
{
    let mut x0: i32 = a.x;
    let mut y0: i32 = a.y;

    let x1: i32 = b.x;
    let y1: i32 = b.y;

    let dx: i64 = if x0 < x1 { x1 as i64 - x0 as i64 } else { x0 as i64 - x1 as i64 };
    let sx: i32 = if x0 < x1 { 1 } else { -1 };
    let dy: i64 = if y0 < y1 { y0 as i64 - y1 as i64 } else { y1 as i64 - y0 as i64 };
    let sy: i32 = if y0 < y1 { 1 } else { -1 };

    let mut err: i64 = dx + dy;
    let mut e2: i64;

    let ghost start = screen@;
    let ghost mut done: Seq<(int, int)> = Seq::empty();

    loop
        invariant_except_break
            between(a.x as int, x0 as int, b.x as int),
            between(a.y as int, y0 as int, b.y as int),
            2 * dy <= err <= 2 * dx,
            done + line_from(a, b, x0 as int, y0 as int, err as int) == line_points(a, b),
            screen@ == start.plot_all(done, *color),
        invariant
            screen.wf(),
            start.on_screen(a.x as int, a.y as int),
            start.on_screen(b.x as int, b.y as int),
            screen@.width == start.width,
            screen@.height == start.height,
            x1 == b.x,
            y1 == b.y,
            dx == span_x(a, b),
            dy == -span_y(a, b),
            sx == dir_x(a, b),
            sy == dir_y(a, b),
        ensures
            screen@ == start.plot_all(line_points(a, b), *color),
        decreases abs(b.x - x0) + abs(b.y - y0),
    {
        let ghost rest = line_from(a, b, x0 as int, y0 as int, err as int);
        let ghost before = done;
        let ghost here = (x0 as int, y0 as int);
        set_color(screen, x0 as usize, y0 as usize, color);
        proof {
            done = done.push((x0 as int, y0 as int));
            assert(done.drop_last() =~= before);
        }
        e2 = 2 * err;
        if e2 >= dy {
            if x0 == x1 {
                proof {
                    assert(rest =~= seq![here]);
                    assert(done =~= before + rest);
                }
                break ;
            }
            err += dy;
            x0 += sx;
        }
        if e2 <= dx {
            if y0 == y1 {
                proof {
                    assert(rest =~= seq![here]);
                    assert(done =~= before + rest);
                }
                break ;
            }
            err += dx;
            y0 += sy;
        }
        proof {
            assert(done + line_from(a, b, x0 as int, y0 as int, err as int) =~= before + rest);
        }
    }
}

/// The point that `clip_point` makes of `p` on a screen of extent `dims`.
pub open spec fn clipped(p: Vec2i, dims: Vec2i) -> Vec2i {
    Vec2i {
        x: clamp_coord(p.x as int, dims.x as int) as i32,
        y: clamp_coord(p.y as int, dims.y as int) as i32,
    }
}

/// Draws the outline of a triangle whose corners are given in pixel space.
/// Each corner is first nudged into the screen; then the three sides are
/// drawn, from `a` to `b`, from `b` to `c` and from `c` to `a`.
pub fn triangle_wired(screen: &mut Screen, a: &Vec2i, b: &Vec2i, c: &Vec2i, color: &Color)
    requires
        old(screen).wf(),
        1 <= old(screen).width <= i32::MAX,
        1 <= old(screen).height <= i32::MAX,
    ensures
        final(screen).wf(),
        ({
            let dims = Vec2i { x: old(screen).width as i32, y: old(screen).height as i32 };
            let ca = clipped(*a, dims);
            let cb = clipped(*b, dims);
            let cc = clipped(*c, dims);
            final(screen)@ == old(screen)@.plot_all(line_points(ca, cb), *color).plot_all(
                line_points(cb, cc),
                *color,
            ).plot_all(line_points(cc, ca), *color)
        }),
{
    let screen_dims = Vec2i::new(screen.width as i32, screen.height as i32);
    let a = clip_point(a, &screen_dims);
    let b = clip_point(b, &screen_dims);
    let c = clip_point(c, &screen_dims);

    line(screen, a, b, color);
    line(screen, b, c, color);
    line(screen, c, a, color);
}

} // verus!
