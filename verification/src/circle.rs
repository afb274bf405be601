//! Circle outlines, drawn with the midpoint algorithm: one quadrant is
//! walked and each of its pixels is mirrored into the other three.

use vstd::prelude::*;
use vstd::math::abs;
use crate::color::Color;
use crate::screen::{set_color, Frame, Screen};

verus! {

/// The four pixels that the walk draws when it stands at `(x, y)` relative
/// to the centre `(cx, cy)`: the point and its images under quarter turns.
pub open spec fn circle_quad(cx: int, cy: int, x: int, y: int) -> Seq<(int, int)> {
    seq![(cx - x, cy + y), (cx - y, cy - x), (cx + x, cy - y), (cx + y, cy + x)]
}

/// One step of the walk at `(x, y)` with error term `err`: y rises where
/// the error term is at most y, and then x rises where the old error term is
/// positive or the new one is above the new y.
pub open spec fn circle_step(x: int, y: int, err: int) -> (int, int, int) {
    let y2 = if err <= y { y + 1 } else { y };
    let err1 = if err <= y { err + y2 * 2 + 1 } else { err };
    let goes_x = err > 0 || err1 > y2;
    let x2 = if goes_x { x + 1 } else { x };
    let err2 = if goes_x { err1 + x2 * 2 + 1 } else { err1 };
    (x2, y2, err2)
}

/// The pixels of the walk from `(x, y)` on; it ends once x is positive.
pub open spec fn circle_from(cx: int, cy: int, radius: int, x: int, y: int, err: int) -> Seq<
    (int, int),
>
    decreases radius + 3 - x - y,
    when x <= 0 && 0 <= y <= radius
{
    let next = circle_step(x, y, err);
    if next.0 > 0 {
        circle_quad(cx, cy, x, y)
    } else {
        circle_quad(cx, cy, x, y) + circle_from(cx, cy, radius, next.0, next.1, next.2)
    }
}

/// The pixels of the circle round `center`, in the order in which they are
/// drawn. The walk starts at x = -radius; with a negative radius that is
/// already positive, and the walk ends after its first four pixels.
pub open spec fn circle_points(center: (i32, i32), radius: i32) -> Seq<(int, int)> {
    if radius < 0 {
        circle_quad(center.0 as int, center.1 as int, -radius, 0)
    } else {
        circle_from(
            center.0 as int,
            center.1 as int,
            radius as int,
            -radius,
            0,
            2 - 2 * radius,
        )
    }
}

/// The error term of the walk at `(x, y)`: how far the pixel diagonally
/// ahead lies outside the circle, in squared distance.
pub open spec fn circle_error(radius: int, x: int, y: int) -> int {
    (x + 1) * (x + 1) + (y + 1) * (y + 1) - radius * radius
}

/// A step keeps the error term in line with the point, and keeps the point
/// in the quadrant's box.
pub proof fn lemma_circle_step(radius: int, x: int, y: int, err: int)
    requires
        0 <= radius,
        -radius <= x <= 0,
        0 <= y <= radius,
        err == circle_error(radius, x, y),
    ensures
        ({
            let next = circle_step(x, y, err);
            &&& x <= next.0 <= x + 1
            &&& y <= next.1 <= y + 1
            &&& next.1 <= radius
            &&& next.0 + next.1 > x + y
            &&& next.2 == circle_error(radius, next.0, next.1)
        }),
{
    let next = circle_step(x, y, err);
    if err <= y {
        assert(y + 1 <= radius) by (nonlinear_arith)
            requires
                0 <= radius,
                0 <= y,
                (x + 1) * (x + 1) + (y + 1) * (y + 1) - radius * radius <= y,
        ;
    }
    assert(next.2 == circle_error(radius, next.0, next.1)) by (nonlinear_arith)
        requires
            err == (x + 1) * (x + 1) + (y + 1) * (y + 1) - radius * radius,
            next.0 == x || next.0 == x + 1,
            next.1 == y || next.1 == y + 1,
            next.2 == err + (if next.1 == y + 1 { next.1 * 2 + 1 } else { 0 }) + (if next.0 == x
                + 1 { next.0 * 2 + 1 } else { 0 }),
            circle_error(radius, next.0, next.1) == (next.0 + 1) * (next.0 + 1) + (next.1 + 1) * (
            next.1 + 1) - radius * radius,
    ;
}

/// Bounds that the walk keeps on its error term; they keep the walk close
/// to the circle.
pub open spec fn circle_slack(radius: int, x: int, y: int, err: int) -> bool {
    2 * x + 2 <= err <= 2 * radius + 2 * x + 2 * y + 2 + (if x == 0 { 1int } else { 0 })
}

/// A step keeps the bounds on the error term, as long as the walk goes on.
pub proof fn lemma_circle_slack(radius: int, x: int, y: int, err: int)
    requires
        0 <= radius,
        -radius <= x <= 0,
        0 <= y <= radius,
        err == circle_error(radius, x, y),
        circle_slack(radius, x, y, err),
    ensures
        ({
            let next = circle_step(x, y, err);
            next.0 <= 0 ==> circle_slack(radius, next.0, next.1, next.2)
        }),
{
    lemma_circle_step(radius, x, y, err);
}

/// Whether the squared distance of `p` from `(cx, cy)` lies between the
/// squares of `radius - 1` and `radius + 1`.
pub open spec fn near_circle(cx: int, cy: int, radius: int, p: (int, int)) -> bool {
    (radius - 1) * (radius - 1) <= (p.0 - cx) * (p.0 - cx) + (p.1 - cy) * (p.1 - cy) <= (radius
        + 1) * (radius + 1)
}

/// The four pixels that the walk draws at a point within its bounds lie
/// within a pixel of the circle.
proof fn lemma_quad_near_circle(cx: int, cy: int, radius: int, x: int, y: int, err: int)
    requires
        1 <= radius,
        -radius <= x <= 0,
        0 <= y <= radius,
        err == circle_error(radius, x, y),
        circle_slack(radius, x, y, err),
    ensures
        forall|i: int|
            0 <= i < 4 ==> near_circle(cx, cy, radius, #[trigger] circle_quad(cx, cy, x, y)[i]),
{
    let g = x * x + y * y - radius * radius;
    assert(g == err - 2 * x - 2 * y - 2) by (nonlinear_arith)
        requires
            err == (x + 1) * (x + 1) + (y + 1) * (y + 1) - radius * radius,
            g == x * x + y * y - radius * radius,
    ;
    if y == radius {
        assert(g >= 0) by (nonlinear_arith)
            requires
                y == radius,
                g == x * x + y * y - radius * radius,
        ;
    }
    assert((radius - 1) * (radius - 1) == radius * radius - 2 * radius + 1) by (nonlinear_arith);
    assert((radius + 1) * (radius + 1) == radius * radius + 2 * radius + 1) by (nonlinear_arith);
    assert((-x) * (-x) == x * x) by (nonlinear_arith);
    assert((-y) * (-y) == y * y) by (nonlinear_arith);
    let quad = circle_quad(cx, cy, x, y);
    assert(quad[0].0 - cx == -x && quad[0].1 - cy == y);
    assert(quad[1].0 - cx == -y && quad[1].1 - cy == -x);
    assert(quad[2].0 - cx == x && quad[2].1 - cy == -y);
    assert(quad[3].0 - cx == y && quad[3].1 - cy == x);
}

/// From a point within its bounds on, the walk stays within a pixel of the
/// circle.
pub proof fn lemma_circle_from_near(cx: int, cy: int, radius: int, x: int, y: int, err: int)
    requires
        1 <= radius,
        -radius <= x <= 0,
        0 <= y <= radius,
        err == circle_error(radius, x, y),
        circle_slack(radius, x, y, err),
    ensures
        forall|i: int|
            0 <= i < circle_from(cx, cy, radius, x, y, err).len() ==> near_circle(
                cx,
                cy,
                radius,
                #[trigger] circle_from(cx, cy, radius, x, y, err)[i],
            ),
    decreases radius + 3 - x - y,
{
    let path = circle_from(cx, cy, radius, x, y, err);
    let quad = circle_quad(cx, cy, x, y);
    let next = circle_step(x, y, err);
    lemma_circle_step(radius, x, y, err);
    lemma_circle_slack(radius, x, y, err);
    lemma_quad_near_circle(cx, cy, radius, x, y, err);
    if next.0 > 0 {
        assert(path =~= quad);
    } else {
        lemma_circle_from_near(cx, cy, radius, next.0, next.1, next.2);
        let tail = circle_from(cx, cy, radius, next.0, next.1, next.2);
        assert(path =~= quad + tail);
        assert forall|i: int| 0 <= i < path.len() implies near_circle(
            cx,
            cy,
            radius,
            #[trigger] path[i],
        ) by {
            if i >= 4 {
                assert(path[i] == tail[i - 4]);
            } else {
                assert(path[i] == quad[i]);
            }
        }
    }
}

/// Every pixel of a circle of radius 1 or more lies within one pixel of the
/// true circle: its distance from the centre is between `radius - 1` and
/// `radius + 1`.
pub proof fn lemma_circle_near(center: (i32, i32), radius: i32)
    requires
        radius >= 1,
    ensures
        forall|i: int|
            0 <= i < circle_points(center, radius).len() ==> near_circle(
                center.0 as int,
                center.1 as int,
                radius as int,
                #[trigger] circle_points(center, radius)[i],
            ),
{
    assert(2 - 2 * radius == circle_error(radius as int, -radius, 0)) by (nonlinear_arith)
        requires
            circle_error(radius as int, -radius, 0) == (-radius + 1) * (-radius + 1) + (0 + 1) * (0
                + 1) - radius * radius,
    ;
    lemma_circle_from_near(
        center.0 as int,
        center.1 as int,
        radius as int,
        -radius,
        0,
        2 - 2 * radius,
    );
}

/// Whether `p` lies in the square of half edge `reach` round `(cx, cy)`.
pub open spec fn in_square(cx: int, cy: int, reach: int, p: (int, int)) -> bool {
    cx - reach <= p.0 <= cx + reach && cy - reach <= p.1 <= cy + reach
}

/// The walk stays in the circle's bounding square.
pub proof fn lemma_circle_from_in_square(cx: int, cy: int, radius: int, x: int, y: int, err: int)
    requires
        0 <= radius,
        -radius <= x <= 0,
        0 <= y <= radius,
        err == circle_error(radius, x, y),
    ensures
        forall|i: int|
            0 <= i < circle_from(cx, cy, radius, x, y, err).len() ==> in_square(
                cx,
                cy,
                radius,
                #[trigger] circle_from(cx, cy, radius, x, y, err)[i],
            ),
    decreases radius + 3 - x - y,
{
    let path = circle_from(cx, cy, radius, x, y, err);
    let quad = circle_quad(cx, cy, x, y);
    let next = circle_step(x, y, err);
    lemma_circle_step(radius, x, y, err);
    if next.0 > 0 {
        assert(path =~= quad);
    } else {
        lemma_circle_from_in_square(cx, cy, radius, next.0, next.1, next.2);
        let tail = circle_from(cx, cy, radius, next.0, next.1, next.2);
        assert(path =~= quad + tail);
        assert forall|i: int| 0 <= i < path.len() implies in_square(
            cx,
            cy,
            radius,
            #[trigger] path[i],
        ) by {
            if i >= 4 {
                assert(path[i] == tail[i - 4]);
            }
        }
    }
}

/// Every pixel of a circle lies in the square round its centre whose half
/// edge is the radius, taken without its sign.
pub proof fn lemma_circle_in_square(center: (i32, i32), radius: i32)
    ensures
        forall|i: int|
            0 <= i < circle_points(center, radius).len() ==> in_square(
                center.0 as int,
                center.1 as int,
                abs(radius as int) as int,
                #[trigger] circle_points(center, radius)[i],
            ),
{
    if radius >= 0 {
        assert(2 - 2 * radius == circle_error(radius as int, -radius, 0)) by (nonlinear_arith)
            requires
                circle_error(radius as int, -radius, 0) == (-radius + 1) * (-radius + 1) + (0 + 1)
                    * (0 + 1) - radius * radius,
        ;
        lemma_circle_from_in_square(
            center.0 as int,
            center.1 as int,
            radius as int,
            -radius,
            0,
            2 - 2 * radius,
        );
    }
}

/// The error term stays far inside the 64-bit range.
proof fn lemma_circle_error_bound(radius: int, x: int, y: int)
    by (nonlinear_arith)
    requires
        0 <= radius <= 0x7fff_ffff,
        -radius <= x <= 0,
        0 <= y <= radius,
    ensures
        -0x4000_0000_0000_0000 <= (x + 1) * (x + 1) + (y + 1) * (y + 1) - radius * radius
            <= 0x4000_0000_0000_0002,
{
}

/// Draws the outline of the circle round `a`. The circle's bounding square
/// has to lie on the screen.
pub fn circle(screen: &mut Screen, a: (i32, i32), radius: i32, color: &Color)
    requires
        old(screen).wf(),
        old(screen)@.on_screen(a.0 - abs(radius as int), a.1 - abs(radius as int)),
        old(screen)@.on_screen(a.0 + abs(radius as int), a.1 + abs(radius as int)),
    ensures
        final(screen).wf(),
        final(screen).width == old(screen).width,
        final(screen).height == old(screen).height,
        final(screen)@ == old(screen)@.plot_all(circle_points(a, radius), *color),
{
    let mut x: i64 = -(radius as i64);
    let mut y: i64 = 0;
    let mut err: i64 = 2 - 2 * (radius as i64);

    let ghost start = screen@;
    let ghost cx = a.0 as int;
    let ghost cy = a.1 as int;
    let ghost mut done: Seq<(int, int)> = Seq::empty();
    proof {
        if radius >= 0 {
            assert(err == circle_error(radius as int, x as int, y as int)) by (nonlinear_arith)
                requires
                    x == -radius,
                    y == 0,
                    err == 2 - 2 * radius,
                    circle_error(radius as int, x as int, y as int) == (x + 1) * (x + 1) + (y + 1)
                        * (y + 1) - radius * radius,
            ;
        }
    }

    loop
        invariant_except_break
            radius >= 0 ==> -radius <= x <= 0 && 0 <= y <= radius && err == circle_error(
                radius as int,
                x as int,
                y as int,
            ),
            radius < 0 ==> x == -radius && y == 0 && err == 2 - 2 * radius,
            done + (if radius < 0 {
                circle_quad(cx, cy, x as int, y as int)
            } else {
                circle_from(cx, cy, radius as int, x as int, y as int, err as int)
            }) == circle_points(a, radius),
            screen@ == start.plot_all(done, *color),
        invariant
            screen.wf(),
            cx == a.0,
            cy == a.1,
            screen@.width == start.width,
            screen@.height == start.height,
            start.on_screen(a.0 - abs(radius as int), a.1 - abs(radius as int)),
            start.on_screen(a.0 + abs(radius as int), a.1 + abs(radius as int)),
        ensures
            screen@ == start.plot_all(circle_points(a, radius), *color),
        decreases radius + 3 - x - y,
    {
        let ghost before = done;
        let ghost quad = circle_quad(cx, cy, x as int, y as int);
        let ghost rest = if radius < 0 {
            quad
        } else {
            circle_from(cx, cy, radius as int, x as int, y as int, err as int)
        };
        proof {
            if radius >= 0 {
                lemma_circle_error_bound(radius as int, x as int, y as int);
                lemma_circle_step(radius as int, x as int, y as int, err as int);
            }
            start.lemma_plot_push(done, quad[0], *color);
            start.lemma_plot_push(done.push(quad[0]), quad[1], *color);
            start.lemma_plot_push(done.push(quad[0]).push(quad[1]), quad[2], *color);
            start.lemma_plot_push(done.push(quad[0]).push(quad[1]).push(quad[2]), quad[3], *color);
        }
        set_color(screen, (a.0 as i64 - x) as usize, (a.1 as i64 + y) as usize, color);
        set_color(screen, (a.0 as i64 - y) as usize, (a.1 as i64 - x) as usize, color);
        set_color(screen, (a.0 as i64 + x) as usize, (a.1 as i64 - y) as usize, color);
        set_color(screen, (a.0 as i64 + y) as usize, (a.1 as i64 + x) as usize, color);
        proof {
            done = done.push(quad[0]).push(quad[1]).push(quad[2]).push(quad[3]);
            assert(done =~= before + quad);
        }
        let r = err;
        if r <= y {
            y += 1;
            err += y * 2 + 1;
        }
        if r > 0 || err > y {
            x += 1;
            err += x * 2 + 1;
        }
        if x > 0 {
            proof {
                assert(rest =~= quad);
            }
            break ;
        }
        proof {
            assert(radius >= 0);
            assert(rest =~= quad + circle_from(
                cx,
                cy,
                radius as int,
                x as int,
                y as int,
                err as int,
            ));
            assert(done + circle_from(cx, cy, radius as int, x as int, y as int, err as int)
                =~= before + rest);
        }
    }
}

} // verus!
