//! Integer points in pixel space, screen clamping, bounding boxes and the
//! mapping between pixels and offsets from the screen centre.

use vstd::prelude::*;
use vstd::math::{max, min};

verus! {

/// A point or extent in pixel space.
#[derive(Debug, PartialEq, Eq, Structural, Copy, Clone, Hash)]
pub struct Vec2i {
    pub x: i32,
    pub y: i32,
}

impl Vec2i {
    pub fn new(x: i32, y: i32) -> (v: Vec2i)
        ensures
            v == (Vec2i { x, y }),
    {
        Vec2i { x, y }
    }
}

/// A pair of corners in pixel space. A pixel `(x, y)` lies in the box when
/// `bl.x <= x < tr.x` and `bl.y <= y < tr.y`.
#[derive(Debug, PartialEq, Eq, Structural, Copy, Clone)]
pub struct BoundingBox {
    /// bottom left
    pub bl: Vec2i,
    /// top right
    pub tr: Vec2i,
}

impl BoundingBox {
    /// Whether the pixel `(x, y)` lies in the box.
    pub open spec fn contains(self, x: int, y: int) -> bool {
        self.bl.x <= x < self.tr.x && self.bl.y <= y < self.tr.y
    }

    /// The number of pixel columns, 0 for an empty box.
    pub open spec fn columns(self) -> int {
        max(self.tr.x - self.bl.x, 0)
    }

    /// The number of pixel rows, 0 for an empty box.
    pub open spec fn rows(self) -> int {
        max(self.tr.y - self.bl.y, 0)
    }
}

/// `v` moved into `0 ..= n - 1`; the upper limit wins where `n < 1`.
pub open spec fn clamp_coord(v: int, n: int) -> int {
    min(max(0, v), n - 1)
}

/// Nudges a point into the screen: each coordinate is raised to 0 and then
/// lowered to the last valid index of its axis.
pub fn clip_point(point: &Vec2i, screen_dims: &Vec2i) -> (clipped: Vec2i)
    requires
        screen_dims.x > i32::MIN,
        screen_dims.y > i32::MIN,
    ensures
        clipped.x == clamp_coord(point.x as int, screen_dims.x as int),
        clipped.y == clamp_coord(point.y as int, screen_dims.y as int),
{
    let x0: i32 = if point.x < 0 { 0 } else { point.x };
    let y0: i32 = if point.y < 0 { 0 } else { point.y };
    let x: i32 = if x0 < screen_dims.x - 1 { x0 } else { screen_dims.x - 1 };
    let y: i32 = if y0 < screen_dims.y - 1 { y0 } else { screen_dims.y - 1 };
    Vec2i::new(x, y)
}

/// On a screen that has pixels, a clamped coordinate is one of the screen's,
/// and a coordinate of the screen is left as it is.
pub proof fn lemma_clipped_on_screen(v: int, n: int)
    requires
        n >= 1,
    ensures
        0 <= clamp_coord(v, n) < n,
        0 <= v < n ==> clamp_coord(v, n) == v,
{
}

/// `m` is the least of `cap` and the values `vals`.
pub open spec fn is_least(m: int, cap: int, vals: Seq<int>) -> bool {
    &&& m <= cap
    &&& forall|i: int| 0 <= i < vals.len() ==> m <= #[trigger] vals[i]
    &&& (m == cap || exists|i: int| 0 <= i < vals.len() && #[trigger] vals[i] == m)
}

/// `m` is the greatest of `floor` and the values `vals`.
pub open spec fn is_greatest(m: int, floor: int, vals: Seq<int>) -> bool {
    &&& m >= floor
    &&& forall|i: int| 0 <= i < vals.len() ==> m >= #[trigger] vals[i]
    &&& (m == floor || exists|i: int| 0 <= i < vals.len() && #[trigger] vals[i] == m)
}

/// The x coordinates of a sequence of points.
pub open spec fn xs(points: Seq<Vec2i>) -> Seq<int> {
    Seq::new(points.len(), |i: int| points[i].x as int)
}

/// The y coordinates of a sequence of points.
pub open spec fn ys(points: Seq<Vec2i>) -> Seq<int> {
    Seq::new(points.len(), |i: int| points[i].y as int)
}

/// The screen-space bounding box of a polygon, padded by one pixel on each
/// side. The lower corner starts from the screen's extent and the upper corner
/// from the origin, so the box of no points at all is empty.
pub fn get_bounds(points: Vec<Vec2i>, screen_dims: &Vec2i) -> (bounds: BoundingBox)
    requires
        screen_dims.x > i32::MIN,
        screen_dims.y > i32::MIN,
        forall|i: int|
            0 <= i < points@.len() ==> i32::MIN < (#[trigger] points@[i]).x < i32::MAX && i32::MIN
                < points@[i].y < i32::MAX,
    ensures
        is_least(bounds.bl.x + 1, screen_dims.x as int, xs(points@)),
        is_least(bounds.bl.y + 1, screen_dims.y as int, ys(points@)),
        is_greatest(bounds.tr.x - 1, 0, xs(points@)),
        is_greatest(bounds.tr.y - 1, 0, ys(points@)),
{
    let mut x_min: i32 = screen_dims.x;
    let mut y_min: i32 = screen_dims.y;
    let mut x_max: i32 = 0;
    let mut y_max: i32 = 0;

    let mut k: usize = 0;
    while k < points.len()
        invariant
            k <= points@.len(),
            screen_dims.x > i32::MIN,
            screen_dims.y > i32::MIN,
            forall|i: int|
                0 <= i < points@.len() ==> i32::MIN < (#[trigger] points@[i]).x < i32::MAX
                    && i32::MIN < points@[i].y < i32::MAX,
            is_least(x_min as int, screen_dims.x as int, xs(points@).take(k as int)),
            is_least(y_min as int, screen_dims.y as int, ys(points@).take(k as int)),
            is_greatest(x_max as int, 0, xs(points@).take(k as int)),
            is_greatest(y_max as int, 0, ys(points@).take(k as int)),
            x_min > i32::MIN,
            y_min > i32::MIN,
            x_max < i32::MAX,
            y_max < i32::MAX,
        decreases points@.len() - k,
    {
        let p = points[k];
        let ghost before_x = xs(points@).take(k as int);
        let ghost before_y = ys(points@).take(k as int);
        let ghost after_x = xs(points@).take(k + 1);
        let ghost after_y = ys(points@).take(k + 1);
        proof {
            assert(after_x[k as int] == p.x);
            assert(after_y[k as int] == p.y);
            assert(forall|i: int| 0 <= i < k ==> after_x[i] == before_x[i]);
            assert(forall|i: int| 0 <= i < k ==> after_y[i] == before_y[i]);
        }
        if p.x < x_min {
            x_min = p.x;
        }
        if p.y < y_min {
            y_min = p.y;
        }
        if p.x > x_max {
            x_max = p.x;
        }
        if p.y > y_max {
            y_max = p.y;
        }
        k += 1;
    }
    proof {
        assert(xs(points@).take(k as int) =~= xs(points@));
        assert(ys(points@).take(k as int) =~= ys(points@));
    }

    BoundingBox { bl: Vec2i::new(x_min - 1, y_min - 1), tr: Vec2i::new(x_max + 1, y_max + 1) }
}

/// Half of `n`, rounded toward zero.
pub open spec fn half(n: int) -> int {
    if n >= 0 {
        n / 2
    } else {
        -((-n) / 2)
    }
}

/// The pixel that lies `offset` away from the screen centre, with the
/// offset's y counted upward while pixel rows count downward.
pub open spec fn pixel_of(offset: (int, int), screen_dims: Vec2i) -> (int, int) {
    (half(screen_dims.x as int) + offset.0, half(screen_dims.y as int) - offset.1)
}

/// The offset of a pixel from the screen centre, y counted upward.
pub open spec fn offset_of(pixel: (int, int), screen_dims: Vec2i) -> (int, int) {
    (pixel.0 - half(screen_dims.x as int), screen_dims.y - pixel.1 - half(screen_dims.y as int))
}

/// On a screen of even height the two mappings are inverse to each other:
/// an offset mapped to its pixel and back is the same offset, and a pixel
/// mapped to its offset and back is the same pixel.
pub proof fn lemma_pixel_offset_round_trip(v: (int, int), screen_dims: Vec2i)
    requires
        screen_dims.y % 2 == 0,
    ensures
        offset_of(pixel_of(v, screen_dims), screen_dims) == v,
        pixel_of(offset_of(v, screen_dims), screen_dims) == v,
{
}

/// On a screen of odd height a round trip moves an offset up by one row.
pub proof fn lemma_round_trip_odd_height(v: (int, int), screen_dims: Vec2i)
    requires
        screen_dims.y > 0,
        screen_dims.y % 2 == 1,
    ensures
        offset_of(pixel_of(v, screen_dims), screen_dims) == (v.0, v.1 + 1),
{
}

/// Whether `v` fits a coordinate of a point.
pub open spec fn fits_coord(v: int) -> bool {
    i32::MIN <= v <= i32::MAX
}

/// Maps an offset from the screen centre (y up) to a pixel (y down, origin
/// top left); `None` where the pixel's coordinates do not fit a point.
pub fn try_offset_to_pixel(offset: &Vec2i, screen_dims: &Vec2i) -> (pixel: Option<Vec2i>)
    ensures
        pixel is Some <==> fits_coord(
            pixel_of((offset.x as int, offset.y as int), *screen_dims).0,
        ) && fits_coord(pixel_of((offset.x as int, offset.y as int), *screen_dims).1),
        pixel matches Some(p) ==> (p.x as int, p.y as int) == pixel_of(
            (offset.x as int, offset.y as int),
            *screen_dims,
        ),
{
    let x: i64 = (screen_dims.x / 2) as i64 + offset.x as i64;
    let y: i64 = (screen_dims.y / 2) as i64 - offset.y as i64;
    if i32::MIN as i64 <= x && x <= i32::MAX as i64 && i32::MIN as i64 <= y && y <= i32::MAX as i64 {
        Some(Vec2i::new(x as i32, y as i32))
    } else {
        None
    }
}

/// Maps an offset from the screen centre to a pixel whose coordinates fit.
pub fn offset_to_pixel(offset: &Vec2i, screen_dims: &Vec2i) -> (pixel: Vec2i)
    requires
        fits_coord(pixel_of((offset.x as int, offset.y as int), *screen_dims).0),
        fits_coord(pixel_of((offset.x as int, offset.y as int), *screen_dims).1),
    ensures
        (pixel.x as int, pixel.y as int) == pixel_of(
            (offset.x as int, offset.y as int),
            *screen_dims,
        ),
{
    let x: i64 = (screen_dims.x / 2) as i64 + offset.x as i64;
    let y: i64 = (screen_dims.y / 2) as i64 - offset.y as i64;
    Vec2i::new(x as i32, y as i32)
}

/// Maps a pixel to its offset from the screen centre, the inverse direction
/// of `try_offset_to_pixel`; `None` where the offset's coordinates do not fit
/// a point.
pub fn try_pixel_to_offset(pixel: &Vec2i, screen_dims: &Vec2i) -> (offset: Option<Vec2i>)
    ensures
        offset is Some <==> fits_coord(
            offset_of((pixel.x as int, pixel.y as int), *screen_dims).0,
        ) && fits_coord(offset_of((pixel.x as int, pixel.y as int), *screen_dims).1),
        offset matches Some(o) ==> (o.x as int, o.y as int) == offset_of(
            (pixel.x as int, pixel.y as int),
            *screen_dims,
        ),
{
    let x: i64 = pixel.x as i64 - (screen_dims.x / 2) as i64;
    let y: i64 = screen_dims.y as i64 - pixel.y as i64 - (screen_dims.y / 2) as i64;
    if i32::MIN as i64 <= x && x <= i32::MAX as i64 && i32::MIN as i64 <= y && y <= i32::MAX as i64 {
        Some(Vec2i::new(x as i32, y as i32))
    } else {
        None
    }
}

/// Maps a pixel to its offset from the screen centre, where the offset's
/// coordinates fit.
pub fn pixel_to_offset(pixel: &Vec2i, screen_dims: &Vec2i) -> (offset: Vec2i)
    requires
        fits_coord(offset_of((pixel.x as int, pixel.y as int), *screen_dims).0),
        fits_coord(offset_of((pixel.x as int, pixel.y as int), *screen_dims).1),
    ensures
        (offset.x as int, offset.y as int) == offset_of(
            (pixel.x as int, pixel.y as int),
            *screen_dims,
        ),
{
    let x: i64 = pixel.x as i64 - (screen_dims.x / 2) as i64;
    let y: i64 = screen_dims.y as i64 - pixel.y as i64 - (screen_dims.y / 2) as i64;
    Vec2i::new(x as i32, y as i32)
}

} // verus!
