//! The fragment stage of triangle drawing: tiles are sorted into fast and
//! slow ones, and each pixel of a tile is offered its fragment, which wins
//! the pixel when it is covered and closer than what the pixel holds.

use vstd::prelude::*;
use crate::color::{Color, LightRamp};
use crate::coverage::{
    covered_corners,
    covers,
    is_point_inside_triangle,
    triangle_box_corner_overlaps,
    Corners,
    Edges,
    Weights,
};
use crate::geometry::BoundingBox;
use crate::screen::{get_depth, lemma_offset_in_range, set_color, set_depth, Frame, Screen};
use crate::single::{abs_bits, less_than, lt, magnitude};
use crate::texture::Texture;
use crate::tiles::{TileCache, TILE_SIZE};

verus! {

/// What the triangle contributes at one pixel: the pixel's barycentric
/// weights, its depth, and the texel that its texture coordinates select.
#[derive(Debug, PartialEq, Eq, Structural, Copy, Clone)]
pub struct Fragment {
    pub weights: Weights,
    pub depth: u32,
    pub row: usize,
    pub col: usize,
}

impl Frame {
    /// The colour and the depth of pixel `(x, y)`.
    pub open spec fn state(self, x: int, y: int) -> (Color, u32) {
        (self.pixel(x, y), self.depth(x, y))
    }

    /// The frame after pixel `(x, y)` was offered a colour at a depth: the
    /// offer is taken only where it is closer than the pixel's depth.
    pub open spec fn offer(self, x: int, y: int, depth: u32, color: Color) -> Frame {
        if lt(depth, self.depth(x, y)) {
            self.with_pixel(x, y, color).with_depth(x, y, depth)
        } else {
            self
        }
    }

    /// An offer changes at most the pixel that it is made to.
    pub proof fn lemma_offer(self, x: int, y: int, depth: u32, color: Color, px: int, py: int)
        requires
            self.wf(),
            self.on_screen(x, y),
            self.on_screen(px, py),
        ensures
            self.offer(x, y, depth, color).wf(),
            self.offer(x, y, depth, color).width == self.width,
            self.offer(x, y, depth, color).height == self.height,
            self.offer(x, y, depth, color).state(px, py) == if px == x && py == y && lt(
                depth,
                self.depth(x, y),
            ) {
                (color, depth)
            } else {
                self.state(px, py)
            },
    {
        self.lemma_offsets_differ(x, y, px, py);
        self.lemma_offsets_differ(px, py, x, y);
    }
}

/// The place of the fragment of pixel `(x, y)` among the fragments of a
/// box: row by row from the box's lower corner.
pub open spec fn fragment_place(bounds: BoundingBox, x: int, y: int) -> int {
    (y - bounds.bl.y) * bounds.columns() + (x - bounds.bl.x)
}

/// The number of fragments that a box takes, one per pixel; `None` where
/// that is more than the machine can address.
pub fn fragment_count(bounds: &BoundingBox) -> (count: Option<usize>)
    ensures
        count is Some <==> bounds.columns() * bounds.rows() <= usize::MAX,
        count matches Some(n) ==> n == bounds.columns() * bounds.rows(),
{
    let columns: u64 = if bounds.bl.x < bounds.tr.x {
        (bounds.tr.x as i64 - bounds.bl.x as i64) as u64
    } else {
        0
    };
    let rows: u64 = if bounds.bl.y < bounds.tr.y {
        (bounds.tr.y as i64 - bounds.bl.y as i64) as u64
    } else {
        0
    };
    assert(columns * rows <= 0xffff_ffff * 0xffff_ffff) by (nonlinear_arith)
        requires
            columns <= 0xffff_ffff,
            rows <= 0xffff_ffff,
    ;
    let count: u64 = columns * rows;
    if count > usize::MAX as u64 {
        None
    } else {
        Some(count as usize)
    }
}

/// The place of the fragment of a pixel of the box.
pub fn fragment_index(bounds: &BoundingBox, x: i32, y: i32) -> (place: usize)
    requires
        bounds.contains(x as int, y as int),
        bounds.columns() * bounds.rows() <= usize::MAX,
    ensures
        place == fragment_place(*bounds, x as int, y as int),
        place < bounds.columns() * bounds.rows(),
{
    let columns: usize = (bounds.tr.x as i64 - bounds.bl.x as i64) as usize;
    let dx: usize = (x as i64 - bounds.bl.x as i64) as usize;
    let dy: usize = (y as i64 - bounds.bl.y as i64) as usize;
    proof {
        lemma_offset_in_range(dx as int, dy as int, bounds.columns(), bounds.rows());
    }
    dy * columns + dx
}

/// Everything that one triangle draw is given besides the screen.
pub struct Patch {
    /// The padded bounding box of the triangle, in pixels.
    pub bounds: BoundingBox,
    pub edges: Edges,
    /// The corner weights of each tile of `bounds`, in the order of the walk.
    pub corners: Seq<Corners>,
    /// One fragment per pixel of `bounds`, row by row.
    pub fragments: Seq<Fragment>,
    pub texture: Texture,
    pub ramp: LightRamp,
}

impl Patch {
    /// The fragment of pixel `(x, y)` of the box.
    pub open spec fn fragment(self, x: int, y: int) -> Fragment {
        self.fragments[fragment_place(self.bounds, x, y)]
    }

    /// The lit texel that the fragment of `(x, y)` selects.
    pub open spec fn shaded(self, x: int, y: int) -> Color {
        self.texture.texel(self.fragment(x, y).row as int, self.fragment(x, y).col as int).lit(
            self.ramp,
        )
    }

    /// A tile is fast when the triangle covers all four of its corners.
    pub open spec fn tile_is_fast(self, k: int) -> bool {
        covered_corners(self.edges, self.corners[k]) == 4
    }

    /// For each tile, whether it is fast.
    pub open spec fn fast_flags(self) -> Seq<bool> {
        Seq::new(self.corners.len(), |k: int| self.tile_is_fast(k))
    }

    /// The fast tiles, in the order of the walk.
    pub open spec fn fast_tiles(self) -> Seq<BoundingBox> {
        pick(
            self.bounds.tile_seq(TILE_SIZE as int),
            select(self.fast_flags(), true, self.corners.len() as int),
        )
    }

    /// The slow tiles, in the order of the walk.
    pub open spec fn slow_tiles(self) -> Seq<BoundingBox> {
        pick(
            self.bounds.tile_seq(TILE_SIZE as int),
            select(self.fast_flags(), false, self.corners.len() as int),
        )
    }

    /// Whether the pixel's fragment is covered: in a fast tile every pixel
    /// is taken as covered, in a slow tile a pixel is tested by its weights.
    pub open spec fn covered(self, fast: bool, x: int, y: int) -> bool {
        fast || covers(self.edges, self.fragment(x, y).weights)
    }

    /// Whether the draw offers pixel `(x, y)` its fragment.
    pub open spec fn offers(self, x: int, y: int) -> bool {
        self.bounds.contains(x, y) && self.covered(
            self.tile_is_fast(self.bounds.tile_index(TILE_SIZE as int, x, y)),
            x,
            y,
        )
    }

    /// What pixel `(x, y)` holds after it held `prev`, if `on` says that
    /// its fragment is offered: the fragment wins where it is closer.
    pub open spec fn settle(self, prev: (Color, u32), on: bool, x: int, y: int) -> (Color, u32) {
        if on && lt(self.fragment(x, y).depth, prev.1) {
            (self.shaded(x, y), self.fragment(x, y).depth)
        } else {
            prev
        }
    }

    /// The frame after the draw.
    pub open spec fn apply(self, frame: Frame) -> Frame {
        Frame {
            width: frame.width,
            height: frame.height,
            pixels: Seq::new(
                frame.pixels.len(),
                |i: int|
                    self.settle(
                        frame.state(i % frame.width, i / frame.width),
                        self.offers(i % frame.width, i / frame.width),
                        i % frame.width,
                        i / frame.width,
                    ).0,
            ),
            depths: Seq::new(
                frame.depths.len(),
                |i: int|
                    self.settle(
                        frame.state(i % frame.width, i / frame.width),
                        self.offers(i % frame.width, i / frame.width),
                        i % frame.width,
                        i / frame.width,
                    ).1,
            ),
        }
    }

    /// What `apply` leaves in pixel `(x, y)` of the frame.
    pub proof fn lemma_apply_state(self, frame: Frame, x: int, y: int)
        requires
            frame.wf(),
            frame.on_screen(x, y),
        ensures
            self.apply(frame).wf(),
            self.apply(frame).state(x, y) == self.settle(
                frame.state(x, y),
                self.offers(x, y),
                x,
                y,
            ),
    {
        let i = frame.offset(x, y);
        frame.lemma_offsets_differ(x, y, x, y);
        frame.lemma_offset_of_index(i);
        frame.lemma_offsets_differ(i % frame.width, i / frame.width, x, y);
    }

    /// Drawing the same triangle a second time changes nothing: the second
    /// draw's fragments are as deep as what the first draw left, and an equal
    /// depth is not closer.
    pub proof fn lemma_draw_twice(self, frame: Frame)
        requires
            frame.wf(),
        ensures
            self.apply(self.apply(frame)) == self.apply(frame),
    {
        let once = self.apply(frame);
        let twice = self.apply(once);
        assert forall|i: int| 0 <= i < once.pixels.len() implies twice.pixels[i] == once.pixels[i]
            && twice.depths[i] == once.depths[i] by {
            frame.lemma_offset_of_index(i);
            let x = i % frame.width;
            let y = i / frame.width;
            self.lemma_apply_state(frame, x, y);
            self.lemma_apply_state(once, x, y);
            assert(once.offset(x, y) == i);
        }
        assert(twice.pixels =~= once.pixels);
        assert(twice.depths =~= once.depths);
    }

    /// The fast path is exact. Two draws that differ only in how the tiles
    /// are sorted give the same frame, provided that every pixel of a tile
    /// that either draw takes as fast passes the coverage test.
    pub proof fn lemma_fast_matches_slow(self, other: Patch, frame: Frame)
        requires
            frame.wf(),
            other.bounds == self.bounds,
            other.edges == self.edges,
            other.fragments == self.fragments,
            other.texture == self.texture,
            other.ramp == self.ramp,
            forall|x: int, y: int|
                self.bounds.contains(x, y) && (self.tile_is_fast(
                    self.bounds.tile_index(TILE_SIZE as int, x, y),
                ) || other.tile_is_fast(self.bounds.tile_index(TILE_SIZE as int, x, y)))
                    ==> covers(self.edges, (#[trigger] self.fragment(x, y)).weights),
        ensures
            self.apply(frame) == other.apply(frame),
    {
        let mine = self.apply(frame);
        let theirs = other.apply(frame);
        assert forall|i: int| 0 <= i < frame.pixels.len() implies mine.pixels[i]
            == theirs.pixels[i] && mine.depths[i] == theirs.depths[i] by {
            let x = i % frame.width;
            let y = i / frame.width;
            assert(other.fragment(x, y) == self.fragment(x, y));
            assert(other.shaded(x, y) == self.shaded(x, y));
            assert(self.offers(x, y) == other.offers(x, y));
        }
        assert(mine.pixels =~= theirs.pixels);
        assert(mine.depths =~= theirs.depths);
    }

    /// A draw never moves a pixel farther away: afterwards each pixel holds
    /// what it held, or a colour at a depth that is closer.
    pub proof fn lemma_draw_never_farther(self, frame: Frame, x: int, y: int)
        requires
            frame.wf(),
            frame.on_screen(x, y),
        ensures
            self.apply(frame).state(x, y) == frame.state(x, y) || lt(
                self.apply(frame).depth(x, y),
                frame.depth(x, y),
            ),
    {
        self.lemma_apply_state(frame, x, y);
    }

    /// A draw leaves every pixel outside the bounding box as it was.
    pub proof fn lemma_outside_untouched(self, frame: Frame, x: int, y: int)
        requires
            frame.wf(),
            frame.on_screen(x, y),
            !self.bounds.contains(x, y),
        ensures
            self.apply(frame).state(x, y) == frame.state(x, y),
    {
        self.lemma_apply_state(frame, x, y);
    }
}

/// The indices below `n` at which `flags` is `want`, in rising order.
pub open spec fn select(flags: Seq<bool>, want: bool, n: int) -> Seq<int>
    decreases n,
{
    if n <= 0 {
        Seq::empty()
    } else if flags[n - 1] == want {
        select(flags, want, n - 1).push(n - 1)
    } else {
        select(flags, want, n - 1)
    }
}

/// The tiles at the given indices.
pub open spec fn pick(tiles: Seq<BoundingBox>, indices: Seq<int>) -> Seq<BoundingBox> {
    Seq::new(indices.len(), |i: int| tiles[indices[i]])
}

/// Whether `k` is among the first `j` of `indices`.
pub open spec fn listed(indices: Seq<int>, j: int, k: int) -> bool {
    exists|i: int| 0 <= i < j && #[trigger] indices[i] == k
}

/// `select` holds exactly the wanted indices, each once and in rising order.
pub proof fn lemma_select(flags: Seq<bool>, want: bool, n: int)
    requires
        0 <= n <= flags.len(),
    ensures
        forall|i: int|
            0 <= i < select(flags, want, n).len() ==> 0 <= #[trigger] select(flags, want, n)[i] < n
                && flags[select(flags, want, n)[i]] == want,
        forall|i: int, j: int|
            0 <= i < j < select(flags, want, n).len() ==> #[trigger] select(flags, want, n)[i]
                < #[trigger] select(flags, want, n)[j],
        forall|k: int|
            0 <= k < n ==> (flags[k] == want <==> listed(
                select(flags, want, n),
                select(flags, want, n).len() as int,
                k,
            )),
    decreases n,
{
    if n > 0 {
        lemma_select(flags, want, n - 1);
        let before = select(flags, want, n - 1);
        let now = select(flags, want, n);
        assert forall|k: int| 0 <= k < n implies (flags[k] == want <==> listed(
            now,
            now.len() as int,
            k,
        )) by {
            if k < n - 1 {
                if flags[k] == want {
                    assert(listed(before, before.len() as int, k));
                    let i = choose|i: int| 0 <= i < before.len() && before[i] == k;
                    assert(now[i] == k);
                }
                if listed(now, now.len() as int, k) {
                    let i = choose|i: int| 0 <= i < now.len() && now[i] == k;
                    assert(before[i] == k);
                    assert(listed(before, before.len() as int, k));
                }
            } else {
                if flags[k] == want {
                    assert(now[now.len() - 1] == k);
                }
                if listed(now, now.len() as int, k) {
                    let i = choose|i: int| 0 <= i < now.len() && now[i] == k;
                    if i < before.len() {
                        assert(before[i] < n - 1);
                    }
                }
            }
        }
    }
}

/// Offers pixel `(x, y)` its fragment: the depth test, and for a fragment
/// that is closer the texel, lit by the ramp, and the new depth.
pub fn shade(
    screen: &mut Screen,
    x: usize,
    y: usize,
    fragment: &Fragment,
    texture: &Texture,
    ramp: &LightRamp,
)
    requires
        old(screen).wf(),
        x < old(screen).width,
        y < old(screen).height,
        texture.wf(),
    ensures
        final(screen).wf(),
        final(screen)@ == old(screen)@.offer(
            x as int,
            y as int,
            fragment.depth,
            texture.texel(fragment.row as int, fragment.col as int).lit(*ramp),
        ),
{
    let curr_depth = get_depth(screen, x, y);
    if less_than(fragment.depth, curr_depth) {
        let albedo = texture.sample(fragment.row, fragment.col);
        let shaded_color = albedo.shaded(ramp);
        set_color(screen, x, y, &shaded_color);
        set_depth(screen, x, y, fragment.depth);
    }
}

/// Offers each pixel of one tile its fragment, in a slow tile only where the
/// pixel is covered. Pixels of the tile that lie off the screen are passed
/// over.
fn draw_tile(
    screen: &mut Screen,
    tile: &BoundingBox,
    fast: bool,
    bounds: &BoundingBox,
    edges: &Edges,
    fragments: &Vec<Fragment>,
    texture: &Texture,
    ramp: &LightRamp,
    Ghost(patch): Ghost<Patch>,
)
    requires
        old(screen).wf(),
        texture.wf(),
        patch.bounds == *bounds,
        patch.edges == *edges,
        patch.fragments == fragments@,
        patch.texture == *texture,
        patch.ramp == *ramp,
        fragments@.len() == bounds.columns() * bounds.rows(),
        bounds.bl.x <= tile.bl.x,
        tile.tr.x <= bounds.tr.x,
        bounds.bl.y <= tile.bl.y,
        tile.tr.y <= bounds.tr.y,
    ensures
        final(screen).wf(),
        final(screen)@.width == old(screen)@.width,
        final(screen)@.height == old(screen)@.height,
        forall|px: int, py: int|
            old(screen)@.on_screen(px, py) ==> #[trigger] final(screen)@.state(px, py)
                == patch.settle(
                old(screen)@.state(px, py),
                tile.contains(px, py) && patch.covered(fast, px, py),
                px,
                py,
            ),
{
    let ghost start = screen@;
    let mut y: i32 = tile.bl.y;
    while y < tile.tr.y
        invariant
            screen.wf(),
            start.wf(),
            screen@.width == start.width,
            screen@.height == start.height,
            texture.wf(),
            patch.bounds == *bounds,
            patch.edges == *edges,
            patch.fragments == fragments@,
            patch.texture == *texture,
            patch.ramp == *ramp,
            fragments@.len() == bounds.columns() * bounds.rows(),
            bounds.bl.x <= tile.bl.x,
            tile.tr.x <= bounds.tr.x,
            bounds.bl.y <= tile.bl.y,
            tile.tr.y <= bounds.tr.y,
            tile.bl.y <= y,
            forall|px: int, py: int|
                start.on_screen(px, py) ==> #[trigger] screen@.state(px, py) == patch.settle(
                    start.state(px, py),
                    tile.contains(px, py) && py < y && patch.covered(fast, px, py),
                    px,
                    py,
                ),
        decreases tile.tr.y - y,
    {
        let mut x: i32 = tile.bl.x;
        while x < tile.tr.x
            invariant
                screen.wf(),
                start.wf(),
                screen@.width == start.width,
                screen@.height == start.height,
                texture.wf(),
                patch.bounds == *bounds,
                patch.edges == *edges,
                patch.fragments == fragments@,
                patch.texture == *texture,
                patch.ramp == *ramp,
                fragments@.len() == bounds.columns() * bounds.rows(),
                bounds.bl.x <= tile.bl.x,
                tile.tr.x <= bounds.tr.x,
                bounds.bl.y <= tile.bl.y,
                tile.tr.y <= bounds.tr.y,
                    tile.bl.y <= y < tile.tr.y,
                tile.bl.x <= x,
                forall|px: int, py: int|
                    start.on_screen(px, py) ==> #[trigger] screen@.state(px, py) == patch.settle(
                        start.state(px, py),
                        tile.contains(px, py) && (py < y || (py == y && px < x)) && patch.covered(
                            fast,
                            px,
                            py,
                        ),
                        px,
                        py,
                    ),
            decreases tile.tr.x - x,
        {
            let ghost before = screen@;
            if 0 <= x && 0 <= y && (x as usize) < screen.width && (y as usize) < screen.height {
                proof {
                    assert(fragments.len() == fragments@.len());
                }
                let fragment = &fragments[fragment_index(bounds, x, y)];
                if fast || is_point_inside_triangle(edges, &fragment.weights) {
                    shade(screen, x as usize, y as usize, fragment, texture, ramp);
                }
                proof {
                    assert forall|px: int, py: int| start.on_screen(px, py) implies #[trigger] screen@.state(
                        px,
                        py,
                    ) == patch.settle(
                        start.state(px, py),
                        tile.contains(px, py) && (py < y || (py == y && px < x + 1))
                            && patch.covered(fast, px, py),
                        px,
                        py,
                    ) by {
                        before.lemma_offer(
                            x as int,
                            y as int,
                            fragment.depth,
                            patch.shaded(x as int, y as int),
                            px,
                            py,
                        );
                        assert(before.state(px, py) == patch.settle(
                            start.state(px, py),
                            tile.contains(px, py) && (py < y || (py == y && px < x))
                                && patch.covered(fast, px, py),
                            px,
                            py,
                        ));
                    }
                }
            }
            x += 1;
        }
        y += 1;
    }
}

/// Draws the tiles of one list, all of them fast or all of them slow.
fn draw_tiles(
    screen: &mut Screen,
    list: &Vec<BoundingBox>,
    fast: bool,
    bounds: &BoundingBox,
    edges: &Edges,
    fragments: &Vec<Fragment>,
    texture: &Texture,
    ramp: &LightRamp,
    Ghost(patch): Ghost<Patch>,
    Ghost(indices): Ghost<Seq<int>>,
)
    requires
        old(screen).wf(),
        texture.wf(),
        patch.bounds == *bounds,
        patch.edges == *edges,
        patch.fragments == fragments@,
        patch.texture == *texture,
        patch.ramp == *ramp,
        fragments@.len() == bounds.columns() * bounds.rows(),
        list@ == pick(bounds.tile_seq(TILE_SIZE as int), indices),
        forall|i: int|
            0 <= i < indices.len() ==> 0 <= #[trigger] indices[i] < bounds.tile_seq(
                TILE_SIZE as int,
            ).len(),
        forall|i: int, j: int|
            0 <= i < j < indices.len() ==> #[trigger] indices[i] < #[trigger] indices[j],
    ensures
        final(screen).wf(),
        final(screen)@.width == old(screen)@.width,
        final(screen)@.height == old(screen)@.height,
        forall|px: int, py: int|
            old(screen)@.on_screen(px, py) ==> #[trigger] final(screen)@.state(px, py)
                == patch.settle(
                old(screen)@.state(px, py),
                bounds.contains(px, py) && listed(
                    indices,
                    indices.len() as int,
                    bounds.tile_index(TILE_SIZE as int, px, py),
                ) && patch.covered(fast, px, py),
                px,
                py,
            ),
{
    let ghost start = screen@;
    let ghost tiles = bounds.tile_seq(TILE_SIZE as int);
    let ghost step = TILE_SIZE as int;
    let mut j: usize = 0;
    while j < list.len()
        invariant
            screen.wf(),
            start.wf(),
            screen@.width == start.width,
            screen@.height == start.height,
            texture.wf(),
            patch.bounds == *bounds,
            patch.edges == *edges,
            patch.fragments == fragments@,
            patch.texture == *texture,
            patch.ramp == *ramp,
            fragments@.len() == bounds.columns() * bounds.rows(),
            tiles == bounds.tile_seq(TILE_SIZE as int),
            step == TILE_SIZE as int,
            list@ == pick(tiles, indices),
            forall|i: int| 0 <= i < indices.len() ==> 0 <= #[trigger] indices[i] < tiles.len(),
            forall|i: int, k: int|
                0 <= i < k < indices.len() ==> #[trigger] indices[i] < #[trigger] indices[k],
            j <= list@.len(),
            forall|px: int, py: int|
                start.on_screen(px, py) ==> #[trigger] screen@.state(px, py) == patch.settle(
                    start.state(px, py),
                    bounds.contains(px, py) && listed(
                        indices,
                        j as int,
                        bounds.tile_index(step, px, py),
                    ) && patch.covered(fast, px, py),
                    px,
                    py,
                ),
        decreases list@.len() - j,
    {
        let tile = &list[j];
        let ghost kj = indices[j as int];
        proof {
            bounds.lemma_tile_place(step, kj);
            bounds.lemma_tile_shape(step, kj % bounds.tile_columns(step), kj / bounds.tile_columns(step));
            assert(*tile == tiles[kj]);
        }
        draw_tile(screen, tile, fast, bounds, edges, fragments, texture, ramp, Ghost(patch));
        proof {
            assert forall|px: int, py: int| start.on_screen(px, py) implies #[trigger] screen@.state(
                px,
                py,
            ) == patch.settle(
                start.state(px, py),
                bounds.contains(px, py) && listed(
                    indices,
                    j as int + 1,
                    bounds.tile_index(step, px, py),
                ) && patch.covered(fast, px, py),
                px,
                py,
            ) by {
                let k = bounds.tile_index(step, px, py);
                if bounds.contains(px, py) {
                    bounds.lemma_tiles_partition(step, px, py);
                    if tile.contains(px, py) {
                        assert(!listed(indices, j as int, k));
                        assert(listed(indices, j as int + 1, k));
                    } else {
                        if listed(indices, j as int + 1, k) {
                            let i = choose|i: int| 0 <= i < j as int + 1 && indices[i] == k;
                            assert(i < j);
                            assert(listed(indices, j as int, k));
                        }
                        if listed(indices, j as int, k) {
                            let i = choose|i: int| 0 <= i < j as int && indices[i] == k;
                            assert(listed(indices, j as int + 1, k));
                        }
                    }
                }
            }
        }
        j += 1;
    }
}

/// Draws the fragments of one triangle.
///
/// The tiles of `bounds` are sorted into `tile_cache`: a tile with all four
/// corners inside the triangle is fast, any other is slow. Then every pixel of
/// every tile that lies on the screen is offered its fragment: in a fast tile
/// without a test, in a slow tile if its weights pass the coverage test. A
/// fragment that is offered and closer than the pixel's depth replaces the
/// pixel's colour, by its lit texel, and the pixel's depth.
pub fn triangle_textured(
    screen: &mut Screen,
    tile_cache: &mut TileCache,
    bounds: &BoundingBox,
    edges: &Edges,
    corners: &Vec<Corners>,
    fragments: &Vec<Fragment>,
    texture: &Texture,
    ramp: &LightRamp,
)
    requires
        old(screen).wf(),
        texture.wf(),
        corners@.len() == bounds.tile_seq(TILE_SIZE as int).len(),
        fragments@.len() == bounds.columns() * bounds.rows(),
    ensures
        final(screen).wf(),
        final(screen)@ == (Patch {
            bounds: *bounds,
            edges: *edges,
            corners: corners@,
            fragments: fragments@,
            texture: *texture,
            ramp: *ramp,
        }).apply(old(screen)@),
        final(tile_cache).fast_tiles@ == (Patch {
            bounds: *bounds,
            edges: *edges,
            corners: corners@,
            fragments: fragments@,
            texture: *texture,
            ramp: *ramp,
        }).fast_tiles(),
        final(tile_cache).slow_tiles@ == (Patch {
            bounds: *bounds,
            edges: *edges,
            corners: corners@,
            fragments: fragments@,
            texture: *texture,
            ramp: *ramp,
        }).slow_tiles(),
{
    let ghost patch = Patch {
        bounds: *bounds,
        edges: *edges,
        corners: corners@,
        fragments: fragments@,
        texture: *texture,
        ramp: *ramp,
    };
    let ghost start = screen@;
    let ghost step = TILE_SIZE as int;
    let ghost tiles = bounds.tile_seq(step);
    let ghost flags = patch.fast_flags();
    let ghost n = tiles.len() as int;

    tile_cache.fast_tiles.clear();
    tile_cache.slow_tiles.clear();

    let mut it = bounds.iter(TILE_SIZE);
    let mut k: usize = 0;
    loop
        invariant_except_break
            it.wf(),
            it.bounds == *bounds,
            it.step == TILE_SIZE,
            it.position() == k,
            k <= n,
            tile_cache.fast_tiles@ == pick(tiles, select(flags, true, k as int)),
            tile_cache.slow_tiles@ == pick(tiles, select(flags, false, k as int)),
        invariant
            n == tiles.len(),
            step == TILE_SIZE as int,
            tiles == bounds.tile_seq(step),
            flags == patch.fast_flags(),
            corners.len() == n,
            patch.corners == corners@,
            patch.edges == *edges,
        ensures
            tile_cache.fast_tiles@ == pick(tiles, select(flags, true, n)),
            tile_cache.slow_tiles@ == pick(tiles, select(flags, false, n)),
        decreases n - k,
    {
        match it.next() {
            Some(tile) => {
                let count = triangle_box_corner_overlaps(edges, &corners[k]);
                if count == 4 {
                    tile_cache.fast_tiles.push(tile);
                } else {
                    tile_cache.slow_tiles.push(tile);
                }
                k += 1;
                proof {
                    assert(tile_cache.fast_tiles@ =~= pick(tiles, select(flags, true, k as int)));
                    assert(tile_cache.slow_tiles@ =~= pick(tiles, select(flags, false, k as int)));
                }
            },
            None => {
                break ;
            },
        }
    }

    let ghost fast_indices = select(flags, true, n);
    let ghost slow_indices = select(flags, false, n);
    proof {
        lemma_select(flags, true, n);
        lemma_select(flags, false, n);
    }
    draw_tiles(
        screen,
        &tile_cache.fast_tiles,
        true,
        bounds,
        edges,
        fragments,
        texture,
        ramp,
        Ghost(patch),
        Ghost(fast_indices),
    );
    draw_tiles(
        screen,
        &tile_cache.slow_tiles,
        false,
        bounds,
        edges,
        fragments,
        texture,
        ramp,
        Ghost(patch),
        Ghost(slow_indices),
    );
    proof {
        let after = screen@;
        let target = patch.apply(start);
        assert forall|i: int| 0 <= i < start.pixels.len() implies after.pixels[i]
            == target.pixels[i] && after.depths[i] == target.depths[i] by {
            start.lemma_offset_of_index(i);
            let px = i % start.width;
            let py = i / start.width;
            if bounds.contains(px, py) {
                bounds.lemma_tiles_partition(step, px, py);
                let kk = bounds.tile_index(step, px, py);
                assert(flags[kk] == patch.tile_is_fast(kk));
                assert(flags[kk] == true <==> listed(
                    fast_indices,
                    fast_indices.len() as int,
                    kk,
                ));
                assert(flags[kk] == false <==> listed(
                    slow_indices,
                    slow_indices.len() as int,
                    kk,
                ));
            }
            assert(after.state(px, py) == patch.settle(
                start.state(px, py),
                patch.offers(px, py),
                px,
                py,
            ));
        }
        assert(after.pixels =~= target.pixels);
        assert(after.depths =~= target.depths);
    }
}

/// Whether a triangle shows its front. `facing` is the dot product of the
/// face normal with the vector from the camera to the triangle, as a bit
/// pattern; the front shows only where that is negative.
pub open spec fn front_facing(facing: u32) -> bool {
    lt(facing, 0)
}

/// Whether a triangle is drawn at all: it shows its front, and its signed
/// area on the screen, `area`, is not zero.
pub open spec fn visible(facing: u32, area: u32) -> bool {
    front_facing(facing) && magnitude(area) != 0
}

/// Tests whether a triangle shows its front.
pub fn faces_camera(facing: u32) -> (front: bool)
    ensures
        front == front_facing(facing),
{
    less_than(facing, 0)
}

/// Tests whether a triangle is drawn at all.
pub fn is_visible(facing: u32, area: u32) -> (drawn: bool)
    ensures
        drawn == visible(facing, area),
{
    faces_camera(facing) && abs_bits(area) != 0
}

/// Draws one triangle, unless it faces away from the camera or is
/// degenerate: then neither the screen nor the tile cache is touched.
pub fn triangle(
    screen: &mut Screen,
    tile_cache: &mut TileCache,
    facing: u32,
    area: u32,
    bounds: &BoundingBox,
    edges: &Edges,
    corners: &Vec<Corners>,
    fragments: &Vec<Fragment>,
    texture: &Texture,
    ramp: &LightRamp,
)
    requires
        old(screen).wf(),
        texture.wf(),
        visible(facing, area) ==> corners@.len() == bounds.tile_seq(TILE_SIZE as int).len(),
        visible(facing, area) ==> fragments@.len() == bounds.columns() * bounds.rows(),
    ensures
        final(screen).wf(),
        !visible(facing, area) ==> {
            &&& final(screen).color@ == old(screen).color@
            &&& final(screen).depth@ == old(screen).depth@
            &&& final(tile_cache).fast_tiles@ == old(tile_cache).fast_tiles@
            &&& final(tile_cache).slow_tiles@ == old(tile_cache).slow_tiles@
        },
        visible(facing, area) ==> {
            let patch = Patch {
                bounds: *bounds,
                edges: *edges,
                corners: corners@,
                fragments: fragments@,
                texture: *texture,
                ramp: *ramp,
            };
            &&& final(screen)@ == patch.apply(old(screen)@)
            &&& final(tile_cache).fast_tiles@ == patch.fast_tiles()
            &&& final(tile_cache).slow_tiles@ == patch.slow_tiles()
        },
{
    if is_visible(facing, area) {
        triangle_textured(screen, tile_cache, bounds, edges, corners, fragments, texture, ramp);
    }
}

} // verus!
