//! Partition of a bounding box into square tiles, walked row by row, and the
//! scratch lists that a triangle draw sorts its tiles into.

use vstd::prelude::*;
use vstd::math::min;
use vstd::arithmetic::div_mod::{
    lemma_fundamental_div_mod,
    lemma_fundamental_div_mod_converse_div,
    lemma_fundamental_div_mod_converse_mod,
    lemma_mod_bound,
};
use crate::geometry::{BoundingBox, Vec2i};

verus! {

/// The edge length of the tiles that triangle drawing uses.
pub const TILE_SIZE: i32 = 8;

/// `n / d` rounded up, for `n >= 0` and `d > 0`.
pub open spec fn ceil_div(n: int, d: int) -> int {
    (n + d - 1) / d
}

/// A number that lies between `q * d` and the next multiple has quotient `q`.
pub proof fn lemma_quotient(x: int, d: int, q: int)
    requires
        d > 0,
        q * d <= x < q * d + d,
    ensures
        x / d == q,
        x % d == x - q * d,
{
    lemma_fundamental_div_mod_converse_div(x, d, q, x - q * d);
    lemma_fundamental_div_mod_converse_mod(x, d, q, x - q * d);
}

/// `ceil_div(n, d)` is the least count of steps of `d` that reaches `n`.
pub proof fn lemma_ceil_div(n: int, d: int)
    requires
        n >= 0,
        d > 0,
    ensures
        ceil_div(n, d) >= 0,
        n <= ceil_div(n, d) * d < n + d,
{
    let a = n + d - 1;
    let q = a / d;
    lemma_fundamental_div_mod(a, d);
    lemma_mod_bound(a, d);
    assert(d * q == q * d) by (nonlinear_arith);
    assert(q >= 0) by (nonlinear_arith)
        requires
            q * d >= 0,
            d > 0,
    ;
}

proof fn lemma_step_product(c: int, d: int)
    ensures
        (c + 1) * d == c * d + d,
        (c - 1) * d == c * d - d,
{
    assert((c + 1) * d == c * d + d) by (nonlinear_arith);
    assert((c - 1) * d == c * d - d) by (nonlinear_arith);
}

proof fn lemma_product_order(a: int, b: int, d: int)
    requires
        d > 0,
    ensures
        a * d < b * d ==> a < b,
        a < b ==> a * d + d <= b * d,
        a <= b ==> a * d <= b * d,
{
    assert(a * d < b * d ==> a < b) by (nonlinear_arith)
        requires
            d > 0,
    ;
    assert(a < b ==> a * d + d <= b * d) by (nonlinear_arith)
        requires
            d > 0,
    ;
    assert(a <= b ==> a * d <= b * d) by (nonlinear_arith)
        requires
            d > 0,
    ;
}

impl BoundingBox {
    /// The number of tile columns that cover the box.
    pub open spec fn tile_columns(self, step: int) -> int {
        ceil_div(self.columns(), step)
    }

    /// The number of tile rows that cover the box.
    pub open spec fn tile_rows(self, step: int) -> int {
        ceil_div(self.rows(), step)
    }

    /// The tile in column `col` and row `row` of the grid: a square of edge
    /// `step` whose lower corner lies that many steps from the box's, cut off
    /// at the box's upper corner.
    pub open spec fn tile(self, step: int, col: int, row: int) -> BoundingBox {
        BoundingBox {
            bl: Vec2i { x: (self.bl.x + col * step) as i32, y: (self.bl.y + row * step) as i32 },
            tr: Vec2i {
                x: min(self.bl.x + (col + 1) * step, self.tr.x as int) as i32,
                y: min(self.bl.y + (row + 1) * step, self.tr.y as int) as i32,
            },
        }
    }

    /// The tiles of the box, row by row and within a row by column.
    pub open spec fn tile_seq(self, step: int) -> Seq<BoundingBox> {
        Seq::new(
            (self.tile_columns(step) * self.tile_rows(step)) as nat,
            |k: int| self.tile(step, k % self.tile_columns(step), k / self.tile_columns(step)),
        )
    }

    /// The place in `tile_seq` of the tile that holds pixel `(x, y)`.
    pub open spec fn tile_index(self, step: int, x: int, y: int) -> int {
        ((y - self.bl.y) / step) * self.tile_columns(step) + (x - self.bl.x) / step
    }

    /// The grid has no tile unless the box has a pixel, and its size is the
    /// product of its columns and rows.
    pub proof fn lemma_tile_counts(self, step: int)
        requires
            step > 0,
        ensures
            self.tile_columns(step) >= 0,
            self.tile_rows(step) >= 0,
            self.tile_seq(step).len() == self.tile_columns(step) * self.tile_rows(step),
            self.columns() <= self.tile_columns(step) * step < self.columns() + step,
            self.rows() <= self.tile_rows(step) * step < self.rows() + step,
    {
        lemma_ceil_div(self.columns(), step);
        lemma_ceil_div(self.rows(), step);
        assert(self.tile_columns(step) * self.tile_rows(step) >= 0) by (nonlinear_arith)
            requires
                self.tile_columns(step) >= 0,
                self.tile_rows(step) >= 0,
        ;
    }

    /// Splits a place in `tile_seq` into its column and row.
    pub proof fn lemma_tile_place(self, step: int, k: int)
        requires
            step > 0,
            0 <= k < self.tile_seq(step).len(),
        ensures
            0 <= k % self.tile_columns(step) < self.tile_columns(step),
            0 <= k / self.tile_columns(step) < self.tile_rows(step),
            k == (k / self.tile_columns(step)) * self.tile_columns(step) + k % self.tile_columns(
                step,
            ),
    {
        let cols = self.tile_columns(step);
        let rows = self.tile_rows(step);
        self.lemma_tile_counts(step);
        assert(cols > 0) by (nonlinear_arith)
            requires
                cols >= 0,
                cols * rows > 0,
        ;
        lemma_fundamental_div_mod(k, cols);
        lemma_mod_bound(k, cols);
        let r = k / cols;
        let c = k % cols;
        assert(cols * r == r * cols) by (nonlinear_arith);
        assert(0 <= r < rows) by (nonlinear_arith)
            requires
                k == r * cols + c,
                0 <= c < cols,
                0 <= k < cols * rows,
        ;
    }

    /// A tile of the grid is not empty, lies in the box and is at most `step`
    /// pixels wide and high.
    pub proof fn lemma_tile_shape(self, step: int, col: int, row: int)
        requires
            step > 0,
            0 <= col < self.tile_columns(step),
            0 <= row < self.tile_rows(step),
        ensures
            ({
                let t = self.tile(step, col, row);
                &&& t.bl.x == self.bl.x + col * step
                &&& t.bl.y == self.bl.y + row * step
                &&& t.tr.x == min(self.bl.x + col * step + step, self.tr.x as int)
                &&& t.tr.y == min(self.bl.y + row * step + step, self.tr.y as int)
                &&& self.bl.x <= t.bl.x < t.tr.x <= self.tr.x
                &&& self.bl.y <= t.bl.y < t.tr.y <= self.tr.y
            }),
    {
        self.lemma_tile_counts(step);
        lemma_step_product(col, step);
        lemma_step_product(row, step);
        lemma_product_order(col, self.tile_columns(step), step);
        lemma_product_order(row, self.tile_rows(step), step);
        lemma_product_order(0, col, step);
        lemma_product_order(0, row, step);
    }

    /// The tiles partition the box: each pixel of the box lies in the tile at
    /// its `tile_index` and in no other.
    pub proof fn lemma_tiles_partition(self, step: int, x: int, y: int)
        requires
            step > 0,
            self.contains(x, y),
        ensures
            0 <= self.tile_index(step, x, y) < self.tile_seq(step).len(),
            self.tile_seq(step)[self.tile_index(step, x, y)].contains(x, y),
            forall|j: int|
                0 <= j < self.tile_seq(step).len() && (#[trigger] self.tile_seq(step)[j]).contains(
                    x,
                    y,
                ) ==> j == self.tile_index(step, x, y),
    {
        let cols = self.tile_columns(step);
        let rows = self.tile_rows(step);
        let dx = x - self.bl.x;
        let dy = y - self.bl.y;
        let col = dx / step;
        let row = dy / step;
        let k = self.tile_index(step, x, y);
        self.lemma_tile_counts(step);
        lemma_fundamental_div_mod(dx, step);
        lemma_mod_bound(dx, step);
        lemma_fundamental_div_mod(dy, step);
        lemma_mod_bound(dy, step);
        assert(step * col == col * step) by (nonlinear_arith);
        assert(step * row == row * step) by (nonlinear_arith);
        lemma_product_order(col, cols, step);
        lemma_product_order(row, rows, step);
        lemma_product_order(-1, col, step);
        lemma_product_order(-1, row, step);
        assert(0 <= col < cols);
        assert(0 <= row < rows);
        assert(0 <= k < cols * rows) by (nonlinear_arith)
            requires
                k == row * cols + col,
                0 <= col < cols,
                0 <= row < rows,
        ;
        lemma_quotient(k, cols, row);
        self.lemma_tile_shape(step, col, row);
        assert forall|j: int|
            0 <= j < self.tile_seq(step).len() && (#[trigger] self.tile_seq(step)[j]).contains(
                x,
                y,
            ) implies j == k by {
            self.lemma_tile_place(step, j);
            let c = j % cols;
            let r = j / cols;
            self.lemma_tile_shape(step, c, r);
            lemma_quotient(dx, step, c);
            lemma_quotient(dy, step, r);
        }
    }

    /// Starts a walk over the box's tiles of edge `step`.
    pub fn iter(&self, step: i32) -> (it: BoundingBoxIterator)
        requires
            step > 0,
        ensures
            it.wf(),
            it.bounds == *self,
            it.step == step,
            it.x == self.bl.x,
            it.y == self.bl.y,
            it.position() == 0,
    {
        let it = BoundingBoxIterator { bounds: *self, step: step, x: self.bl.x, y: self.bl.y };
        proof {
            self.lemma_tile_counts(step as int);
            if !it.exhausted() {
                lemma_quotient(0, step as int, 0);
            } else {
                assert(self.tile_columns(step as int) * self.tile_rows(step as int) == 0)
                    by (nonlinear_arith)
                    requires
                        0 <= self.tile_columns(step as int) * step < self.columns() + step,
                        0 <= self.tile_rows(step as int) * step < self.rows() + step,
                        self.columns() == 0 || self.rows() == 0,
                        self.tile_columns(step as int) >= 0,
                        self.tile_rows(step as int) >= 0,
                        step > 0,
                ;
            }
        }
        it
    }

    /// All tiles of edge `step`, in the order of the walk.
    pub fn tiles(&self, step: i32) -> (all: Vec<BoundingBox>)
        requires
            step > 0,
        ensures
            all@ == self.tile_seq(step as int),
    {
        let mut it = self.iter(step);
        let mut all: Vec<BoundingBox> = Vec::new();
        loop
            invariant_except_break
                it.wf(),
                it.bounds == *self,
                it.step == step,
                0 <= it.position() <= self.tile_seq(step as int).len(),
                all@ == self.tile_seq(step as int).take(it.position()),
            ensures
                all@ == self.tile_seq(step as int),
            decreases self.tile_seq(step as int).len() - it.position(),
        {
            let ghost before = it.position();
            match it.next() {
                Some(t) => {
                    all.push(t);
                    proof {
                        assert(all@ =~= self.tile_seq(step as int).take(before + 1));
                    }
                },
                None => {
                    proof {
                        assert(all@ =~= self.tile_seq(step as int));
                    }
                    break ;
                },
            }
        }
        all
    }
}

/// A walk over the tiles of a box. `(x, y)` is the lower corner of the tile
/// that comes next; the walk is over once `y` has reached the box's upper edge.
pub struct BoundingBoxIterator {
    pub bounds: BoundingBox,
    pub step: i32,
    pub x: i32,
    pub y: i32,
}

impl BoundingBoxIterator {
    /// No tile is left.
    pub open spec fn exhausted(&self) -> bool {
        self.bounds.bl.x >= self.bounds.tr.x || self.y >= self.bounds.tr.y
    }

    /// The cursor stands on the lower corner of a tile of the grid.
    pub open spec fn wf(&self) -> bool {
        &&& self.step > 0
        &&& !self.exhausted() ==> {
            &&& self.bounds.bl.x <= self.x < self.bounds.tr.x
            &&& self.bounds.bl.y <= self.y
            &&& (self.x - self.bounds.bl.x) % (self.step as int) == 0
            &&& (self.y - self.bounds.bl.y) % (self.step as int) == 0
        }
    }

    /// How many tiles of `bounds.tile_seq(step)` the walk has passed.
    pub open spec fn position(&self) -> int {
        if self.exhausted() {
            self.bounds.tile_seq(self.step as int).len() as int
        } else {
            self.bounds.tile_index(self.step as int, self.x as int, self.y as int)
        }
    }

    /// The next tile of the walk, or `None` when every tile was handed out.
    pub fn next(&mut self) -> (tile: Option<BoundingBox>)
        requires
            old(self).wf(),
        ensures
            final(self).wf(),
            final(self).bounds == old(self).bounds,
            final(self).step == old(self).step,
            0 <= old(self).position() <= old(self).bounds.tile_seq(old(self).step as int).len(),
            old(self).exhausted() ==> tile is None && *final(self) == *old(self),
            !old(self).exhausted() ==> old(self).position() < old(self).bounds.tile_seq(
                old(self).step as int,
            ).len(),
            !old(self).exhausted() ==> tile == Some(
                old(self).bounds.tile_seq(old(self).step as int)[old(self).position()],
            ) && final(self).position() == old(self).position() + 1,
    {
        let ghost b = self.bounds;
        let ghost step = self.step as int;
        proof {
            b.lemma_tile_counts(step);
        }
        if self.bounds.bl.x >= self.bounds.tr.x || self.y >= self.bounds.tr.y {
            return None;
        }
        let x_end: i64 = self.x as i64 + self.step as i64;
        let y_end: i64 = self.y as i64 + self.step as i64;
        let tr_x: i32 = if x_end < self.bounds.tr.x as i64 {
            x_end as i32
        } else {
            self.bounds.tr.x
        };
        let tr_y: i32 = if y_end < self.bounds.tr.y as i64 {
            y_end as i32
        } else {
            self.bounds.tr.y
        };
        let tile = BoundingBox { bl: Vec2i::new(self.x, self.y), tr: Vec2i::new(tr_x, tr_y) };
        let ghost dx = self.x - b.bl.x;
        let ghost dy = self.y - b.bl.y;
        let ghost col = dx / step;
        let ghost row = dy / step;
        let ghost cols = b.tile_columns(step);
        let ghost rows = b.tile_rows(step);
        let ghost k = row * cols + col;
        proof {
            b.lemma_tiles_partition(step, self.x as int, self.y as int);
            lemma_fundamental_div_mod(dx, step);
            lemma_fundamental_div_mod(dy, step);
            assert(step * col == col * step) by (nonlinear_arith);
            assert(step * row == row * step) by (nonlinear_arith);
            b.lemma_tile_place(step, k);
            lemma_product_order(col, cols, step);
            lemma_product_order(row, rows, step);
            lemma_product_order(-1, col, step);
            lemma_product_order(-1, row, step);
            assert(0 <= col < cols);
            lemma_quotient(k, cols, row);
            b.lemma_tile_shape(step, col, row);
            assert(tile == b.tile_seq(step)[k]);
            lemma_step_product(col, step);
            lemma_step_product(row, step);
            lemma_step_product(cols, step);
            lemma_step_product(rows, step);
            lemma_step_product(row, cols);
        }
        if x_end < self.bounds.tr.x as i64 {
            self.x = x_end as i32;
            proof {
                lemma_quotient(dx + step, step, col + 1);
            }
        } else {
            self.x = self.bounds.bl.x;
            proof {
                lemma_quotient(0, step, 0);
                lemma_product_order(cols - 1, col + 1, step);
                assert(col + 1 == cols);
            }
            if y_end < self.bounds.tr.y as i64 {
                self.y = y_end as i32;
                proof {
                    lemma_quotient(dy + step, step, row + 1);
                }
            } else {
                self.y = self.bounds.tr.y;
                proof {
                    lemma_product_order(rows - 1, row + 1, step);
                    assert(row + 1 == rows);
                    assert(k + 1 == cols * rows) by (nonlinear_arith)
                        requires
                            k == row * cols + col,
                            col + 1 == cols,
                            row + 1 == rows,
                    ;
                }
            }
        }
        Some(tile)
    }
}

/// The tiles of the triangle that is being drawn, sorted by how they are
/// filled. The lists are scratch space: a draw clears and refills them.
pub struct TileCache {
    /// Tiles whose four corners the triangle covers.
    pub fast_tiles: Vec<BoundingBox>,
    /// The other tiles.
    pub slow_tiles: Vec<BoundingBox>,
}

impl TileCache {
    /// A cache with both lists empty.
    pub fn new() -> (cache: TileCache)
        ensures
            cache.fast_tiles@ == Seq::<BoundingBox>::empty(),
            cache.slow_tiles@ == Seq::<BoundingBox>::empty(),
    {
        TileCache { fast_tiles: Vec::new(), slow_tiles: Vec::new() }
    }

    /// Empties both lists.
    pub fn clear(&mut self)
        ensures
            final(self).fast_tiles@ == Seq::<BoundingBox>::empty(),
            final(self).slow_tiles@ == Seq::<BoundingBox>::empty(),
    {
        self.fast_tiles.clear();
        self.slow_tiles.clear();
    }
}

} // verus!
