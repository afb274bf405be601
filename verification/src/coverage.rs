//! The coverage test of a triangle: which points count as inside, given
//! their barycentric weights and the triangle's edge vectors.
//!
//! Weights and edge components are single-precision numbers held as their bit
//! patterns (see `single`).

use vstd::prelude::*;
use crate::single::{ge_zero, is_ge_zero, is_near_zero, near_zero};

verus! {

/// The x and y components of one edge vector of a triangle.
#[derive(Debug, PartialEq, Eq, Structural, Copy, Clone)]
pub struct Edge {
    pub x: u32,
    pub y: u32,
}

/// The three edge vectors of a triangle: `a` is tested with the first
/// weight, `b` with the second and `c` with the third.
#[derive(Debug, PartialEq, Eq, Structural, Copy, Clone)]
pub struct Edges {
    pub a: Edge,
    pub b: Edge,
    pub c: Edge,
}

/// The barycentric weights of a point: each is the edge function of the
/// point and the two opposite vertices, over the triangle's signed area.
#[derive(Debug, PartialEq, Eq, Structural, Copy, Clone)]
pub struct Weights {
    pub x: u32,
    pub y: u32,
    pub z: u32,
}

/// The weights of the four corners of a tile.
#[derive(Debug, PartialEq, Eq, Structural, Copy, Clone)]
pub struct Corners {
    pub bot_left: Weights,
    pub top_left: Weights,
    pub bot_right: Weights,
    pub top_right: Weights,
}

/// Whether a point passes the test of one edge. A point off the edge passes
/// when its weight is not negative. A point on the edge (its weight counts as
/// zero) passes only when the edge is a top or a left edge: when the edge
/// vector's y is not negative, or counts as zero with x not negative.
pub open spec fn passes_edge(edge: Edge, w: u32) -> bool {
    if near_zero(w) {
        (near_zero(edge.y) && ge_zero(edge.x)) || ge_zero(edge.y)
    } else {
        ge_zero(w)
    }
}

/// Whether a point with weights `w` is inside the triangle: it passes the
/// test of all three edges.
pub open spec fn covers(edges: Edges, w: Weights) -> bool {
    passes_edge(edges.a, w.x) && passes_edge(edges.b, w.y) && passes_edge(edges.c, w.z)
}

/// How many of a tile's four corners are inside the triangle.
pub open spec fn covered_corners(edges: Edges, corners: Corners) -> int {
    (if covers(edges, corners.bot_left) { 1int } else { 0 })
    + (if covers(edges, corners.top_left) { 1int } else { 0 })
    + (if covers(edges, corners.bot_right) { 1int } else { 0 })
    + (if covers(edges, corners.top_right) { 1int } else { 0 })
}

/// Clears `inside` when the point fails the test of `edge`.
pub fn test_topleft(edge: &Edge, w: u32, inside: &mut bool)
    ensures
        *final(inside) == (*old(inside) && passes_edge(*edge, w)),
{
    if is_near_zero(w) {
        let passes = (is_near_zero(edge.y) && is_ge_zero(edge.x)) || is_ge_zero(edge.y);
        *inside = *inside && passes;
    } else {
        let passes = is_ge_zero(w);
        *inside = *inside && passes;
    }
}

/// Tests whether the point with the given weights is inside the triangle.
pub fn is_point_inside_triangle(edges: &Edges, weights: &Weights) -> (inside: bool)
    ensures
        inside == covers(*edges, *weights),
{
    let mut inside: bool = true;
    test_topleft(&edges.a, weights.x, &mut inside);
    test_topleft(&edges.b, weights.y, &mut inside);
    test_topleft(&edges.c, weights.z, &mut inside);
    inside
}

/// Counts the corners of a tile that are inside the triangle.
pub fn triangle_box_corner_overlaps(edges: &Edges, corners: &Corners) -> (count: u8)
    ensures
        count == covered_corners(*edges, *corners),
{
    let mut edge_overlap_count: u8 = 0;
    if is_point_inside_triangle(edges, &corners.bot_left) {
        edge_overlap_count += 1;
    }
    if is_point_inside_triangle(edges, &corners.top_left) {
        edge_overlap_count += 1;
    }
    if is_point_inside_triangle(edges, &corners.bot_right) {
        edge_overlap_count += 1;
    }
    if is_point_inside_triangle(edges, &corners.top_right) {
        edge_overlap_count += 1;
    }
    edge_overlap_count
}

} // verus!
