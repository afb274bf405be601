#![allow(dead_code)]

// Whole scenes, drawn through the floating-point front end of a renderer:
// vectors and matrices, the transform chain, and the per-pixel values that
// the library takes as fragments. The scenes follow the front end.

use std::ops::{Add, Div, Index, IndexMut, Mul, MulAssign, Sub};
use softraster::color::{Color, LightRamp};
use softraster::coverage::{Corners, Edge, Edges, Weights};
use softraster::geometry::{
    clip_point, get_bounds, try_offset_to_pixel, try_pixel_to_offset, BoundingBox, Vec2i,
};
use softraster::mesh::{check_mesh, Mesh};
use softraster::raster::{self, Fragment};
use softraster::screen::Screen;
use softraster::single::is_near_zero;
use softraster::texture::Texture;
use softraster::tiles::{TileCache, TILE_SIZE};
use float_cmp::ApproxEq;
use softraster::mesh::{create_cube, GridPoint, GridUv};
use softraster::screen::{get_depth, DEPTH_CLEAR};


#[derive(Debug, PartialEq, Copy, Clone)]
pub struct Vec2f {
    pub x: f32,
    pub y: f32,
}

impl Vec2f {
    pub fn new(x: f32, y: f32) -> Self {
        Vec2f { x, y }
    }

    pub fn dot(a: Self, b: Self) -> f32 {
        a.x * b.x + a.y * b.y
    }
}

impl Add for Vec2f {
    type Output = Self;

    fn add(self, other: Self) -> Self {
        Vec2f { x: self.x + other.x, y: self.y + other.y }
    }
}

impl Sub for Vec2f {
    type Output = Self;

    fn sub(self, other: Self) -> Self {
        Vec2f { x: self.x - other.x, y: self.y - other.y }
    }
}

impl Mul for Vec2f {
    type Output = Self;

    fn mul(self, other: Vec2f) -> Vec2f {
        Vec2f { x: self.x * other.x, y: self.y * other.y }
    }
}

impl Mul<f32> for Vec2f {
    type Output = Self;

    fn mul(self, other: f32) -> Vec2f {
        Vec2f { x: self.x * other, y: self.y * other }
    }
}

impl Div for Vec2f {
    type Output = Self;

    fn div(self, other: Vec2f) -> Vec2f {
        Vec2f { x: self.x / other.x, y: self.y / other.y }
    }
}

impl Div<f32> for Vec2f {
    type Output = Self;

    fn div(self, other: f32) -> Vec2f {
        Vec2f { x: self.x / other, y: self.y / other }
    }
}

impl Index<usize> for Vec2f {
    type Output = f32;

    fn index(&self, index: usize) -> &f32 {
        match index {
            0 => &self.x,
            1 => &self.y,
            _ => &0.0,
        }
    }
}

impl From<&Vec4f> for Vec2f {
    fn from(item: &Vec4f) -> Self {
        Vec2f::new(item.x, item.y)
    }
}

impl From<&Vec3f> for Vec2f {
    fn from(item: &Vec3f) -> Self {
        Vec2f::new(item.x, item.y)
    }
}

#[derive(Debug, PartialEq, Copy, Clone)]
pub struct Vec3f {
    pub x: f32,
    pub y: f32,
    pub z: f32,
}

impl Vec3f {
    pub fn new(x: f32, y: f32, z: f32) -> Self {
        Vec3f { x, y, z }
    }

    pub fn length(&self) -> f32 {
        f32::sqrt(Vec3f::dot(self, self))
    }

    pub fn normalize(&self) -> Self {
        let len = self.length();
        Vec3f::new(self.x / len, self.y / len, self.z / len)
    }

    pub fn dot(a: &Vec3f, b: &Vec3f) -> f32 {
        a.x * b.x + a.y * b.y + a.z * b.z
    }

    pub fn cross(a: &Vec3f, b: &Vec3f) -> Self {
        Vec3f::new(a.y * b.z - a.z * b.y, a.z * b.x - a.x * b.z, a.x * b.y - a.y * b.x)
    }
}

impl Add for Vec3f {
    type Output = Self;

    fn add(self, other: Self) -> Self {
        Vec3f { x: self.x + other.x, y: self.y + other.y, z: self.z + other.z }
    }
}

impl Sub for Vec3f {
    type Output = Vec3f;

    fn sub(self, other: Self) -> Self {
        Vec3f { x: self.x - other.x, y: self.y - other.y, z: self.z - other.z }
    }
}

impl Mul for Vec3f {
    type Output = Self;

    fn mul(self, other: Self) -> Self {
        Vec3f { x: self.x * other.x, y: self.y * other.y, z: self.z * other.z }
    }
}

impl Mul<f32> for Vec3f {
    type Output = Self;

    fn mul(self, other: f32) -> Self {
        Vec3f { x: self.x * other, y: self.y * other, z: self.z * other }
    }
}

impl Mul<&f32> for Vec3f {
    type Output = Self;

    fn mul(self, other: &f32) -> Self {
        Vec3f { x: self.x * other, y: self.y * other, z: self.z * other }
    }
}

impl MulAssign<f32> for Vec3f {
    fn mul_assign(&mut self, other: f32) {
        self.x *= other;
        self.y *= other;
        self.z *= other;
    }
}

impl MulAssign<&f32> for Vec3f {
    fn mul_assign(&mut self, other: &f32) {
        self.x *= other;
        self.y *= other;
        self.z *= other;
    }
}

impl Div for Vec3f {
    type Output = Self;

    fn div(self, other: Self) -> Self {
        Vec3f { x: self.x / other.x, y: self.y / other.y, z: self.z / other.z }
    }
}

impl Div<f32> for Vec3f {
    type Output = Self;

    fn div(self, other: f32) -> Self {
        Vec3f { x: self.x / other, y: self.y / other, z: self.z / other }
    }
}

impl From<&Vec4f> for Vec3f {
    fn from(item: &Vec4f) -> Self {
        Vec3f::new(item.x, item.y, item.z)
    }
}

#[derive(Debug, PartialEq, Copy, Clone)]
pub struct Vec4f {
    pub x: f32,
    pub y: f32,
    pub z: f32,
    pub w: f32,
}

impl Vec4f {
    pub fn new(x: f32, y: f32, z: f32, w: f32) -> Self {
        Vec4f { x, y, z, w }
    }

    pub fn dot(a: Self, b: Self) -> f32 {
        a.x * b.x + a.y * b.y + a.z * b.z + a.w * b.w
    }

    pub fn norm_by_w(a: &Self) -> Self {
        Vec4f { x: a.x / a.w, y: a.y / a.w, z: a.z / a.w, w: a.w }
    }
}

impl Add for Vec4f {
    type Output = Self;

    fn add(self, other: Self) -> Self {
        Vec4f {
            x: self.x + other.x,
            y: self.y + other.y,
            z: self.z + other.z,
            w: self.w + other.w,
        }
    }
}

impl Sub for Vec4f {
    type Output = Self;

    fn sub(self, other: Self) -> Self {
        Vec4f {
            x: self.x - other.x,
            y: self.y - other.y,
            z: self.z - other.z,
            w: self.w - other.w,
        }
    }
}

impl Mul for Vec4f {
    type Output = Self;

    fn mul(self, other: Self) -> Vec4f {
        Vec4f {
            x: self.x * other.x,
            y: self.y * other.y,
            z: self.z * other.z,
            w: self.w * other.w,
        }
    }
}

impl Mul<f32> for Vec4f {
    type Output = Self;

    fn mul(self, other: f32) -> Vec4f {
        Vec4f { x: self.x * other, y: self.y * other, z: self.z * other, w: self.w * other }
    }
}

impl Div for Vec4f {
    type Output = Self;

    fn div(self, other: Self) -> Vec4f {
        Vec4f {
            x: self.x / other.x,
            y: self.y / other.y,
            z: self.z / other.z,
            w: self.w / other.w,
        }
    }
}

impl Div<f32> for Vec4f {
    type Output = Self;

    fn div(self, other: f32) -> Vec4f {
        Vec4f { x: self.x / other, y: self.y / other, z: self.z / other, w: self.w / other }
    }
}

impl Index<usize> for Vec4f {
    type Output = f32;

    fn index(&self, index: usize) -> &f32 {
        match index {
            0 => &self.x,
            1 => &self.y,
            2 => &self.z,
            3 => &self.w,
            _ => panic!("Trying to index non-existing coefficient on Vec4f: {}", index),
        }
    }
}

impl IndexMut<usize> for Vec4f {
    fn index_mut(&mut self, index: usize) -> &mut f32 {
        match index {
            0 => &mut self.x,
            1 => &mut self.y,
            2 => &mut self.z,
            3 => &mut self.w,
            _ => panic!("Trying to index non-existing coefficient on Vec4f: {}", index),
        }
    }
}


#[derive(Debug, PartialEq, Copy, Clone)]
pub struct Mat4x4f {
    pub values: [Vec4f; 4],
}

impl Mat4x4f {
    pub fn zero() -> Mat4x4f {
        Mat4x4f::from_columns(&[
            Vec4f::new(0.0, 0.0, 0.0, 0.0),
            Vec4f::new(0.0, 0.0, 0.0, 0.0),
            Vec4f::new(0.0, 0.0, 0.0, 0.0),
            Vec4f::new(0.0, 0.0, 0.0, 0.0),
        ])
    }

    pub fn identity() -> Mat4x4f {
        Mat4x4f::from_columns(&[
            Vec4f::new(1.0, 0.0, 0.0, 0.0),
            Vec4f::new(0.0, 1.0, 0.0, 0.0),
            Vec4f::new(0.0, 0.0, 1.0, 0.0),
            Vec4f::new(0.0, 0.0, 0.0, 1.0),
        ])
    }

    /// The arguments are given row by row, as the matrix is written down.
    pub fn new(
        m00: f32, m10: f32, m20: f32, m30: f32,
        m01: f32, m11: f32, m21: f32, m31: f32,
        m02: f32, m12: f32, m22: f32, m32: f32,
        m03: f32, m13: f32, m23: f32, m33: f32,
    ) -> Mat4x4f {
        Mat4x4f::from_columns(&[
            Vec4f::new(m00, m01, m02, m03),
            Vec4f::new(m10, m11, m12, m13),
            Vec4f::new(m20, m21, m22, m23),
            Vec4f::new(m30, m31, m32, m33),
        ])
    }

    pub fn from_columns(values: &[Vec4f; 4]) -> Mat4x4f {
        Mat4x4f { values: *values }
    }

    pub fn transpose(&self) -> Mat4x4f {
        let mut m = Mat4x4f::zero();

        for x in 0..4 {
            for y in 0..4 {
                m[[x, y]] = self[[y, x]];
            }
        }

        m
    }

    /// The inverse by cofactors of 2x2 blocks; the matrix must not be
    /// singular.
    pub fn inverse(&self) -> Mat4x4f {
        let a: Vec3f = (&self[0]).into();
        let b: Vec3f = (&self[1]).into();
        let c: Vec3f = (&self[2]).into();
        let d: Vec3f = (&self[3]).into();

        let x = &self[[0, 3]];
        let y = &self[[1, 3]];
        let z = &self[[2, 3]];
        let w = &self[[3, 3]];

        let mut s = Vec3f::cross(&a, &b);
        let mut t = Vec3f::cross(&c, &d);
        let mut u = a * y - b * x;
        let mut v = c * w - d * z;

        let inv_det = 1.0 / (Vec3f::dot(&s, &v) + Vec3f::dot(&t, &u));

        s *= inv_det;
        t *= inv_det;
        u *= inv_det;
        v *= inv_det;

        let r0 = Vec3f::cross(&b, &v) + t * y;
        let r1 = Vec3f::cross(&v, &a) - t * x;
        let r2 = Vec3f::cross(&d, &u) + s * w;
        let r3 = Vec3f::cross(&u, &c) - s * z;

        Mat4x4f::new(
            r0.x, r0.y, r0.z, -Vec3f::dot(&b, &t),
            r1.x, r1.y, r1.z, Vec3f::dot(&a, &t),
            r2.x, r2.y, r2.z, -Vec3f::dot(&d, &s),
            r3.x, r3.y, r3.z, Vec3f::dot(&c, &s),
        )
    }

    pub fn translation(x: f32, y: f32, z: f32) -> Mat4x4f {
        Mat4x4f::new(
            1.0, 0.0, 0.0, x,
            0.0, 1.0, 0.0, y,
            0.0, 0.0, 1.0, z,
            0.0, 0.0, 0.0, 1.0,
        )
    }

    pub fn rotation_x(radians: f32) -> Mat4x4f {
        Mat4x4f::new(
            1.0, 0.0, 0.0, 0.0,
            0.0, f32::cos(radians), -f32::sin(radians), 0.0,
            0.0, f32::sin(radians), f32::cos(radians), 0.0,
            0.0, 0.0, 0.0, 1.0,
        )
    }

    pub fn rotation_y(radians: f32) -> Mat4x4f {
        Mat4x4f::new(
            f32::cos(radians), 0.0, -f32::sin(radians), 0.0,
            0.0, 1.0, 0.0, 0.0,
            f32::sin(radians), 0.0, f32::cos(radians), 0.0,
            0.0, 0.0, 0.0, 1.0,
        )
    }

    pub fn rotation_z(radians: f32) -> Mat4x4f {
        Mat4x4f::new(
            f32::cos(radians), -f32::sin(radians), 0.0, 0.0,
            f32::sin(radians), f32::cos(radians), 0.0, 0.0,
            0.0, 0.0, 1.0, 0.0,
            0.0, 0.0, 0.0, 1.0,
        )
    }

    pub fn scale_uniform(factor: f32) -> Mat4x4f {
        Mat4x4f::new(
            factor, 0.0, 0.0, 0.0,
            0.0, factor, 0.0, 0.0,
            0.0, 0.0, factor, 0.0,
            0.0, 0.0, 0.0, 1.0,
        )
    }

    pub fn scale(x: f32, y: f32, z: f32) -> Mat4x4f {
        Mat4x4f::new(
            x, 0.0, 0.0, 0.0,
            0.0, y, 0.0, 0.0,
            0.0, 0.0, z, 0.0,
            0.0, 0.0, 0.0, 1.0,
        )
    }

    /// A perspective projection; the `w` it puts out is the depth in view
    /// space. `fov` is in degrees.
    pub fn projection(near: f32, far: f32, aspect: f32, fov: f32) -> Mat4x4f {
        let fov_rad: f32 = 1.0 / f32::tan(fov * 0.5 / 180.0 * std::f32::consts::PI);

        let mut proj_mat = Mat4x4f::identity();
        proj_mat[0][0] = aspect * fov_rad;
        proj_mat[1][1] = fov_rad;
        proj_mat[2][2] = far / (far - near);
        proj_mat[2][3] = 1.0;
        proj_mat[3][2] = far * near / (far - near);
        proj_mat[3][3] = 0.0;

        proj_mat
    }
}

impl Index<usize> for Mat4x4f {
    type Output = Vec4f;

    fn index(&self, index: usize) -> &Vec4f {
        &self.values[index]
    }
}

impl IndexMut<usize> for Mat4x4f {
    fn index_mut(&mut self, index: usize) -> &mut Vec4f {
        &mut self.values[index]
    }
}

impl Index<[usize; 2]> for Mat4x4f {
    type Output = f32;

    fn index(&self, index: [usize; 2]) -> &f32 {
        &self.values[index[0]][index[1]]
    }
}

impl IndexMut<[usize; 2]> for Mat4x4f {
    fn index_mut(&mut self, index: [usize; 2]) -> &mut f32 {
        &mut self.values[index[0]][index[1]]
    }
}

impl Mul for Mat4x4f {
    type Output = Mat4x4f;

    fn mul(self, other: Self) -> Self {
        let mut columns = [Vec4f::new(0.0, 0.0, 0.0, 0.0); 4];
        for (c, column) in columns.iter_mut().enumerate() {
            *column = self * other[c];
        }
        Mat4x4f::from_columns(&columns)
    }
}

impl Mul<Vec4f> for Mat4x4f {
    type Output = Vec4f;

    fn mul(self, v: Vec4f) -> Vec4f {
        Vec4f::new(
            self[0][0] * v[0] + self[1][0] * v[1] + self[2][0] * v[2] + self[3][0] * v[3],
            self[0][1] * v[0] + self[1][1] * v[1] + self[2][1] * v[2] + self[3][1] * v[3],
            self[0][2] * v[0] + self[1][2] * v[1] + self[2][2] * v[2] + self[3][2] * v[3],
            self[0][3] * v[0] + self[1][3] * v[1] + self[2][3] * v[2] + self[3][3] * v[3],
        )
    }
}






/// A triangle after the perspective divide; each `w` holds the reciprocal of
/// the vertex's depth.
#[derive(Debug, PartialEq, Copy, Clone)]
pub struct Triangle {
    pub a: Vec4f,
    pub b: Vec4f,
    pub c: Vec4f,
}

/// Where the camera stands and where the light shines, in world space.
#[derive(Debug, PartialEq, Copy, Clone)]
pub struct Scene {
    pub camera_position: Vec3f,
    pub light_direction: Vec3f,
}

impl Scene {
    /// The camera eight units in front of the origin, the light slanting
    /// down into the scene.
    pub fn standard() -> Scene {
        Scene {
            camera_position: Vec3f::new(0.0, 0.0, -8.0),
            light_direction: Vec3f::new(0.0, -0.5, 1.0),
        }
    }
}

/// The mesh type that is drawn: floating-point positions and texture
/// coordinates.
pub type FloatMesh = Mesh<Vec4f, Vec2f>;

// Floating point: the weights and the channel sums are floats throughout.
/// Blends three colours by barycentric weights.
pub fn blend(a: Color, b: Color, c: Color, w0: f32, w1: f32, w2: f32) -> Color {
    Color::new(
        ((a.r as f32 * w0) + (b.r as f32 * w1) + (c.r as f32 * w2)) as u8,
        ((a.g as f32 * w0) + (b.g as f32 * w1) + (c.g as f32 * w2)) as u8,
        ((a.b as f32 * w0) + (b.b as f32 * w1) + (c.b as f32 * w2)) as u8,
    )
}

/// The screen's extent as a pixel-space point.
fn screen_dims(screen: &Screen) -> Vec2i {
    match screen.dims() {
        Some(dims) => dims,
        None => panic!("the screen has no pixels or is too large"),
    }
}

/// Draws every triangle of a mesh.
pub fn draw_mesh(
    mesh: &FloatMesh,
    tex: &Texture,
    transform: &Mat4x4f,
    cam: &Mat4x4f,
    proj: &Mat4x4f,
    scene: &Scene,
    screen: &mut Screen,
    tile_cache: &mut TileCache,
) {
    assert!(check_mesh(mesh.verts.len(), &mesh.tris, mesh.uvs.len()));
    for i in 0..mesh.triangle_count() {
        let (v1, uv1) = mesh.corner(i, 0);
        let (v2, uv2) = mesh.corner(i, 1);
        let (v3, uv3) = mesh.corner(i, 2);
        triangle(screen, tile_cache, v1, v2, v3, uv1, uv2, uv3, tex, transform, cam, proj, scene);
    }
}

// Floating point: transforms, normal, lighting and the perspective divide.
/// Takes one triangle from object space to the screen and draws it, unless
/// it faces away from the camera.
pub fn triangle(
    screen: &mut Screen,
    tile_cache: &mut TileCache,
    v1: &Vec4f,
    v2: &Vec4f,
    v3: &Vec4f,
    uv1: &Vec2f,
    uv2: &Vec2f,
    uv3: &Vec2f,
    tex: &Texture,
    obj_mat: &Mat4x4f,
    cam: &Mat4x4f,
    proj: &Mat4x4f,
    scene: &Scene,
) {
    // Object to world
    let v1 = *obj_mat * *v1;
    let v2 = *obj_mat * *v2;
    let v3 = *obj_mat * *v3;

    let normal = Vec3f::cross(&(&(v2 - v1)).into(), &(&(v3 - v1)).into());
    let normal = normal.normalize();

    // Backface culling
    let cam_to_tri: Vec3f = Vec3f::from(&v1) - scene.camera_position;
    let facing = Vec3f::dot(&cam_to_tri, &normal);
    if !raster::faces_camera(facing.to_bits()) {
        return;
    }

    // Lighting
    let light_dir = scene.light_direction.normalize();
    let l_dot_n = f32::min(1.0, f32::max(0.0, -Vec3f::dot(&normal, &light_dir)));

    // World to view space, then to clip space
    let v1 = *proj * (*cam * v1);
    let v2 = *proj * (*cam * v2);
    let v3 = *proj * (*cam * v3);

    // Divide x, y, z by w
    let mut v1 = Vec4f::norm_by_w(&v1);
    let mut v2 = Vec4f::norm_by_w(&v2);
    let mut v3 = Vec4f::norm_by_w(&v3);

    // Keep the reciprocal of the depth in w for the fragments
    v1.w = 1.0 / v1.w;
    v2.w = 1.0 / v2.w;
    v3.w = 1.0 / v3.w;

    let tri = Triangle { a: v1, b: v2, c: v3 };

    triangle_textured(screen, tile_cache, &tri, uv1, uv2, uv3, tex, l_dot_n, facing);
}

// Floating point: the edge functions, their steps and the interpolation.
/// Computes the fragments of a triangle over its bounding box and hands them
/// to the fragment stage.
pub fn triangle_textured(
    screen: &mut Screen,
    tile_cache: &mut TileCache,
    tri: &Triangle,
    a_uv: &Vec2f,
    b_uv: &Vec2f,
    c_uv: &Vec2f,
    tex: &Texture,
    l_dot_n: f32,
    facing: f32,
) {
    let dims = screen_dims(screen);

    // The bounding box of the triangle in pixels limits the region that is
    // tested against the triangle.
    let a_s = clip_point(&to_pixelspace(&tri.a, &dims), &dims);
    let b_s = clip_point(&to_pixelspace(&tri.b, &dims), &dims);
    let c_s = clip_point(&to_pixelspace(&tri.c, &dims), &dims);
    let bounds = get_bounds(vec![a_s, b_s, c_s], &dims);

    let edges = Triangle { a: tri.c - tri.a, b: tri.a - tri.c, c: tri.b - tri.a };

    let area = signed_area(&tri.a, &tri.b, &tri.c);
    if !raster::is_visible(facing.to_bits(), area.to_bits()) {
        return;
    }
    let tri_area_inv = 1.0 / area;

    // The barycentric coordinates are linear in x and y: one step per pixel.
    let step_x = (1.0 / dims.x as f32) * tri_area_inv;
    let step_y = (1.0 / dims.y as f32) * tri_area_inv;

    let bary_step_x = Vec3f::new(
        signed_area_step_x(step_x, &tri.b, &tri.c),
        signed_area_step_x(step_x, &tri.c, &tri.a),
        signed_area_step_x(step_x, &tri.a, &tri.b),
    );

    let bary_step_y = Vec3f::new(
        signed_area_step_y(step_y, &tri.b, &tri.c),
        signed_area_step_y(step_y, &tri.c, &tri.a),
        signed_area_step_y(step_y, &tri.a, &tri.b),
    );

    // The full computation for the box's lower corner
    let bary_bl = barycentric(tri, tri_area_inv, &screen_to_camspace(&bounds.bl, &dims));

    let tiles = bounds.tiles(TILE_SIZE);
    let corners: Vec<Corners> =
        tiles.iter().map(|tile| corner_weights(tri, tri_area_inv, tile, &dims)).collect();

    let count = match raster::fragment_count(&bounds) {
        Some(count) => count,
        None => panic!("capacity overflow"),
    };
    let blank = Fragment { weights: weights_of(&bary_bl), depth: 0, row: 0, col: 0 };
    let mut fragments: Vec<Fragment> = vec![blank; count];

    for tile in &tiles {
        let mut bary_row = bary_bl
            + bary_step_y * (tile.bl.y - bounds.bl.y) as f32
            + bary_step_x * (tile.bl.x - bounds.bl.x) as f32;

        for y in tile.bl.y..tile.tr.y {
            let mut bary = bary_row;

            for x in tile.bl.x..tile.tr.x {
                let at = raster::fragment_index(&bounds, x, y);
                fragments[at] = fragment(tri, a_uv, b_uv, c_uv, &bary, tex);

                // One pixel along x
                bary = bary + bary_step_x;
            }

            // One pixel along y
            bary_row = bary_row + bary_step_y;
        }
    }

    let edges = Edges { a: edge_of(&edges.a), b: edge_of(&edges.b), c: edge_of(&edges.c) };
    let ramp = light_ramp(l_dot_n);

    assert!(screen.check() && tex.check());
    assert!(corners.len() == tiles.len() && fragments.len() == count);
    raster::triangle(
        screen,
        tile_cache,
        facing.to_bits(),
        area.to_bits(),
        &bounds,
        &edges,
        &corners,
        &fragments,
        tex,
        &ramp,
    );
}

// Floating point: the interpolation of depth and texture coordinates.
/// The fragment of the pixel with barycentric coordinates `bary`.
fn fragment(
    tri: &Triangle,
    a_uv: &Vec2f,
    b_uv: &Vec2f,
    c_uv: &Vec2f,
    bary: &Vec3f,
    tex: &Texture,
) -> Fragment {
    let z = 1.0 / (tri.a.w * bary.x + tri.b.w * bary.y + tri.c.w * bary.z);

    let uv = *a_uv * tri.a.w * bary.x + *b_uv * tri.b.w * bary.y + *c_uv * tri.c.w * bary.z;
    let uv = uv * z;

    Fragment {
        weights: weights_of(bary),
        depth: z.to_bits(),
        row: ((1.0 - uv.y) * tex.height as f32) as usize,
        col: (uv.x * tex.width as f32) as usize,
    }
}

// Floating point: the brightness factor scales each channel value.
/// The ramp of the brightness `0.1 + 0.9 * l_dot_n`.
pub fn light_ramp(l_dot_n: f32) -> LightRamp {
    let brightness = 0.1 + 0.9 * l_dot_n;
    let mut levels = [0u8; 256];
    for (value, level) in levels.iter_mut().enumerate() {
        *level = (value as f32 * brightness) as u8;
    }
    LightRamp { levels }
}

fn weights_of(bary: &Vec3f) -> Weights {
    Weights { x: bary.x.to_bits(), y: bary.y.to_bits(), z: bary.z.to_bits() }
}

fn edge_of(edge: &Vec4f) -> Edge {
    Edge { x: edge.x.to_bits(), y: edge.y.to_bits() }
}

// Floating point: three edge functions over the triangle's area.
/// The barycentric coordinates of a point in camera space.
fn barycentric(tri: &Triangle, tri_area_inv: f32, point: &Vec4f) -> Vec3f {
    Vec3f::new(
        signed_area(&tri.b, &tri.c, point) * tri_area_inv,
        signed_area(&tri.c, &tri.a, point) * tri_area_inv,
        signed_area(&tri.a, &tri.b, point) * tri_area_inv,
    )
}

/// The weights of the four corners of a tile.
fn corner_weights(
    tri: &Triangle,
    tri_area_inv: f32,
    bounds: &BoundingBox,
    screen_dims: &Vec2i,
) -> Corners {
    let at = |x: i32, y: i32| {
        weights_of(&barycentric(
            tri,
            tri_area_inv,
            &screen_to_camspace(&Vec2i::new(x, y), screen_dims),
        ))
    };
    Corners {
        bot_left: at(bounds.bl.x, bounds.bl.y),
        top_left: at(bounds.bl.x, bounds.tr.y),
        bot_right: at(bounds.tr.x, bounds.bl.y),
        top_right: at(bounds.tr.x, bounds.tr.y),
    }
}

// Floating point: the difference of two floats is held against a tolerance.
/// Whether two numbers differ by less than twice the machine epsilon.
pub fn approx_eq(a: f32, b: f32) -> bool {
    is_near_zero((a - b).to_bits())
}

// Floating point: a camera-space point is scaled to the screen and cut off.
/// Maps a point of camera space to its pixel.
pub fn to_pixelspace(point: &Vec4f, screen_dims: &Vec2i) -> Vec2i {
    let offset = Vec2i::new(
        (point.x * screen_dims.x as f32) as i32,
        (point.y * screen_dims.y as f32) as i32,
    );
    match try_offset_to_pixel(&offset, screen_dims) {
        Some(pixel) => pixel,
        None => panic!("attempt to add with overflow"),
    }
}

// Floating point: the pixel's offset is divided by the screen's extent.
/// Maps a pixel to its point in camera space.
pub fn screen_to_camspace(screen_point: &Vec2i, screen_dims: &Vec2i) -> Vec4f {
    let offset = match try_pixel_to_offset(screen_point, screen_dims) {
        Some(offset) => offset,
        None => panic!("attempt to subtract with overflow"),
    };
    Vec4f {
        x: offset.x as f32 / screen_dims.x as f32,
        y: offset.y as f32 / screen_dims.y as f32,
        z: 0.0,
        w: 1.0,
    }
}

// Floating point: a division of floats.
pub fn project(p: &Vec4f) -> Vec4f {
    Vec4f::new(p.x / p.z, p.y / p.z, p.z, 1.0)
}

// Floating point: the edge function is a difference of float products.
fn signed_area(a: &Vec4f, b: &Vec4f, p: &Vec4f) -> f32 {
    (p.x - a.x) * (b.y - a.y) - (p.y - a.y) * (b.x - a.x)
}

fn signed_area_step_x(step_x: f32, a: &Vec4f, b: &Vec4f) -> f32 {
    -step_x * (a.y - b.y)
}

fn signed_area_step_y(step_y: f32, a: &Vec4f, b: &Vec4f) -> f32 {
    step_y * (b.x - a.x)
}


fn to_floats(grid: Mesh<GridPoint, GridUv>) -> FloatMesh {
    let verts: Vec<Vec4f> = grid
        .verts
        .iter()
        .map(|p| Vec4f::new(p[0] as f32, p[1] as f32, p[2] as f32, p[3] as f32))
        .collect();
    let uvs: Vec<Vec2f> = grid.uvs.iter().map(|t| Vec2f::new(t[0] as f32, t[1] as f32)).collect();
    Mesh::try_new(verts, grid.tris, uvs).unwrap_or_else(|| panic!("index out of bounds"))
}

const LIGHT: Color = Color { r: 250, g: 240, b: 230 };
const DARK: Color = Color { r: 40, g: 30, b: 20 };

/// A checker of 16 by 16 squares, shifted so that the middle of the texture
/// lies in the middle of a light square.
fn checker() -> Texture {
    let mut texels = Vec::new();
    for row in 0..64usize {
        for col in 0..64usize {
            let light = ((row + 8) / 16 + (col + 8) / 16) % 2 == 0;
            texels.push(if light { LIGHT } else { DARK });
        }
    }
    Texture::new(texels, 64, 64).ok().unwrap()
}

fn pixel(screen: &Screen, x: usize, y: usize) -> Color {
    let at = (y * screen.width + x) * 3;
    Color::new(screen.color[at], screen.color[at + 1], screen.color[at + 2])
}

fn camera() -> (Mat4x4f, Mat4x4f) {
    let cam_inv = Mat4x4f::translation(0.0, 0.0, -8.0).inverse();
    let proj = Mat4x4f::projection(0.1, 1000.0, 300.0 / 400.0, 80.0);
    (cam_inv, proj)
}

fn render_cube(screen: &mut Screen) {
    let mut tile_cache = TileCache::new();
    let (cam_inv, proj) = camera();
    let mesh = to_floats(create_cube());
    draw_mesh(
        &mesh,
        &checker(),
        &Mat4x4f::identity(),
        &cam_inv,
        &proj,
        &Scene::standard(),
        screen,
        &mut tile_cache,
    );
}

#[test]
fn cube_in_front_of_the_camera() {
    let mut screen = Screen::new(400, 300);
    render_cube(&mut screen);

    // The front face looks at the camera; the light comes in at an angle.
    let l_dot_n = 1.0 / f32::sqrt(1.25);
    let brightness = 0.1 + 0.9 * l_dot_n;
    let expected = Color::new(
        (LIGHT.r as f32 * brightness) as u8,
        (LIGHT.g as f32 * brightness) as u8,
        (LIGHT.b as f32 * brightness) as u8,
    );
    assert_eq!(pixel(&screen, 200, 150), expected);
    let depth = f32::from_bits(get_depth(&screen, 200, 150));
    assert!((depth - 7.0).abs() < 1.0e-3, "depth {}", depth);

    for (x, y) in [(0, 0), (399, 0), (0, 299), (399, 299)] {
        assert_eq!(pixel(&screen, x, y), Color::black());
        assert_eq!(get_depth(&screen, x, y), DEPTH_CLEAR);
    }
}

#[test]
fn cube_covers_the_square_of_its_front_face() {
    let mut screen = Screen::new(400, 300);
    render_cube(&mut screen);
    for y in 0..300usize {
        for x in 0..400usize {
            let drawn = get_depth(&screen, x, y) != DEPTH_CLEAR;
            if 152 <= x && x <= 248 && 102 <= y && y <= 198 {
                assert!(drawn, "({}, {}) should be covered", x, y);
            }
            if x < 147 || x > 253 || y < 97 || y > 203 {
                assert!(!drawn, "({}, {}) should be clear", x, y);
            }
        }
    }
}

#[test]
fn cube_drawn_twice_is_the_cube_drawn_once() {
    let mut screen = Screen::new(400, 300);
    render_cube(&mut screen);
    let color = screen.color.clone();
    let depth = screen.depth.clone();
    render_cube(&mut screen);
    assert_eq!(screen.color, color);
    assert_eq!(screen.depth, depth);
}

#[test]
fn cube_seen_from_behind_shows_its_back_face_only() {
    // Turned half way round the y axis, the back face comes to the front.
    let mut screen = Screen::new(400, 300);
    let mut tile_cache = TileCache::new();
    let (cam_inv, proj) = camera();
    let mesh = to_floats(create_cube());
    let turned = Mat4x4f::rotation_y(std::f32::consts::PI);
    draw_mesh(
        &mesh,
        &checker(),
        &turned,
        &cam_inv,
        &proj,
        &Scene::standard(),
        &mut screen,
        &mut tile_cache,
    );
    let depth = f32::from_bits(get_depth(&screen, 200, 150));
    assert!((depth - 7.0).abs() < 1.0e-3, "depth {}", depth);
}

#[test]
fn a_triangle_facing_away_leaves_the_screen_alone() {
    let mut screen = Screen::new(64, 64);
    let mut tile_cache = TileCache::new();
    let (cam_inv, proj) = camera();
    let uv = Vec2f::new(0.0, 0.0);
    // The front face's first triangle with two corners swapped.
    triangle(
        &mut screen,
        &mut tile_cache,
        &Vec4f::new(-1.0, -1.0, -1.0, 1.0),
        &Vec4f::new(1.0, 1.0, -1.0, 1.0),
        &Vec4f::new(-1.0, 1.0, -1.0, 1.0),
        &uv,
        &uv,
        &uv,
        &checker(),
        &Mat4x4f::identity(),
        &cam_inv,
        &proj,
        &Scene::standard(),
    );
    assert_eq!(screen.color, vec![0u8; 64 * 64 * 3]);
    assert_eq!(screen.depth, vec![DEPTH_CLEAR; 64 * 64]);
}

#[test]
fn light_ramp_scales_and_cuts_off() {
    let ramp = light_ramp(1.0);
    assert_eq!(ramp.levels[255], 255);
    assert_eq!(ramp.levels[100], 100);
    let ramp = light_ramp(0.0);
    assert_eq!(ramp.levels[255], 25);
    assert_eq!(ramp.levels[0], 0);
}

fn matrices_approx_eq(a: &Mat4x4f, b: &Mat4x4f, epsilon: f32, ulps: i32) -> bool {
    (0..4).all(|c| (0..4).all(|r| a[[c, r]].approx_eq(b[[c, r]], (epsilon, ulps))))
}

#[test]
fn test_mul_mat4x4_vec4f() {
    let m = Mat4x4f::new(
        0.0, -1.0, 0.0, 0.0,
        1.0, 0.0, 0.0, 0.0,
        0.0, 0.0, 1.0, 0.0,
        0.0, 0.0, 0.0, 1.0,
    );

    let v = Vec4f::new(1.0, 0.0, 0.0, 0.0);

    assert_eq!(m * v, Vec4f::new(0.0, 1.0, 0.0, 0.0));
}

#[test]
fn test_inverse() {
    let m_scale = Mat4x4f::scale(2.0, 3.0, 4.0);
    let m_rot = Mat4x4f::rotation_z(std::f32::consts::PI);
    let m_trs = Mat4x4f::translation(0.0, 0.0, 1.0);
    let m = m_rot * m_scale * m_trs;
    println!("m : {:?}", m);
    let m_inv = m.inverse();
    println!("m': {:?}", m_inv);

    assert!(matrices_approx_eq(&(m_inv * m), &Mat4x4f::identity(), 2.0 * f32::EPSILON, 2));
}

#[test]
fn test_mat4x4_vec3f_translate() {
    let m = Mat4x4f::new(
        1.0, 0.0, 0.0, 1.0,
        0.0, 2.0, 0.0, 2.0,
        0.0, 0.0, 1.0, 3.0,
        0.0, 0.0, 0.0, 1.0,
    );

    let v = Vec4f::new(1.0, 1.0, 1.0, 1.0);

    assert_eq!(m * v, Vec4f::new(2.0, 4.0, 4.0, 1.0));
}

#[test]
fn test_indexers() {
    let mut x = Vec4f::new(0.0, 0.0, 0.0, 1.0);
    x[1] = 1.0;

    let mut m = Mat4x4f::zero();

    m[0] = Vec4f::new(0.0, 0.0, 0.0, 1.0);
    m[[0, 1]] = 0.0;
    assert_eq!(x, Vec4f::new(0.0, 1.0, 0.0, 1.0));
    assert_eq!(m[0], Vec4f::new(0.0, 0.0, 0.0, 1.0));
}
