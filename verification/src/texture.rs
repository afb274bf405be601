//! Textures: a grid of texels in one flat row-major array, read without
//! filtering.

use vstd::prelude::*;
use vstd::math::min;
use image::DynamicImage;
use image::GenericImageView;
use crate::color::Color;
use crate::screen::lemma_offset_in_range;

verus! {

/// A grid of `height` rows of `width` texels; texel `(row, col)` is at index
/// `row * width + col`.
pub struct Texture {
    pub texels: Vec<Color>,
    pub width: usize,
    pub height: usize,
}

/// Why a texture could not be made.
#[derive(Debug, PartialEq, Eq, Structural, Copy, Clone)]
pub enum TextureError {
    /// The width or the height is zero.
    Empty,
    /// The number of texels is not `width * height`.
    SizeMismatch,
    /// The number of texels is beyond what the machine can address.
    TooLarge,
}

impl TextureError {
    /// The sentence that describes the error.
    pub open spec fn text(self) -> Seq<char> {
        match self {
            TextureError::Empty => "a texture needs at least one row and one column"@,
            TextureError::SizeMismatch => "the number of texels differs from width times height"@,
            TextureError::TooLarge => "the texture has more texels than the machine can address"@,
        }
    }

    /// A sentence that describes the error.
    pub fn message(&self) -> (text: &'static str)
        ensures
            text@ == self.text(),
    {
        match self {
            TextureError::Empty => "a texture needs at least one row and one column",
            TextureError::SizeMismatch => "the number of texels differs from width times height",
            TextureError::TooLarge => "the texture has more texels than the machine can address",
        }
    }
}

impl Texture {
    /// The grid is not empty and the array holds exactly its texels.
    pub open spec fn wf(&self) -> bool {
        &&& self.width > 0
        &&& self.height > 0
        &&& self.texels.len() == self.width * self.height
    }

    /// The texel nearest to `(row, col)`: a coordinate past the last row or
    /// column reads the last one.
    pub open spec fn texel(&self, row: int, col: int) -> Color {
        self.texels@[min(row, self.height - 1) * self.width + min(col, self.width - 1)]
    }

    /// Tests whether the grid is not empty and the array holds exactly its
    /// texels.
    pub fn check(&self) -> (ok: bool)
        ensures
            ok == self.wf(),
    {
        let count: usize = self.texels.len();
        match self.width.checked_mul(self.height) {
            Some(n) => self.width > 0 && self.height > 0 && count == n,
            None => false,
        }
    }

    /// Makes a texture of `texels`, read as `height` rows of `width` texels.
    pub fn new(texels: Vec<Color>, width: usize, height: usize) -> (made: Result<
        Texture,
        TextureError,
    >)
        ensures
            made is Ok <==> width > 0 && height > 0 && texels@.len() == width * height,
            made matches Ok(t) ==> t.wf() && t.texels@ == texels@ && t.width == width && t.height
                == height,
            made matches Err(e) ==> e == (if width == 0 || height == 0 {
                TextureError::Empty
            } else {
                TextureError::SizeMismatch
            }),
    {
        if width == 0 || height == 0 {
            return Err(TextureError::Empty);
        }
        let count: usize = texels.len();
        match width.checked_mul(height) {
            Some(n) => {
                if count == n {
                    Ok(Texture { texels, width, height })
                } else {
                    Err(TextureError::SizeMismatch)
                }
            },
            None => Err(TextureError::SizeMismatch),
        }
    }

    /// Reads the texel nearest to `(row, col)`.
    pub fn sample(&self, row: usize, col: usize) -> (c: Color)
        requires
            self.wf(),
        ensures
            c == self.texel(row as int, col as int),
    {
        let r: usize = if row < self.height { row } else { self.height - 1 };
        let k: usize = if col < self.width { col } else { self.width - 1 };
        proof {
            lemma_offset_in_range(k as int, r as int, self.width as int, self.height as int);
        }
        self.texels[r * self.width + k]
    }
}

/// A decoded image of the `image` crate, whatever its pixel format.
#[verifier::external_type_specification]
#[verifier::external_body]
pub struct ExDynamicImage(image::DynamicImage);

/// The pixels of an image as red, green, blue and alpha bytes, row by row
/// from the top left.
pub uninterp spec fn image_pixels(img: DynamicImage) -> Seq<(u8, u8, u8, u8)>;

/// The number of pixels in a row of an image.
pub uninterp spec fn image_width(img: DynamicImage) -> nat;

/// `GenericImageView::dimensions` of a `DynamicImage`: the width and the
/// height. The contract says that the width is the image's row length and
/// that width times height is its number of pixels.
#[verifier::external_body]
fn image_dimensions(img: &DynamicImage) -> (dims: (u32, u32))
    ensures
        dims.0 == image_width(*img),
        dims.0 * dims.1 == image_pixels(*img).len(),
{
    img.dimensions()
}

/// `GenericImageView::get_pixel` of a `DynamicImage`, which panics outside
/// the image. The contract says that the result is the pixel in column `x` of
/// row `y`, converted to 8-bit RGBA.
#[verifier::external_body]
fn image_pixel(img: &DynamicImage, x: u32, y: u32) -> (rgba: (u8, u8, u8, u8))
    requires
        x < image_width(*img),
        y * image_width(*img) + x < image_pixels(*img).len(),
    ensures
        rgba == image_pixels(*img)[y * image_width(*img) + x],
{
    let p = img.get_pixel(x, y);
    (p[0], p[1], p[2], p[3])
}

/// The colour of a pixel, its alpha dropped.
pub open spec fn opaque_color(rgba: (u8, u8, u8, u8)) -> Color {
    Color { r: rgba.0, g: rgba.1, b: rgba.2 }
}

/// The texels that a sequence of pixels gives.
pub open spec fn texels_of(pixels: Seq<(u8, u8, u8, u8)>) -> Seq<Color> {
    Seq::new(pixels.len(), |i: int| opaque_color(pixels[i]))
}

/// Makes a texture of a decoded image: one texel per pixel, in the image's
/// own order, without the alpha channel.
pub fn texture_from_image(img: &DynamicImage) -> (made: Result<Texture, TextureError>)
    ensures
        made is Ok <==> image_width(*img) > 0 && image_pixels(*img).len() > 0 && image_pixels(
            *img,
        ).len() <= usize::MAX,
        made matches Ok(t) ==> t.wf() && t.width == image_width(*img) && t.texels@ == texels_of(
            image_pixels(*img),
        ),
        made matches Err(e) ==> e == (if image_width(*img) == 0 || image_pixels(*img).len() == 0 {
            TextureError::Empty
        } else {
            TextureError::TooLarge
        }),
{
    let dims = image_dimensions(img);
    let ghost pixels = image_pixels(*img);
    let ghost w = dims.0 as int;
    let ghost h = dims.1 as int;
    if dims.0 == 0 || dims.1 == 0 {
        proof {
            assert(w * h == 0) by (nonlinear_arith)
                requires
                    w == 0 || h == 0,
            ;
        }
        return Err(TextureError::Empty);
    }
    proof {
        assert(w * h > 0) by (nonlinear_arith)
            requires
                w > 0,
                h > 0,
        ;
    }
    proof {
        assert(w * h <= 0xffff_ffff * 0xffff_ffff) by (nonlinear_arith)
            requires
                0 <= w <= 0xffff_ffff,
                0 <= h <= 0xffff_ffff,
        ;
    }
    let count: u64 = (dims.0 as u64) * (dims.1 as u64);
    if count > usize::MAX as u64 {
        return Err(TextureError::TooLarge);
    }
    let width: usize = dims.0 as usize;
    let height: usize = dims.1 as usize;
    let mut texels: Vec<Color> = Vec::new();
    let mut y: u32 = 0;
    while y < dims.1
        invariant
            y <= dims.1,
            w == dims.0,
            h == dims.1,
            w > 0,
            pixels == image_pixels(*img),
            dims.0 == image_width(*img),
            w * h == pixels.len(),
            texels@ == texels_of(pixels.take(y * w)),
        decreases dims.1 - y,
    {
        let mut x: u32 = 0;
        proof {
            assert(y * w + w <= w * h) by (nonlinear_arith)
                requires
                    0 <= y < h,
                    w > 0,
            ;
        }
        while x < dims.0
            invariant
                x <= dims.0,
                y < dims.1,
                w == dims.0,
                h == dims.1,
                w > 0,
                pixels == image_pixels(*img),
                dims.0 == image_width(*img),
                w * h == pixels.len(),
                y * w + w <= w * h,
                texels@ == texels_of(pixels.take(y * w + x)),
            decreases dims.0 - x,
        {
            let p = image_pixel(img, x, y);
            texels.push(Color::new(p.0, p.1, p.2));
            proof {
                assert(texels@ =~= texels_of(pixels.take(y * w + x + 1)));
            }
            x += 1;
        }
        proof {
            assert((y + 1) * w == y * w + w) by (nonlinear_arith);
        }
        y += 1;
    }
    proof {
        assert(pixels.take(h * w) =~= pixels) by {
            assert(h * w == w * h) by (nonlinear_arith);
        }
    }
    Ok(Texture { texels, width, height })
}

} // verus!
