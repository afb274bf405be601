//! The framebuffer: a colour buffer of three bytes per pixel and a depth
//! buffer of one entry per pixel, both row-major.
//!
//! Depths are single-precision numbers held as their bit patterns (see
//! `single`); smaller is closer.

use vstd::prelude::*;
use crate::color::Color;
use crate::geometry::Vec2i;

verus! {

/// The depth of a pixel on which nothing was drawn yet: the pattern of 1000.
pub const DEPTH_CLEAR: u32 = 0x447a_0000;

/// The framebuffer. `color` holds the red, green and blue byte of each
/// pixel, `depth` the depth of each pixel, both row by row from the top left.
pub struct Screen {
    pub color: Vec<u8>,
    pub depth: Vec<u32>,
    pub width: usize,
    pub height: usize,
}

/// What a screen holds: one colour and one depth per pixel, row-major.
pub struct Frame {
    pub width: int,
    pub height: int,
    pub pixels: Seq<Color>,
    pub depths: Seq<u32>,
}

impl Frame {
    /// Both sequences have one entry per pixel.
    pub open spec fn wf(self) -> bool {
        &&& self.width >= 0
        &&& self.height >= 0
        &&& self.pixels.len() == self.width * self.height
        &&& self.depths.len() == self.width * self.height
    }

    /// Whether `(x, y)` is a pixel of the frame.
    pub open spec fn on_screen(self, x: int, y: int) -> bool {
        0 <= x < self.width && 0 <= y < self.height
    }

    /// The index of pixel `(x, y)` in row-major order.
    pub open spec fn offset(self, x: int, y: int) -> int {
        y * self.width + x
    }

    /// The colour of pixel `(x, y)`.
    pub open spec fn pixel(self, x: int, y: int) -> Color {
        self.pixels[self.offset(x, y)]
    }

    /// The depth of pixel `(x, y)`.
    pub open spec fn depth(self, x: int, y: int) -> u32 {
        self.depths[self.offset(x, y)]
    }

    /// The frame with the colour of pixel `(x, y)` replaced.
    pub open spec fn with_pixel(self, x: int, y: int, c: Color) -> Frame {
        Frame { pixels: self.pixels.update(self.offset(x, y), c), ..self }
    }

    /// The frame with the depth of pixel `(x, y)` replaced.
    pub open spec fn with_depth(self, x: int, y: int, d: u32) -> Frame {
        Frame { depths: self.depths.update(self.offset(x, y), d), ..self }
    }

    /// The frame after each of `points` was set to `color`, in order.
    pub open spec fn plot_all(self, points: Seq<(int, int)>, color: Color) -> Frame
        decreases points.len(),
    {
        if points.len() == 0 {
            self
        } else {
            self.plot_all(points.drop_last(), color).with_pixel(
                points.last().0,
                points.last().1,
                color,
            )
        }
    }

    /// Plotting one more point is setting its pixel on what was plotted.
    pub proof fn lemma_plot_push(self, points: Seq<(int, int)>, p: (int, int), color: Color)
        ensures
            self.plot_all(points.push(p), color) == self.plot_all(points, color).with_pixel(
                p.0,
                p.1,
                color,
            ),
    {
        assert(points.push(p).drop_last() =~= points);
    }

    /// Two pixels of a frame share an offset only if they are the same pixel,
    /// so replacing one pixel's colour or depth leaves every other pixel alone.
    pub proof fn lemma_offsets_differ(self, x: int, y: int, x2: int, y2: int)
        requires
            self.on_screen(x, y),
            self.on_screen(x2, y2),
        ensures
            0 <= self.offset(x, y) < self.width * self.height,
            self.offset(x, y) == self.offset(x2, y2) <==> x == x2 && y == y2,
    {
        lemma_offset_in_range(x, y, self.width, self.height);
        let w = self.width;
        assert(y * w + x == y2 * w + x2 ==> y == y2) by (nonlinear_arith)
            requires
                0 <= x < w,
                0 <= x2 < w,
        ;
    }

    /// Every index of a frame is the offset of the pixel in column
    /// `i % width` of row `i / width`.
    pub proof fn lemma_offset_of_index(self, i: int)
        requires
            self.wf(),
            0 <= i < self.width * self.height,
        ensures
            self.on_screen(i % self.width, i / self.width),
            self.offset(i % self.width, i / self.width) == i,
    {
        let w = self.width;
        let h = self.height;
        assert(w > 0) by (nonlinear_arith)
            requires
                0 <= i < w * h,
                w >= 0,
        ;
        vstd::arithmetic::div_mod::lemma_fundamental_div_mod(i, w);
        vstd::arithmetic::div_mod::lemma_mod_bound(i, w);
        let q = i / w;
        let r = i % w;
        assert(w * q == q * w) by (nonlinear_arith);
        assert(0 <= q < h) by (nonlinear_arith)
            requires
                i == q * w + r,
                0 <= r < w,
                0 <= i < w * h,
        ;
    }
}

impl View for Screen {
    type V = Frame;

    open spec fn view(&self) -> Frame {
        Frame {
            width: self.width as int,
            height: self.height as int,
            pixels: self.pixels(),
            depths: self.depth@,
        }
    }
}

/// `y * width + x` stays below `width * height` for a pixel of the screen.
pub proof fn lemma_offset_in_range(x: int, y: int, width: int, height: int)
    by (nonlinear_arith)
    requires
        0 <= x < width,
        0 <= y < height,
    ensures
        0 <= y * width + x < width * height,
        0 <= y * width <= width * height - width,
        y * (width * 3) + x * 3 == 3 * (y * width + x),
        0 <= y * (width * 3) <= 3 * (y * width + x),
        3 * (y * width + x) + 2 < width * height * 3,
{
}

impl Screen {
    /// Both buffers have the size that the dimensions ask for.
    pub open spec fn wf(&self) -> bool {
        &&& self.color.len() == self.width * self.height * 3
        &&& self.depth.len() == self.width * self.height
    }

    /// The colour buffer read as one colour per pixel, row-major.
    pub open spec fn pixels(&self) -> Seq<Color> {
        Seq::new(
            (self.width * self.height) as nat,
            |i: int|
                Color { r: self.color@[3 * i], g: self.color@[3 * i + 1], b: self.color@[3 * i + 2] },
        )
    }


    /// Tests whether both buffers have the size that the dimensions ask for.
    pub fn check(&self) -> (ok: bool)
        ensures
            ok == self.wf(),
    {
        let colors: usize = self.color.len();
        let depths: usize = self.depth.len();
        match self.width.checked_mul(self.height) {
            Some(area) => match area.checked_mul(3) {
                Some(bytes) => colors == bytes && depths == area,
                None => false,
            },
            None => {
                assert(self.width * self.height <= self.width * self.height * 3)
                    by (nonlinear_arith);
                false
            },
        }
    }

    /// The screen's extent as a point, if the screen has pixels and both of
    /// its dimensions fit a coordinate.
    pub fn dims(&self) -> (dims: Option<Vec2i>)
        ensures
            dims is Some <==> 1 <= self.width <= i32::MAX && 1 <= self.height <= i32::MAX,
            dims matches Some(d) ==> d.x == self.width && d.y == self.height,
    {
        if 1 <= self.width && self.width <= i32::MAX as usize && 1 <= self.height && self.height
            <= i32::MAX as usize {
            Some(Vec2i::new(self.width as i32, self.height as i32))
        } else {
            None
        }
    }

    /// A black screen of the given size on which nothing was drawn yet.
    pub fn new(width: usize, height: usize) -> (screen: Screen)
        requires
            width * height * 3 <= usize::MAX,
        ensures
            screen.wf(),
            screen.width == width,
            screen.height == height,
            screen.pixels() == Seq::new((width * height) as nat, |i: int| Color { r: 0, g: 0, b: 0 }),
            screen.depth@ == Seq::new((width * height) as nat, |i: int| DEPTH_CLEAR),
    {
        assert(width * height <= width * height * 3) by (nonlinear_arith);
        let depth_buffer_size: usize = width * height;
        let color_buffer_size: usize = depth_buffer_size * 3;
        let color: Vec<u8> = vec![0u8; color_buffer_size];
        let depth: Vec<u32> = vec![DEPTH_CLEAR; depth_buffer_size];
        let screen = Screen { color, depth, width, height };
        proof {
            assert(screen.pixels() =~= Seq::new(
                (width * height) as nat,
                |i: int| Color { r: 0, g: 0, b: 0 },
            ));
            assert(screen.depth@ =~= Seq::new((width * height) as nat, |i: int| DEPTH_CLEAR));
        }
        screen
    }

    /// A black screen of the given size, or the reason why there is none.
    pub fn try_new(width: usize, height: usize) -> (screen: Result<Screen, ScreenError>)
        ensures
            screen is Ok <==> width * height * 3 <= usize::MAX,
            screen matches Ok(s) ==> {
                &&& s.wf()
                &&& s.width == width
                &&& s.height == height
                &&& s.pixels() == Seq::new(
                    (width * height) as nat,
                    |i: int| Color { r: 0, g: 0, b: 0 },
                )
                &&& s.depth@ == Seq::new((width * height) as nat, |i: int| DEPTH_CLEAR)
            },
            screen matches Err(e) ==> e == ScreenError::TooLarge,
    {
        match width.checked_mul(height) {
            Some(area) => match area.checked_mul(3) {
                Some(_) => Ok(Screen::new(width, height)),
                None => Err(ScreenError::TooLarge),
            },
            None => {
                assert(width * height <= width * height * 3) by (nonlinear_arith);
                Err(ScreenError::TooLarge)
            },
        }
    }
}

/// Why a screen could not be made.
#[derive(Debug, PartialEq, Eq, Structural, Copy, Clone)]
pub enum ScreenError {
    /// The colour buffer would have more bytes than the machine can address.
    TooLarge,
}

impl ScreenError {
    /// The sentence that describes the error.
    pub open spec fn text(self) -> Seq<char> {
        "the screen has more bytes than the machine can address"@
    }

    /// A sentence that describes the error.
    pub fn message(&self) -> (text: &'static str)
        ensures
            text@ == self.text(),
    {
        "the screen has more bytes than the machine can address"
    }
}

/// Sets the colour of one pixel.
pub fn set_color(screen: &mut Screen, x: usize, y: usize, c: &Color)
    requires
        old(screen).wf(),
        x < old(screen).width,
        y < old(screen).height,
    ensures
        final(screen).wf(),
        final(screen)@ == old(screen)@.with_pixel(x as int, y as int, *c),
{
    proof {
        lemma_offset_in_range(x as int, y as int, screen.width as int, screen.height as int);
    }
    assert(screen.width * 3 <= screen.width * screen.height * 3) by (nonlinear_arith)
        requires
            0 <= y < screen.height,
    ;
    let stride: usize = screen.width * 3;
    let offset: usize = y * stride + x * 3;
    screen.color[offset + 0] = c.r;
    screen.color[offset + 1] = c.g;
    screen.color[offset + 2] = c.b;
    proof {
        assert(screen.pixels() =~= old(screen).pixels().update(
            old(screen)@.offset(x as int, y as int),
            *c,
        ));
    }
}

/// Sets the depth of one pixel.
pub fn set_depth(screen: &mut Screen, x: usize, y: usize, d: u32)
    requires
        old(screen).wf(),
        x < old(screen).width,
        y < old(screen).height,
    ensures
        final(screen).wf(),
        final(screen).color@ == old(screen).color@,
        final(screen)@ == old(screen)@.with_depth(x as int, y as int, d),
{
    proof {
        lemma_offset_in_range(x as int, y as int, screen.width as int, screen.height as int);
    }
    let stride: usize = screen.width;
    let offset: usize = y * stride + x;
    screen.depth[offset] = d;
}

/// The depth of one pixel.
pub fn get_depth(screen: &Screen, x: usize, y: usize) -> (d: u32)
    requires
        screen.wf(),
        x < screen.width,
        y < screen.height,
    ensures
        d == screen@.depth(x as int, y as int),
{
    proof {
        lemma_offset_in_range(x as int, y as int, screen.width as int, screen.height as int);
    }
    let pitch: usize = screen.width;
    let offset: usize = y * pitch + x;
    screen.depth[offset]
}

/// Resets every pixel to black.
pub fn clear_color(screen: &mut Screen)
    requires
        old(screen).wf(),
    ensures
        final(screen).wf(),
        final(screen).width == old(screen).width,
        final(screen).height == old(screen).height,
        final(screen).depth@ == old(screen).depth@,
        final(screen).color@ == Seq::new(old(screen).color@.len(), |i: int| 0u8),
{
    let n: usize = screen.color.len();
    let mut i: usize = 0;
    while i < n
        invariant
            i <= n,
            n == screen.color@.len(),
            screen.width == old(screen).width,
            screen.height == old(screen).height,
            screen.depth@ == old(screen).depth@,
            screen.color@.len() == old(screen).color@.len(),
            forall|k: int| 0 <= k < i ==> screen.color@[k] == 0,
        decreases n - i,
    {
        screen.color[i] = 0;
        i += 1;
    }
    proof {
        assert(screen.color@ =~= Seq::new(old(screen).color@.len(), |i: int| 0u8));
    }
}

/// Resets every depth to `DEPTH_CLEAR`.
pub fn clear_depth(screen: &mut Screen)
    requires
        old(screen).wf(),
    ensures
        final(screen).wf(),
        final(screen).width == old(screen).width,
        final(screen).height == old(screen).height,
        final(screen).color@ == old(screen).color@,
        final(screen).depth@ == Seq::new(old(screen).depth@.len(), |i: int| DEPTH_CLEAR),
{
    let n: usize = screen.depth.len();
    let mut i: usize = 0;
    while i < n
        invariant
            i <= n,
            n == screen.depth@.len(),
            screen.width == old(screen).width,
            screen.height == old(screen).height,
            screen.color@ == old(screen).color@,
            screen.depth@.len() == old(screen).depth@.len(),
            forall|k: int| 0 <= k < i ==> screen.depth@[k] == DEPTH_CLEAR,
        decreases n - i,
    {
        screen.depth[i] = DEPTH_CLEAR;
        i += 1;
    }
    proof {
        assert(screen.depth@ =~= Seq::new(old(screen).depth@.len(), |i: int| DEPTH_CLEAR));
    }
}

/// Sets the colour of one pixel, the colour given by value.
pub fn set_pixel(screen: &mut Screen, x: usize, y: usize, c: Color)
    requires
        old(screen).wf(),
        x < old(screen).width,
        y < old(screen).height,
    ensures
        final(screen).wf(),
        final(screen)@ == old(screen)@.with_pixel(x as int, y as int, c),
{
    set_color(screen, x, y, &c);
}

/// Fills the screen with a gradient: the red channel of a pixel is the low
/// byte of its column, the green channel the low byte of its row, and blue
/// is zero. Depths stay as they are.
pub fn draw_gradient(screen: &mut Screen)
    requires
        old(screen).wf(),
    ensures
        final(screen).wf(),
        final(screen)@.width == old(screen)@.width,
        final(screen)@.height == old(screen)@.height,
        final(screen)@.depths == old(screen)@.depths,
        forall|x: int, y: int|
            old(screen)@.on_screen(x, y) ==> #[trigger] final(screen)@.pixel(x, y) == (Color {
                r: (x % 256) as u8,
                g: (y % 256) as u8,
                b: 0,
            }),
{
    let ghost start = screen@;
    let mut y: usize = 0;
    while y < screen.height
        invariant
            screen.wf(),
            start.wf(),
            screen@.width == start.width,
            screen@.height == start.height,
            screen@.depths == start.depths,
            y <= screen.height,
            forall|px: int, py: int|
                start.on_screen(px, py) && py < y ==> #[trigger] screen@.pixel(px, py) == (Color {
                    r: (px % 256) as u8,
                    g: (py % 256) as u8,
                    b: 0,
                }),
        decreases screen.height - y,
    {
        let mut x: usize = 0;
        while x < screen.width
            invariant
                screen.wf(),
                start.wf(),
                screen@.width == start.width,
                screen@.height == start.height,
                screen@.depths == start.depths,
                y < screen.height,
                x <= screen.width,
                forall|px: int, py: int|
                    start.on_screen(px, py) && (py < y || (py == y && px < x))
                        ==> #[trigger] screen@.pixel(px, py) == (Color {
                        r: (px % 256) as u8,
                        g: (py % 256) as u8,
                        b: 0,
                    }),
            decreases screen.width - x,
        {
            let ghost before = screen@;
            let c = Color::new((x % 256) as u8, (y % 256) as u8, 0);
            set_color(screen, x, y, &c);
            proof {
                assert forall|px: int, py: int|
                    start.on_screen(px, py) && (py < y || (py == y && px < x + 1))
                    implies #[trigger] screen@.pixel(px, py) == (Color {
                    r: (px % 256) as u8,
                    g: (py % 256) as u8,
                    b: 0,
                }) by {
                    before.lemma_offsets_differ(x as int, y as int, px, py);
                    before.lemma_offsets_differ(px, py, x as int, y as int);
                    if px != x || py != y {
                        assert(screen@.pixel(px, py) == before.pixel(px, py));
                    }
                }
            }
            x += 1;
        }
        y += 1;
    }
}

} // verus!
