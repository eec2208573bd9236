//! A small raster image, four bytes a pixel: blue, green, red, and one that is unused.

use vstd::arithmetic::div_mod::lemma_fundamental_div_mod_converse;
use vstd::prelude::*;

verus! {

/// An opaque colour.
#[derive(Clone, Copy, Debug, PartialEq, Eq, Structural)]
pub struct Color {
    pub red: u8,
    pub green: u8,
    pub blue: u8,
}

impl Color {
    /// The colour with these parts.
    pub fn rgb(red: u8, green: u8, blue: u8) -> (color: Color)
        ensures
            color == (Color { red, green, blue }),
    {
        Color { red, green, blue }
    }
}

/// What a pixel holds.
#[derive(Clone, Copy, Debug, PartialEq, Eq, Structural)]
pub struct Pixel {
    pub blue: u8,
    pub green: u8,
    pub red: u8,
    pub unused: u8,
}

/// A pixel that shows `color`.
pub open spec fn solid(color: Color) -> Pixel {
    Pixel { blue: color.blue, green: color.green, red: color.red, unused: 0 }
}

/// One part of a colour laid over another with the given strength.
pub open spec fn mix(under: u8, over: u8, alpha: u8) -> u8 {
    ((under * (255 - alpha) + over * alpha) / 255) as u8
}

/// A pixel with `color` laid over it.
pub open spec fn blended(p: Pixel, color: Color, alpha: u8) -> Pixel {
    Pixel {
        blue: mix(p.blue, color.blue, alpha),
        green: mix(p.green, color.green, alpha),
        red: mix(p.red, color.red, alpha),
        unused: p.unused,
    }
}

/// Whether a point lies in a rectangle.
pub open spec fn in_rect(px: int, py: int, x: int, y: int, width: int, height: int) -> bool {
    x <= px < x + width && y <= py < y + height
}

/// Whether a point lies on the frame of a rectangle, drawn inwards.
pub open spec fn on_frame(
    px: int,
    py: int,
    x: int,
    y: int,
    width: int,
    height: int,
    thickness: int,
) -> bool {
    ||| in_rect(px, py, x, y, width, thickness)
    ||| in_rect(px, py, x, y + height - thickness, width, thickness)
    ||| in_rect(px, py, x, y, thickness, height)
    ||| in_rect(px, py, x + width - thickness, y, thickness, height)
}

/// How many pixels an image may have: the byte position of each has to fit in an `i32`.
pub const MAX_PIXELS: u32 = 0x2000_0000;

/// An image.
pub struct Canvas {
    width: i32,
    height: i32,
    pixels: Vec<u8>,
}

/// Whether an `i32` can hold `n`.
pub open spec fn fits(n: int) -> bool {
    i32::MIN <= n <= i32::MAX
}

proof fn lemma_offset(width: int, height: int, x: int, y: int)
    requires
        0 <= x < width,
        0 <= y < height,
    ensures
        0 <= y * width + x < width * height,
        0 <= y * width,
{
    assert(0 <= y * width) by (nonlinear_arith)
        requires
            0 <= y,
            0 <= width,
    ;
    assert(y * width + x < width * height) by (nonlinear_arith)
        requires
            x < width,
            y <= height - 1,
            0 <= width,
    ;
}

proof fn lemma_offset_injective(width: int, x: int, y: int, x2: int, y2: int)
    requires
        0 <= x < width,
        0 <= x2 < width,
        y * width + x == y2 * width + x2,
    ensures
        x == x2,
        y == y2,
{
    let n = y * width + x;
    lemma_fundamental_div_mod_converse(n, width, y, x);
    lemma_fundamental_div_mod_converse(n, width, y2, x2);
}

impl Canvas {
    /// The width of the image in pixels.
    pub closed spec fn wide(self) -> int {
        self.width as int
    }

    /// The height of the image in pixels.
    pub closed spec fn high(self) -> int {
        self.height as int
    }

    /// Whether the image holds four bytes for each pixel.
    pub closed spec fn wf(self) -> bool {
        &&& 0 <= self.width <= 0xffff
        &&& 0 <= self.height <= 0xffff
        &&& self.width * self.height <= MAX_PIXELS
        &&& self.pixels@.len() == 4 * (self.width * self.height)
    }

    /// Whether a point lies in the image.
    pub open spec fn covers(self, x: int, y: int) -> bool {
        0 <= x < self.wide() && 0 <= y < self.high()
    }

    /// The pixel at a point of the image.
    pub closed spec fn pixel(self, x: int, y: int) -> Pixel {
        let at = 4 * (y * self.width + x);
        Pixel {
            blue: self.pixels@[at],
            green: self.pixels@[at + 1],
            red: self.pixels@[at + 2],
            unused: self.pixels@[at + 3],
        }
    }

    /// The bytes of the image, row by row.
    pub closed spec fn raw(self) -> Seq<u8> {
        self.pixels@
    }

    /// Whether two images have the same size.
    pub open spec fn same_size(self, other: Canvas) -> bool {
        self.wide() == other.wide() && self.high() == other.high()
    }

    /// The bytes of the image, row by row, four for each pixel.
    pub fn bytes(&self) -> (bytes: &Vec<u8>)
        requires
            self.wf(),
        ensures
            bytes@ == self.raw(),
            bytes@.len() == 4 * (self.wide() * self.high()),
            forall|x: int, y: int|
                #![trigger self.pixel(x, y)]
                self.covers(x, y) ==> {
                    let at = 4 * (y * self.wide() + x);
                    self.pixel(x, y) == Pixel {
                        blue: bytes@[at],
                        green: bytes@[at + 1],
                        red: bytes@[at + 2],
                        unused: bytes@[at + 3],
                    }
                },
    {
        &self.pixels
    }

    /// The width of the image in pixels.
    pub fn width(&self) -> (width: i32)
        ensures
            width == self.wide(),
    {
        self.width
    }

    /// The height of the image in pixels.
    pub fn height(&self) -> (height: i32)
        ensures
            height == self.high(),
    {
        self.height
    }

    /// An image of one colour.
    pub fn new(width: u16, height: u16, background: Color) -> (canvas: Canvas)
        requires
            width * height <= MAX_PIXELS,
        ensures
            canvas.wf(),
            canvas.wide() == width,
            canvas.high() == height,
            forall|x: int, y: int|
                canvas.covers(x, y) ==> #[trigger] canvas.pixel(x, y) == solid(background),
    {
        let w: i32 = width as i32;
        let h: i32 = height as i32;
        assert(width * height >= 0) by (nonlinear_arith)
            requires
                width >= 0,
                height >= 0,
        ;
        let size: u32 = width as u32 * height as u32;
        let count: usize = size as usize * 4;
        let mut canvas = Canvas { width: w, height: h, pixels: vec![0u8; count] };
        canvas.fill_rect(0, 0, w, h, background);
        canvas
    }

    /// Sets one pixel; a point outside the image is ignored.
    pub fn set_pixel(&mut self, x: i32, y: i32, color: Color)
        requires
            old(self).wf(),
        ensures
            final(self).wf(),
            final(self).same_size(*old(self)),
            forall|px: int, py: int|
                final(self).covers(px, py) ==> #[trigger] final(self).pixel(px, py) == (if px == x
                    && py == y {
                    solid(color)
                } else {
                    old(self).pixel(px, py)
                }),
    {
        if x < 0 || y < 0 || x >= self.width || y >= self.height {
            return;
        }
        proof {
            lemma_offset(self.width as int, self.height as int, x as int, y as int);
        }
        let index: usize = ((y * self.width + x) * 4) as usize;
        self.pixels.set(index, color.blue);
        self.pixels.set(index + 1, color.green);
        self.pixels.set(index + 2, color.red);
        self.pixels.set(index + 3, 0);
        proof {
            let w = self.width as int;
            assert forall|px: int, py: int| self.covers(px, py) implies #[trigger] self.pixel(px, py)
                == (if px == x && py == y {
                solid(color)
            } else {
                old(self).pixel(px, py)
            }) by {
                lemma_offset(w, self.height as int, px, py);
                if !(px == x && py == y) {
                    if py * w + px == y * w + x {
                        lemma_offset_injective(w, px, py, x as int, y as int);
                    }
                }
            }
        }
    }

    /// Lays `color` over one pixel; a point outside the image is ignored.
    pub fn blend_pixel(&mut self, x: i32, y: i32, color: Color, alpha: u8)
        requires
            old(self).wf(),
        ensures
            final(self).wf(),
            final(self).same_size(*old(self)),
            forall|px: int, py: int|
                final(self).covers(px, py) ==> #[trigger] final(self).pixel(px, py) == (if px == x
                    && py == y {
                    blended(old(self).pixel(px, py), color, alpha)
                } else {
                    old(self).pixel(px, py)
                }),
    {
        if x < 0 || y < 0 || x >= self.width || y >= self.height {
            return;
        }
        proof {
            lemma_offset(self.width as int, self.height as int, x as int, y as int);
        }
        let index: usize = ((y * self.width + x) * 4) as usize;
        let blue = mix_part(self.pixels[index], color.blue, alpha);
        let green = mix_part(self.pixels[index + 1], color.green, alpha);
        let red = mix_part(self.pixels[index + 2], color.red, alpha);
        self.pixels.set(index, blue);
        self.pixels.set(index + 1, green);
        self.pixels.set(index + 2, red);
        proof {
            let w = self.width as int;
            assert forall|px: int, py: int| self.covers(px, py) implies #[trigger] self.pixel(px, py)
                == (if px == x && py == y {
                blended(old(self).pixel(px, py), color, alpha)
            } else {
                old(self).pixel(px, py)
            }) by {
                lemma_offset(w, self.height as int, px, py);
                if !(px == x && py == y) {
                    if py * w + px == y * w + x {
                        lemma_offset_injective(w, px, py, x as int, y as int);
                    }
                }
            }
        }
    }

    /// Fills the part of a rectangle that lies in the image.
    pub fn fill_rect(&mut self, x: i32, y: i32, width: i32, height: i32, color: Color)
        requires
            old(self).wf(),
            fits(x + width),
            fits(y + height),
        ensures
            final(self).wf(),
            final(self).same_size(*old(self)),
            forall|px: int, py: int|
                final(self).covers(px, py) ==> #[trigger] final(self).pixel(px, py) == (if in_rect(
                    px,
                    py,
                    x as int,
                    y as int,
                    width as int,
                    height as int,
                ) {
                    solid(color)
                } else {
                    old(self).pixel(px, py)
                }),
    {
        let x0 = clamp_to(x, self.width);
        let y0 = clamp_to(y, self.height);
        let x1 = clamp_to(x + width, self.width);
        let y1 = clamp_to(y + height, self.height);
        let mut py: i32 = y0;
        while py < y1
            invariant
                self.wf(),
                self.same_size(*old(self)),
                0 <= x0 <= self.wide(),
                0 <= x1 <= self.wide(),
                0 <= y0 <= self.high(),
                0 <= y1 <= self.high(),
                y0 <= py,
                py <= y1 || py == y0,
                forall|qx: int, qy: int|
                    self.covers(qx, qy) ==> #[trigger] self.pixel(qx, qy) == (if x0 <= qx < x1
                        && y0 <= qy < py {
                        solid(color)
                    } else {
                        old(self).pixel(qx, qy)
                    }),
            decreases y1 - py,
        {
            let mut px: i32 = x0;
            while px < x1
                invariant
                    self.wf(),
                    self.same_size(*old(self)),
                    0 <= x0 <= self.wide(),
                    0 <= x1 <= self.wide(),
                    0 <= y0 <= py < y1 <= self.high(),
                    x0 <= px,
                    px <= x1 || px == x0,
                    forall|qx: int, qy: int|
                        self.covers(qx, qy) ==> #[trigger] self.pixel(qx, qy) == (if (x0 <= qx < x1
                            && y0 <= qy < py) || (qy == py && x0 <= qx < px) {
                            solid(color)
                        } else {
                            old(self).pixel(qx, qy)
                        }),
                decreases x1 - px,
            {
                self.set_pixel(px, py, color);
                px += 1;
            }
            py += 1;
        }
    }

    /// Draws the frame of a rectangle inwards, at least one pixel thick.
    pub fn stroke_rect(
        &mut self,
        x: i32,
        y: i32,
        width: i32,
        height: i32,
        thickness: i32,
        color: Color,
    )
        requires
            old(self).wf(),
            fits(x + width),
            fits(y + height),
            fits(x + frame_thickness(thickness as int)),
            fits(y + frame_thickness(thickness as int)),
            fits(x + width - frame_thickness(thickness as int)),
            fits(y + height - frame_thickness(thickness as int)),
        ensures
            final(self).wf(),
            final(self).same_size(*old(self)),
            forall|px: int, py: int|
                final(self).covers(px, py) ==> #[trigger] final(self).pixel(px, py) == (if on_frame(
                    px,
                    py,
                    x as int,
                    y as int,
                    width as int,
                    height as int,
                    frame_thickness(thickness as int),
                ) {
                    solid(color)
                } else {
                    old(self).pixel(px, py)
                }),
    {
        let t: i32 = if thickness < 1 {
            1
        } else {
            thickness
        };
        self.fill_rect(x, y, width, t, color);
        self.fill_rect(x, y + height - t, width, t, color);
        self.fill_rect(x, y, t, height, color);
        self.fill_rect(x + width - t, y, t, height, color);
    }

    /// Draws a horizontal line, one pixel high, from `x0` up to but not including `x1`.
    pub fn hline(&mut self, x0: i32, x1: i32, y: i32, color: Color)
        requires
            old(self).wf(),
            fits(x1 - x0),
            fits(y + 1),
        ensures
            final(self).wf(),
            final(self).same_size(*old(self)),
            forall|px: int, py: int|
                final(self).covers(px, py) ==> #[trigger] final(self).pixel(px, py) == (if x0 <= px
                    < x1 && py == y {
                    solid(color)
                } else {
                    old(self).pixel(px, py)
                }),
    {
        self.fill_rect(x0, y, x1 - x0, 1, color);
    }
}

/// The thickness of a frame: at least one pixel.
pub open spec fn frame_thickness(thickness: int) -> int {
    if thickness < 1 {
        1
    } else {
        thickness
    }
}

fn clamp_to(n: i32, high: i32) -> (c: i32)
    requires
        0 <= high,
    ensures
        c == (if n < 0 {
            0
        } else if n > high {
            high as int
        } else {
            n as int
        }),
{
    if n < 0 {
        0
    } else if n > high {
        high
    } else {
        n
    }
}

fn mix_part(under: u8, over: u8, alpha: u8) -> (part: u8)
    ensures
        part == mix(under, over, alpha),
{
    let a: u16 = alpha as u16;
    let inverse: u16 = 255 - a;
    proof {
        assert(under * inverse <= 255 * inverse) by (nonlinear_arith)
            requires
                0 <= under <= 255,
                0 <= inverse,
        ;
        assert(over * a <= 255 * a) by (nonlinear_arith)
            requires
                0 <= over <= 255,
                0 <= a,
        ;
        assert(under * inverse >= 0 && over * a >= 0) by (nonlinear_arith)
            requires
                0 <= under,
                0 <= over,
                0 <= inverse,
                0 <= a,
        ;
    }
    ((under as u16 * inverse + over as u16 * a) / 255) as u8
}

/// One letter of a text: its strength at each point of a small grid, row by row, the
/// column where the grid begins, and its upper edge against the base line.
pub struct Glyph {
    pub bitmap: Vec<u8>,
    pub start_x: i32,
    pub top: i32,
    pub width: u16,
    pub height: u16,
}

impl Glyph {
    /// Whether the grid is complete and an `i32` can hold its columns and its lower edge.
    pub open spec fn wf(self) -> bool {
        &&& self.bitmap@.len() >= self.width * self.height
        &&& self.start_x + self.width - 1 <= i32::MAX
        &&& fits(self.top + self.height)
    }

    /// Whether the grid is complete and an `i32` can hold its columns and its lower edge.
    pub fn is_drawable(&self) -> (yes: bool)
        ensures
            yes == self.wf(),
    {
        assert(self.width * self.height <= 0xffff * 0xffff) by (nonlinear_arith)
            requires
                0 <= self.width <= 0xffff,
                0 <= self.height <= 0xffff,
        ;
        assert(self.width * self.height >= 0) by (nonlinear_arith)
            requires
                0 <= self.width,
                0 <= self.height,
        ;
        let cells: u64 = self.width as u64 * self.height as u64;
        self.bitmap.len() as u64 >= cells && self.start_x as i64 + self.width as i64 - 1
            <= i32::MAX as i64 && self.top as i64 + self.height as i64 <= i32::MAX as i64
    }

    /// How strongly this letter covers a point, when its base line is at `base`.
    pub open spec fn cover(self, base: int, px: int, py: int) -> u8 {
        let column = px - self.start_x;
        let row = py - (base + self.top);
        if 0 <= column < self.width && 0 <= row < self.height {
            self.bitmap@[row * self.width + column]
        } else {
            0
        }
    }
}

/// Whether every letter of a text can be drawn.
pub open spec fn drawable(text: Seq<Glyph>) -> bool {
    forall|i: int| 0 <= i < text.len() ==> (#[trigger] text[i]).wf()
}

/// A pixel after one letter was laid over it.
pub open spec fn lettered(p: Pixel, letter: Glyph, base: int, px: int, py: int, color: Color) -> Pixel {
    let alpha = letter.cover(base, px, py);
    if alpha == 0 {
        p
    } else {
        blended(p, color, alpha)
    }
}

/// A pixel after the letters of a text were laid over it, one after the other.
pub open spec fn written(
    p: Pixel,
    text: Seq<Glyph>,
    base: int,
    px: int,
    py: int,
    color: Color,
) -> Pixel
    decreases text.len(),
{
    if text.len() == 0 {
        p
    } else {
        lettered(
            written(p, text.drop_last(), base, px, py, color),
            text.last(),
            base,
            px,
            py,
            color,
        )
    }
}

/// The highest upper edge among the letters of a text.
pub open spec fn text_top(text: Seq<Glyph>) -> int
    decreases text.len(),
{
    if text.len() <= 1 {
        text[0].top as int
    } else if text.last().top < text_top(text.drop_last()) {
        text.last().top as int
    } else {
        text_top(text.drop_last())
    }
}

/// The lowest lower edge among the letters of a text.
pub open spec fn text_bottom(text: Seq<Glyph>) -> int
    decreases text.len(),
{
    if text.len() <= 1 {
        text[0].top + text[0].height
    } else if text.last().top + text.last().height > text_bottom(text.drop_last()) {
        text.last().top + text.last().height
    } else {
        text_bottom(text.drop_last())
    }
}

/// Half of `n`, rounded towards zero.
pub open spec fn half(n: int) -> int {
    if n >= 0 {
        n / 2
    } else {
        -((-n) / 2)
    }
}

pub(crate) fn halve(n: i32) -> (h: i32)
    ensures
        h == half(n as int),
{
    if n >= 0 {
        n / 2
    } else if n == i32::MIN {
        -0x4000_0000
    } else {
        -((-n) / 2)
    }
}

/// Where the base line of a text lies when the text is centred at `center_y`.
pub open spec fn base_line(text: Seq<Glyph>, center_y: int) -> int {
    center_y - half(text_top(text) + text_bottom(text))
}

/// Whether an `i32` can hold every row of a letter whose base line is at `base`.
pub open spec fn rows_fit(letter: Glyph, base: int) -> bool {
    fits(base + letter.top) && base + letter.top + letter.height - 1 <= i32::MAX
}

/// Whether a text can be written so that it is centred at `center_y`: every letter can be
/// drawn, and an `i32` can hold the base line and every row of a letter.
pub open spec fn writable(text: Seq<Glyph>, center_y: int) -> bool {
    &&& drawable(text)
    &&& text.len() > 0 ==> {
        &&& fits(text_top(text) + text_bottom(text))
        &&& fits(base_line(text, center_y))
        &&& forall|i: int|
            0 <= i < text.len() ==> #[trigger] rows_fit(text[i], base_line(text, center_y))
    }
}

/// The highest upper edge and the lowest lower edge of the letters of a text.
fn extent(text: &Vec<Glyph>) -> (edges: (i64, i64))
    requires
        text@.len() > 0,
    ensures
        edges.0 == text_top(text@),
        edges.1 == text_bottom(text@),
        fits(edges.0 as int),
        i32::MIN <= edges.1 <= i32::MAX + 0xffff,
        drawable(text@) ==> fits(edges.1 as int),
{
    let mut min_y: i64 = text[0].top as i64;
    let mut max_y: i64 = text[0].top as i64 + text[0].height as i64;
    let mut i: usize = 1;
    assert(text@.take(1)[0] == text@[0]);
    while i < text.len()
        invariant
            1 <= i <= text.len(),
            min_y == text_top(text@.take(i as int)),
            max_y == text_bottom(text@.take(i as int)),
            fits(min_y as int),
            i32::MIN <= max_y <= i32::MAX + 0xffff,
            drawable(text@) ==> fits(max_y as int),
        decreases text.len() - i,
    {
        let top: i64 = text[i].top as i64;
        let bottom: i64 = text[i].top as i64 + text[i].height as i64;
        assert(text@.take(i + 1).drop_last() =~= text@.take(i as int));
        if top < min_y {
            min_y = top;
        }
        if bottom > max_y {
            max_y = bottom;
        }
        i += 1;
    }
    assert(text@.take(i as int) =~= text@);
    (min_y, max_y)
}

fn in_range(n: i64) -> (yes: bool)
    ensures
        yes == fits(n as int),
{
    i32::MIN as i64 <= n && n <= i32::MAX as i64
}

/// Whether a text can be written so that it is centred at `center_y`.
pub fn is_writable(text: &Vec<Glyph>, center_y: i32) -> (yes: bool)
    ensures
        yes == writable(text@, center_y as int),
{
    let mut i: usize = 0;
    while i < text.len()
        invariant
            i <= text.len(),
            forall|k: int| 0 <= k < i ==> (#[trigger] text@[k]).wf(),
        decreases text.len() - i,
    {
        if !text[i].is_drawable() {
            assert(!text@[i as int].wf());
            return false;
        }
        i += 1;
    }
    if text.len() == 0 {
        return true;
    }
    let (min_y, max_y) = extent(text);
    if !in_range(min_y + max_y) {
        return false;
    }
    let base: i64 = center_y as i64 - halve((min_y + max_y) as i32) as i64;
    if !in_range(base) {
        return false;
    }
    let mut k: usize = 0;
    while k < text.len()
        invariant
            k <= text.len(),
            base == base_line(text@, center_y as int),
            fits(base as int),
            forall|j: int|
                0 <= j < k ==> #[trigger] rows_fit(text@[j], base_line(text@, center_y as int)),
        decreases text.len() - k,
    {
        let top: i64 = base + text[k].top as i64;
        if !in_range(top) || top + text[k].height as i64 - 1 > i32::MAX as i64 {
            assert(!rows_fit(text@[k as int], base_line(text@, center_y as int)));
            return false;
        }
        k += 1;
    }
    true
}

impl Canvas {
    fn draw_letter(&mut self, letter: &Glyph, base: i32, color: Color)
        requires
            old(self).wf(),
            letter.wf(),
            rows_fit(*letter, base as int),
        ensures
            final(self).wf(),
            final(self).same_size(*old(self)),
            forall|px: int, py: int|
                final(self).covers(px, py) ==> #[trigger] final(self).pixel(px, py) == lettered(
                    old(self).pixel(px, py),
                    *letter,
                    base as int,
                    px,
                    py,
                    color,
                ),
    {
        let w: i32 = letter.width as i32;
        let h: i32 = letter.height as i32;
        let start_y: i32 = base + letter.top;
        let mut row: i32 = 0;
        while row < h
            invariant
                self.wf(),
                self.same_size(*old(self)),
                letter.wf(),
                w == letter.width,
                h == letter.height,
                start_y == base + letter.top,
                rows_fit(*letter, base as int),
                0 <= row <= h,
                forall|px: int, py: int|
                    self.covers(px, py) ==> #[trigger] self.pixel(px, py) == (if py < start_y + row {
                        lettered(old(self).pixel(px, py), *letter, base as int, px, py, color)
                    } else {
                        old(self).pixel(px, py)
                    }),
            decreases h - row,
        {
            let mut column: i32 = 0;
            while column < w
                invariant
                    self.wf(),
                    self.same_size(*old(self)),
                    letter.wf(),
                    w == letter.width,
                    h == letter.height,
                    start_y == base + letter.top,
                    rows_fit(*letter, base as int),
                    0 <= row < h,
                    0 <= column <= w,
                    forall|px: int, py: int|
                        self.covers(px, py) ==> #[trigger] self.pixel(px, py) == (if py < start_y
                            + row || (py == start_y + row && px < letter.start_x + column) {
                            lettered(old(self).pixel(px, py), *letter, base as int, px, py, color)
                        } else {
                            old(self).pixel(px, py)
                        }),
                decreases w - column,
            {
                proof {
                    lemma_offset(w as int, h as int, column as int, row as int);
                    assert(w * h == h * w) by (nonlinear_arith);
                    assert(row * w <= 0xffff * 0xffff) by (nonlinear_arith)
                        requires
                            0 <= row <= 0xffff,
                            0 <= w <= 0xffff,
                    ;
                }
                let cell: u64 = row as u64 * w as u64 + column as u64;
                let alpha: u8 = letter.bitmap[cell as usize];
                let x: i32 = letter.start_x + column;
                let y: i32 = start_y + row;
                assert(letter.cover(base as int, x as int, y as int) == alpha);
                if alpha != 0 {
                    self.blend_pixel(x, y, color, alpha);
                }
                column += 1;
            }
            row += 1;
        }
    }

    /// Writes a text so that it is centred at the height `center_y`. The letters know the
    /// columns where they begin.
    pub fn text_centered(&mut self, text: &Vec<Glyph>, center_y: i32, color: Color)
        requires
            old(self).wf(),
            writable(text@, center_y as int),
        ensures
            final(self).wf(),
            final(self).same_size(*old(self)),
            forall|px: int, py: int|
                final(self).covers(px, py) ==> #[trigger] final(self).pixel(px, py) == written(
                    old(self).pixel(px, py),
                    text@,
                    base_line(text@, center_y as int),
                    px,
                    py,
                    color,
                ),
    {
        if text.len() == 0 {
            return;
        }
        let (min_y, max_y) = extent(text);
        let base: i32 = center_y - halve(min_y as i32 + max_y as i32);
        let mut k: usize = 0;
        assert(text@.take(0) =~= Seq::empty());
        while k < text.len()
            invariant
                k <= text.len(),
                self.wf(),
                self.same_size(*old(self)),
                writable(text@, center_y as int),
                base == base_line(text@, center_y as int),
                forall|px: int, py: int|
                    self.covers(px, py) ==> #[trigger] self.pixel(px, py) == written(
                        old(self).pixel(px, py),
                        text@.take(k as int),
                        base as int,
                        px,
                        py,
                        color,
                    ),
            decreases text.len() - k,
        {
            assert(text@.take(k + 1).drop_last() =~= text@.take(k as int));
            assert(text@.take(k + 1).last() == text@[k as int]);
            assert(rows_fit(text@[k as int], base as int));
            self.draw_letter(&text[k], base, color);
            k += 1;
        }
        assert(text@.take(k as int) =~= text@);
    }
}

/// Whatever is drawn over a pixel with full strength hides it, and what is drawn with no
/// strength leaves it alone.
pub proof fn law_blending_ends(p: Pixel, color: Color)
    ensures
        blended(p, color, 255) == (Pixel { unused: p.unused, ..solid(color) }),
        blended(p, color, 0) == p,
{
    lemma_mix_ends(p.blue, color.blue);
    lemma_mix_ends(p.green, color.green);
    lemma_mix_ends(p.red, color.red);
}

proof fn lemma_mix_ends(under: u8, over: u8)
    ensures
        mix(under, over, 255) == over,
        mix(under, over, 0) == under,
{
    assert(under * (255 - 255int) == 0);
    assert(over * 0 == 0);
    assert((over * 255) / 255 == over);
    assert((under * 255) / 255 == under);
}

/// A frame is what lies in the rectangle and not in the smaller one that the frame surrounds.
pub proof fn law_frame_is_the_edge(
    px: int,
    py: int,
    x: int,
    y: int,
    width: int,
    height: int,
    thickness: int,
)
    requires
        0 <= thickness <= width,
        thickness <= height,
    ensures
        on_frame(px, py, x, y, width, height, thickness) <==> in_rect(px, py, x, y, width, height)
            && !in_rect(
            px,
            py,
            x + thickness,
            y + thickness,
            width - 2 * thickness,
            height - 2 * thickness,
        ),
        frame_thickness(thickness) >= 1,
        thickness >= 1 ==> frame_thickness(thickness) == thickness,
{
}

/// A rectangle holds its corner, and as many columns and rows as it is wide and high.
pub proof fn law_rectangle_has_its_size(px: int, py: int, x: int, y: int, width: int, height: int)
    ensures
        in_rect(px, py, x, y, width, height) <==> 0 <= px - x < width && 0 <= py - y < height,
{
}

/// A blended part lies between the two parts, no nearer to the new one than its strength says.
pub proof fn law_blending_lies_between(under: u8, over: u8, alpha: u8)
    ensures
        under <= over ==> under <= mix(under, over, alpha) <= over,
        over <= under ==> over <= mix(under, over, alpha) <= under,
        255 * mix(under, over, alpha) <= under * (255 - alpha) + over * alpha < 255 * (mix(
            under,
            over,
            alpha,
        ) + 1),
{
    let (u, o, a) = (under as int, over as int, alpha as int);
    let n = u * (255 - a) + o * a;
    assert(0 <= n <= 255 * 255 && (u <= o ==> 255 * u <= n <= 255 * o) && (o <= u ==> 255 * o <= n
        <= 255 * u)) by (nonlinear_arith)
        requires
            n == u * (255 - a) + o * a,
            0 <= u <= 255,
            0 <= o <= 255,
            0 <= a <= 255,
    ;
}

/// The upper edge of a text is that of one of its letters, and no letter begins above it; the
/// lower edge likewise.
pub proof fn law_edges_are_those_of_letters(text: Seq<Glyph>, i: int)
    requires
        0 <= i < text.len(),
    ensures
        text_top(text) <= text[i].top,
        text[i].top + text[i].height <= text_bottom(text),
        exists|j: int| 0 <= j < text.len() && text_top(text) == (#[trigger] text[j]).top,
        exists|j: int|
            0 <= j < text.len() && text_bottom(text) == (#[trigger] text[j]).top + text[j].height,
    decreases text.len(),
{
    let front = text.drop_last();
    let last = text.len() - 1;
    assert(text[last] == text.last());
    if text.len() > 1 {
        law_edges_are_those_of_letters(
            front,
            if i < last {
                i
            } else {
                0
            },
        );
        let j = choose|j: int| 0 <= j < front.len() && text_top(front) == (#[trigger] front[j]).top;
        assert(front[j] == text[j]);
        let k = choose|k: int|
            0 <= k < front.len() && text_bottom(front) == (#[trigger] front[k]).top
                + front[k].height;
        assert(front[k] == text[k]);
        if i < last {
            assert(front[i] == text[i]);
        }
    } else {
        assert(text_top(text) == text[0].top);
    }
}

/// A text is centred: the middle of its upper and its lower edge lies at the height that was
/// asked for, up to half a pixel.
pub proof fn law_text_is_centred(text: Seq<Glyph>, center_y: int)
    ensures
        ({
            let base = base_line(text, center_y);
            -1 <= (base + text_top(text)) + (base + text_bottom(text)) - 2 * center_y <= 1
        }),
{
}

/// A point that no letter covers keeps its pixel; a point that the last letter covers with full
/// strength takes the colour.
pub proof fn law_letters_colour_what_they_cover(
    p: Pixel,
    letter: Glyph,
    base: int,
    px: int,
    py: int,
    color: Color,
)
    ensures
        letter.cover(base, px, py) == 0 ==> lettered(p, letter, base, px, py, color) == p,
        letter.cover(base, px, py) == 255 ==> lettered(p, letter, base, px, py, color) == (Pixel {
            unused: p.unused,
            ..solid(color)
        }),
        !in_rect(
            px,
            py,
            letter.start_x as int,
            base + letter.top,
            letter.width as int,
            letter.height as int,
        ) ==> letter.cover(base, px, py) == 0,
        solid(color) == (Pixel {
            blue: color.blue,
            green: color.green,
            red: color.red,
            unused: 0,
        }),
{
    law_blending_ends(p, color);
}

} // verus!
