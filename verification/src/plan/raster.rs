//! The pixel backend's integer core: an RGBA image, source-over blending,
//! and the clip rectangle every pixel write goes through.

use vstd::prelude::*;

use super::palette::Rgba8;

verus! {

/// A row-major image of straight RGBA pixels.
pub struct Image {
    width: u32,
    height: u32,
    pixels: Vec<Rgba8>,
}

/// Whether `(x, y)` is a pixel of a `width` x `height` image.
pub open spec fn in_image(width: int, height: int, x: int, y: int) -> bool {
    0 <= x < width && 0 <= y < height
}

proof fn lemma_index_in_range(w: int, h: int, x: int, y: int)
    requires
        in_image(w, h, x, y),
    ensures
        0 <= y * w + x < w * h,
{
    assert(y * w + x < (y + 1) * w) by (nonlinear_arith)
        requires 0 <= x < w, 0 <= y;
    assert((y + 1) * w <= h * w) by (nonlinear_arith)
        requires y + 1 <= h, 0 <= w;
    assert(0 <= y * w) by (nonlinear_arith)
        requires 0 <= y, 0 <= w;
}

proof fn lemma_index_injective(w: int, x1: int, y1: int, x2: int, y2: int)
    requires
        0 <= x1 < w,
        0 <= x2 < w,
        0 <= y1,
        0 <= y2,
        y1 * w + x1 == y2 * w + x2,
    ensures
        x1 == x2 && y1 == y2,
{
    if y1 < y2 {
        assert((y1 + 1) * w <= y2 * w) by (nonlinear_arith)
            requires y1 + 1 <= y2, 0 <= w;
        assert((y1 + 1) * w == y1 * w + w) by (nonlinear_arith);
    } else if y2 < y1 {
        assert((y2 + 1) * w <= y1 * w) by (nonlinear_arith)
            requires y2 + 1 <= y1, 0 <= w;
        assert((y2 + 1) * w == y2 * w + w) by (nonlinear_arith);
    }
}

impl Image {
    /// Width in pixels.
    pub closed spec fn spec_width(&self) -> int {
        self.width as int
    }

    /// Height in pixels.
    pub closed spec fn spec_height(&self) -> int {
        self.height as int
    }

    /// The pixel at `(x, y)`.
    pub closed spec fn pixel(&self, x: int, y: int) -> Rgba8 {
        self.pixels@[y * self.width + x]
    }

    /// The sizes fit the `i32` pixel coordinates used for drawing, and the
    /// pixels are all there.
    pub closed spec fn wf(&self) -> bool {
        &&& self.width <= i32::MAX
        &&& self.height <= i32::MAX
        &&& self.width * self.height * 4 <= usize::MAX
        &&& self.pixels@.len() == self.width * self.height
    }

    /// A `width` x `height` image with every pixel set to `c`.
    pub fn filled(width: u32, height: u32, c: Rgba8) -> (r: Image)
        requires
            width <= i32::MAX,
            height <= i32::MAX,
            width * height * 4 <= usize::MAX,
        ensures
            r.wf(),
            r.spec_width() == width,
            r.spec_height() == height,
            forall|x: int, y: int| in_image(width as int, height as int, x, y) ==> #[trigger] r.pixel(x, y) == c,
    {
        let n: usize = (width as usize) * (height as usize);
        let mut pixels: Vec<Rgba8> = Vec::with_capacity(n);
        let mut i: usize = 0;
        while i < n
            invariant
                i <= n,
                pixels@.len() == i,
                forall|j: int| 0 <= j < i ==> #[trigger] pixels@[j] == c,
            decreases n - i,
        {
            pixels.push(c);
            i = i + 1;
        }
        let r = Image { width, height, pixels };
        proof {
            assert forall|x: int, y: int| in_image(width as int, height as int, x, y) implies #[trigger] r.pixel(x, y) == c by {
                lemma_index_in_range(width as int, height as int, x, y);
            }
        }
        r
    }

    /// Width in pixels.
    pub fn width(&self) -> (r: u32)
        ensures
            r == self.spec_width(),
    {
        self.width
    }

    /// Height in pixels.
    pub fn height(&self) -> (r: u32)
        ensures
            r == self.spec_height(),
    {
        self.height
    }

    /// The pixel at `(x, y)`.
    pub fn get_pixel(&self, x: u32, y: u32) -> (r: Rgba8)
        requires
            self.wf(),
            in_image(self.spec_width(), self.spec_height(), x as int, y as int),
        ensures
            r == self.pixel(x as int, y as int),
    {
        proof {
            lemma_index_in_range(self.width as int, self.height as int, x as int, y as int);
        }
        self.pixels[(y as usize) * (self.width as usize) + (x as usize)]
    }

    /// The pixels as row-major RGBA bytes, four per pixel.
    pub closed spec fn raw(&self) -> Seq<u8> {
        Seq::new((4 * self.pixels@.len()) as nat, |i: int| self.pixels@[i / 4][i % 4])
    }

    /// The pixels as row-major RGBA bytes, four per pixel.
    pub fn to_raw(&self) -> (r: Vec<u8>)
        requires
            self.wf(),
        ensures
            r@ == self.raw(),
            r@.len() == 4 * self.spec_width() * self.spec_height(),
            forall|x: int, y: int, k: int| in_image(self.spec_width(), self.spec_height(), x, y) && 0 <= k < 4 ==>
                r@[4 * (y * self.spec_width() + x) + k] == #[trigger] self.pixel(x, y)[k],
    {
        proof {
            lemma_raw_is_row_major(*self);
        }
        let n = self.pixels.len();
        let mut out: Vec<u8> = Vec::with_capacity(4 * n);
        let mut i: usize = 0;
        while i < n
            invariant
                self.wf(),
                n == self.pixels@.len(),
                i <= n,
                out@ =~= Seq::new((4 * i) as nat, |k: int| self.pixels@[k / 4][k % 4]),
            decreases n - i,
        {
            let p = self.pixels[i];
            out.push(p[0]);
            out.push(p[1]);
            out.push(p[2]);
            out.push(p[3]);
            i = i + 1;
        }
        proof {
            let (w, h) = (self.width as int, self.height as int);
            assert(4 * w * h == 4 * (w * h)) by (nonlinear_arith);
        }
        out
    }

    /// Overwrites the pixel at `(x, y)` with `c`.
    pub fn set_pixel(&mut self, x: u32, y: u32, c: Rgba8)
        requires
            old(self).wf(),
            in_image(old(self).spec_width(), old(self).spec_height(), x as int, y as int),
        ensures
            final(self).wf(),
            final(self).spec_width() == old(self).spec_width(),
            final(self).spec_height() == old(self).spec_height(),
            forall|px: int, py: int| in_image(old(self).spec_width(), old(self).spec_height(), px, py) ==>
                #[trigger] final(self).pixel(px, py) == if px == x && py == y { c } else { old(self).pixel(px, py) },
    {
        proof {
            lemma_index_in_range(self.width as int, self.height as int, x as int, y as int);
        }
        let i = (y as usize) * (self.width as usize) + (x as usize);
        self.pixels.set(i, c);
        proof {
            assert forall|px: int, py: int| in_image(old(self).spec_width(), old(self).spec_height(), px, py) implies
                #[trigger] self.pixel(px, py) == if px == x && py == y { c } else { old(self).pixel(px, py) } by {
                lemma_index_in_range(self.width as int, self.height as int, px, py);
                if py * self.width + px == i {
                    lemma_index_injective(self.width as int, px, py, x as int, y as int);
                }
            }
        }
    }
}

/// The raw bytes are the pixels row by row, top row first and left to right
/// within a row, four bytes (red, green, blue, alpha) per pixel: byte
/// `4 * (y * width + x) + k` is channel `k` of the pixel at `(x, y)`.
pub proof fn lemma_raw_is_row_major(img: Image)
    requires
        img.wf(),
    ensures
        img.raw().len() == 4 * img.spec_width() * img.spec_height(),
        forall|x: int, y: int, k: int| in_image(img.spec_width(), img.spec_height(), x, y) && 0 <= k < 4 ==>
            img.raw()[4 * (y * img.spec_width() + x) + k] == #[trigger] img.pixel(x, y)[k],
{
    let (w, h) = (img.width as int, img.height as int);
    assert(4 * w * h == 4 * (w * h)) by (nonlinear_arith);
    assert forall|x: int, y: int, k: int| in_image(w, h, x, y) && 0 <= k < 4 implies
        img.raw()[4 * (y * w + x) + k] == #[trigger] img.pixel(x, y)[k] by {
        lemma_index_in_range(w, h, x, y);
        let i = y * w + x;
        assert((4 * i + k) / 4 == i);
        assert((4 * i + k) % 4 == k);
    }
}

/// Source-over output alpha for source alpha `a` over destination alpha `d`.
pub open spec fn over_alpha(a: int, d: int) -> int {
    a + d * (255 - a) / 255
}

/// Source-over on straight alpha for one colour channel: source value `s`
/// at alpha `a` over destination value `p` at alpha `d`, truncated to a byte.
pub open spec fn over_channel(s: int, a: int, p: int, d: int) -> u8 {
    let oa = over_alpha(a, d);
    if oa == 0 { 0 } else { ((s * a + p * d * (255 - a) / 255) / oa) as u8 }
}

/// `c` blended source-over onto the destination pixel `dst`.
pub open spec fn blend_over(dst: Rgba8, c: Rgba8) -> Rgba8 {
    [
        over_channel(c[0] as int, c[3] as int, dst[0] as int, dst[3] as int),
        over_channel(c[1] as int, c[3] as int, dst[1] as int, dst[3] as int),
        over_channel(c[2] as int, c[3] as int, dst[2] as int, dst[3] as int),
        over_alpha(c[3] as int, dst[3] as int) as u8,
    ]
}

proof fn lemma_over_bounds(a: int, d: int, p: int)
    requires
        0 <= a <= 255,
        0 <= d <= 255,
        0 <= p <= 255,
    ensures
        0 <= d * (255 - a) <= 65025,
        0 <= p * d <= 65025,
        0 <= p * d * (255 - a) <= 16581375,
        0 <= over_alpha(a, d) <= 255,
{
    assert(p * d * (255 - a) == (p * d) * (255 - a));
    assert(0 <= d * (255 - a) <= 255 * 255) by (nonlinear_arith)
        requires 0 <= a <= 255, 0 <= d <= 255;
    assert(0 <= p * d <= 255 * 255) by (nonlinear_arith)
        requires 0 <= d <= 255, 0 <= p <= 255;
    assert(0 <= p * d * (255 - a) <= 255 * (255 * 255)) by (nonlinear_arith)
        requires 0 <= a <= 255, 0 <= d <= 255, 0 <= p <= 255;
    assert(d * (255 - a) / 255 <= 255 - a) by (nonlinear_arith)
        requires 0 <= a <= 255, 0 <= d <= 255;
}

fn over_channel_exec(s: u8, a: u32, p: u8, d: u32, out_a: u32) -> (r: u8)
    requires
        a <= 255,
        d <= 255,
        out_a == over_alpha(a as int, d as int),
    ensures
        r == over_channel(s as int, a as int, p as int, d as int),
{
    proof {
        lemma_over_bounds(a as int, d as int, p as int);
        assert(s as int * a as int <= 65025) by (nonlinear_arith)
            requires s <= 255, a <= 255;
    }
    if out_a == 0 {
        0
    } else {
        let v: u32 = (s as u32 * a + p as u32 * d * (255 - a) / 255) / out_a;
        (#[verifier::truncate] (v as u8))
    }
}

/// An opaque colour replaces what is under it.
pub proof fn lemma_opaque_source_replaces(dst: Rgba8, c: Rgba8)
    requires
        c[3] == 255,
    ensures
        blend_over(dst, c) == c,
{
    assert(dst[3] as int * (255 - 255) / 255 == 0);
    assert forall|s: int, p: int| 0 <= s <= 255 && 0 <= p <= 255 implies
        over_channel(s, 255, p, dst[3] as int) == s by {
        assert(p * dst[3] as int * 0 == 0) by (nonlinear_arith);
        assert((s * 255) / 255 == s) by (nonlinear_arith);
    }
    assert(blend_over(dst, c) =~= c);
}

/// Paint over an opaque pixel leaves it opaque.
pub proof fn lemma_opaque_destination_stays_opaque(dst: Rgba8, c: Rgba8)
    requires
        dst[3] == 255,
    ensures
        blend_over(dst, c)[3] == 255,
{
    let a = c[3] as int;
    assert(255 * (255 - a) / 255 == 255 - a) by (nonlinear_arith)
        requires 0 <= a <= 255;
}

/// Paint over an opaque pixel is the usual linear interpolation between the
/// two colours by the paint's alpha.
pub proof fn lemma_opaque_destination_is_lerp(s: u8, a: u8, p: u8)
    ensures
        over_channel(s as int, a as int, p as int, 255) == ((s as int * a as int + p as int * (255 - a as int)) / 255) as u8,
{
    let (s, a, p) = (s as int, a as int, p as int);
    assert(255 * (255 - a) / 255 == 255 - a) by (nonlinear_arith)
        requires 0 <= a <= 255;
    assert(p * 255 * (255 - a) / 255 == p * (255 - a)) by (nonlinear_arith)
        requires 0 <= a <= 255, 0 <= p <= 255;
}

/// Source-over composes transparency: what lets light through after the blend
/// is what the paint lets through times what the pixel let through, up to the
/// rounding of one division by 255. So the result is at least as opaque as
/// either of the two.
pub proof fn lemma_over_alpha_composes_transparency(dst: Rgba8, c: Rgba8)
    ensures
        (255 - c[3] as int) * (255 - dst[3] as int) <= 255 * (255 - blend_over(dst, c)[3] as int),
        255 * (255 - blend_over(dst, c)[3] as int) <= (255 - c[3] as int) * (255 - dst[3] as int) + 254,
        blend_over(dst, c)[3] >= c[3],
        blend_over(dst, c)[3] >= dst[3],
{
    let a = c[3] as int;
    let d = dst[3] as int;
    lemma_over_bounds(a, d, 0);
    let x = d * (255 - a);
    let q = x / 255;
    assert(255 * q <= x && x < 255 * q + 255);
    assert((255 - a) * (255 - d) == 255 * (255 - a) - x) by (nonlinear_arith)
        requires x == d * (255 - a);
    assert(blend_over(dst, c)[3] as int == a + q);
    assert(255 * (d - a) <= x) by (nonlinear_arith)
        requires x == d * (255 - a), 0 <= a <= 255, 0 <= d <= 255;
}

/// Paint over a fully transparent pixel keeps the paint's own colour and
/// alpha.
pub proof fn lemma_transparent_destination_takes_source(dst: Rgba8, c: Rgba8)
    requires
        dst[3] == 0,
        c[3] != 0,
    ensures
        blend_over(dst, c) == c,
{
    let a = c[3] as int;
    assert forall|s: int, p: int| 0 <= s <= 255 && 0 <= p <= 255 implies
        over_channel(s, a, p, 0) == s by {
        assert(p * 0 * (255 - a) == 0) by (nonlinear_arith);
        assert((s * a) / a == s) by (nonlinear_arith)
            requires a > 0;
    }
    assert(blend_over(dst, c) =~= c);
}

/// Alpha-blends `c` over the pixel at `(x, y)`, ignoring out-of-bounds writes
/// and fully transparent colours.
pub fn blend(img: &mut Image, x: i32, y: i32, c: Rgba8)
    requires
        old(img).wf(),
    ensures
        final(img).wf(),
        final(img).spec_width() == old(img).spec_width(),
        final(img).spec_height() == old(img).spec_height(),
        forall|px: int, py: int| in_image(old(img).spec_width(), old(img).spec_height(), px, py) ==>
            #[trigger] final(img).pixel(px, py) == if px == x && py == y && c[3] != 0 {
                blend_over(old(img).pixel(px, py), c)
            } else {
                old(img).pixel(px, py)
            },
{
    if x < 0 || y < 0 || x >= img.width() as i32 || y >= img.height() as i32 || c[3] == 0 {
        return;
    }
    let p = img.get_pixel(x as u32, y as u32);
    let a = c[3] as u32;
    let dst_a = p[3] as u32;
    proof {
        lemma_over_bounds(a as int, dst_a as int, 0);
    }
    // Source-over on straight alpha; with an opaque destination this is the
    // usual lerp, and over a transparent one it keeps the source colour.
    let out_a = a + dst_a * (255 - a) / 255;
    let r0 = over_channel_exec(c[0], a, p[0], dst_a, out_a);
    let r1 = over_channel_exec(c[1], a, p[1], dst_a, out_a);
    let r2 = over_channel_exec(c[2], a, p[2], dst_a, out_a);
    img.set_pixel(x as u32, y as u32, [r0, r1, r2, out_a as u8]);
}

/// Whether the clip rectangle `x0, y0, x1, y1` (x1/y1 exclusive) lets a
/// write at `(x, y)` through; no rectangle lets everything through.
pub open spec fn clip_allows(clip: Option<[i32; 4]>, x: int, y: int) -> bool {
    match clip {
        None => true,
        Some(r) => !(x < r[0] || y < r[1] || x >= r[2] || y >= r[3]),
    }
}

/// What a blit of `src` at offset `(ox, oy)` leaves at the destination pixel
/// `(tx, ty)` whose colour was `old`.
pub open spec fn blit_result(src: Image, ox: int, oy: int, clip: Option<[i32; 4]>, tx: int, ty: int, old: Rgba8) -> Rgba8 {
    let sx = tx - ox;
    let sy = ty - oy;
    if in_image(src.spec_width(), src.spec_height(), sx, sy) && clip_allows(clip, tx, ty) && src.pixel(sx, sy)[3] != 0 {
        blend_over(old, src.pixel(sx, sy))
    } else {
        old
    }
}

/// The drawing state of the pixel backend: the image and the clip
/// rectangle every write is confined to.
pub struct RasterCanvas {
    img: Image,
    /// Pixel bounds `x0, y0, x1, y1` (x1/y1 exclusive) drawing is confined to.
    clip: Option<[i32; 4]>,
}

impl RasterCanvas {
    /// The image drawn so far.
    pub closed spec fn spec_image(&self) -> Image {
        self.img
    }

    /// The current clip rectangle.
    pub closed spec fn spec_clip(&self) -> Option<[i32; 4]> {
        self.clip
    }

    /// The image is well formed.
    pub closed spec fn wf(&self) -> bool {
        self.img.wf()
    }

    /// A canvas of `w` x `h` pixels (at least one each way) filled with
    /// `background`, with no clip.
    pub fn new(w: u32, h: u32, background: Rgba8) -> (r: RasterCanvas)
        requires
            w <= i32::MAX,
            h <= i32::MAX,
            (if w == 0 { 1 } else { w as int }) * (if h == 0 { 1 } else { h as int }) * 4 <= usize::MAX,
        ensures
            r.wf(),
            r.spec_clip() is None,
            r.spec_image().spec_width() == if w == 0 { 1 } else { w as int },
            r.spec_image().spec_height() == if h == 0 { 1 } else { h as int },
            forall|x: int, y: int| in_image(r.spec_image().spec_width(), r.spec_image().spec_height(), x, y)
                ==> #[trigger] r.spec_image().pixel(x, y) == background,
    {
        let w1 = if w == 0 { 1 } else { w };
        let h1 = if h == 0 { 1 } else { h };
        RasterCanvas { img: Image::filled(w1, h1, background), clip: None }
    }

    /// A fully transparent canvas, for the mesh underlay.
    pub fn transparent(w: u32, h: u32) -> (r: RasterCanvas)
        requires
            w <= i32::MAX,
            h <= i32::MAX,
            (if w == 0 { 1 } else { w as int }) * (if h == 0 { 1 } else { h as int }) * 4 <= usize::MAX,
        ensures
            r.wf(),
            r.spec_clip() is None,
            r.spec_image().spec_width() == if w == 0 { 1 } else { w as int },
            r.spec_image().spec_height() == if h == 0 { 1 } else { h as int },
            forall|x: int, y: int| in_image(r.spec_image().spec_width(), r.spec_image().spec_height(), x, y)
                ==> #[trigger] r.spec_image().pixel(x, y) == [0u8, 0u8, 0u8, 0u8],
    {
        RasterCanvas::new(w, h, [0, 0, 0, 0])
    }

    /// The image drawn so far.
    pub fn image(&self) -> (r: &Image)
        ensures
            *r == self.spec_image(),
    {
        &self.img
    }

    /// The image drawn, taking the canvas apart.
    pub fn into_image(self) -> (r: Image)
        ensures
            r == self.spec_image(),
    {
        self.img
    }

    /// Confines what is drawn next to the pixel rectangle `x0, y0, x1, y1`
    /// (x1/y1 exclusive), or lifts the clip when `None`.
    pub fn set_clip(&mut self, rect: Option<[i32; 4]>)
        ensures
            final(self).spec_clip() == rect,
            final(self).spec_image() == old(self).spec_image(),
    {
        self.clip = rect;
    }

    /// Blends one pixel, unless the clip rect excludes it.
    pub fn put(&mut self, x: i32, y: i32, c: Rgba8)
        requires
            old(self).wf(),
        ensures
            final(self).wf(),
            final(self).spec_clip() == old(self).spec_clip(),
            final(self).spec_image().spec_width() == old(self).spec_image().spec_width(),
            final(self).spec_image().spec_height() == old(self).spec_image().spec_height(),
            forall|px: int, py: int| in_image(old(self).spec_image().spec_width(), old(self).spec_image().spec_height(), px, py) ==>
                #[trigger] final(self).spec_image().pixel(px, py) == if px == x && py == y && c[3] != 0
                    && clip_allows(old(self).spec_clip(), px, py) {
                    blend_over(old(self).spec_image().pixel(px, py), c)
                } else {
                    old(self).spec_image().pixel(px, py)
                },
    {
        if let Some(r) = self.clip {
            if x < r[0] || y < r[1] || x >= r[2] || y >= r[3] {
                return;
            }
        }
        blend(&mut self.img, x, y, c);
    }

    /// Stamps one glyph pixel: text is opaque ink rather than paint, so the
    /// pixel at `(x, y)` is replaced, within the clip and the image.
    pub fn stamp(&mut self, x: i32, y: i32, c: Rgba8)
        requires
            old(self).wf(),
        ensures
            final(self).wf(),
            final(self).spec_clip() == old(self).spec_clip(),
            final(self).spec_image().spec_width() == old(self).spec_image().spec_width(),
            final(self).spec_image().spec_height() == old(self).spec_image().spec_height(),
            forall|px: int, py: int| in_image(old(self).spec_image().spec_width(), old(self).spec_image().spec_height(), px, py) ==>
                #[trigger] final(self).spec_image().pixel(px, py) == if px == x && py == y
                    && clip_allows(old(self).spec_clip(), px, py) {
                    c
                } else {
                    old(self).spec_image().pixel(px, py)
                },
    {
        if let Some(r) = self.clip {
            if x < r[0] || y < r[1] || x >= r[2] || y >= r[3] {
                return;
            }
        }
        let (w, h) = (self.img.width() as i32, self.img.height() as i32);
        if x >= 0 && y >= 0 && x < w && y < h {
            self.img.set_pixel(x as u32, y as u32, c);
        }
    }

    /// Blends every pixel of `src` in, its top-left corner at `(ox, oy)`,
    /// each through the clip rect.
    pub fn blit(&mut self, ox: i32, oy: i32, src: &Image)
        requires
            old(self).wf(),
            src.wf(),
            ox + src.spec_width() <= i32::MAX + 1,
            oy + src.spec_height() <= i32::MAX + 1,
        ensures
            final(self).wf(),
            final(self).spec_clip() == old(self).spec_clip(),
            final(self).spec_image().spec_width() == old(self).spec_image().spec_width(),
            final(self).spec_image().spec_height() == old(self).spec_image().spec_height(),
            forall|tx: int, ty: int| in_image(old(self).spec_image().spec_width(), old(self).spec_image().spec_height(), tx, ty) ==>
                #[trigger] final(self).spec_image().pixel(tx, ty)
                    == blit_result(*src, ox as int, oy as int, old(self).spec_clip(), tx, ty, old(self).spec_image().pixel(tx, ty)),
    {
        let ghost orig = self.img;
        let ghost clip = self.clip;
        let sw = src.width();
        let sh = src.height();
        let mut py: u32 = 0;
        while py < sh
            invariant
                self.wf(),
                src.wf(),
                sw == src.spec_width(),
                sh == src.spec_height(),
                py <= sh,
                ox + sw <= i32::MAX + 1,
                oy + sh <= i32::MAX + 1,
                self.clip == clip,
                orig.wf(),
                self.img.spec_width() == orig.spec_width(),
                self.img.spec_height() == orig.spec_height(),
                forall|tx: int, ty: int| in_image(orig.spec_width(), orig.spec_height(), tx, ty) ==>
                    #[trigger] self.img.pixel(tx, ty) == if ty - oy < py {
                        blit_result(*src, ox as int, oy as int, clip, tx, ty, orig.pixel(tx, ty))
                    } else {
                        orig.pixel(tx, ty)
                    },
            decreases sh - py,
        {
            let mut px: u32 = 0;
            while px < sw
                invariant
                    self.wf(),
                    src.wf(),
                    sw == src.spec_width(),
                    sh == src.spec_height(),
                    py < sh,
                    px <= sw,
                    ox + sw <= i32::MAX + 1,
                    oy + sh <= i32::MAX + 1,
                    self.clip == clip,
                    orig.wf(),
                    self.img.spec_width() == orig.spec_width(),
                    self.img.spec_height() == orig.spec_height(),
                    forall|tx: int, ty: int| in_image(orig.spec_width(), orig.spec_height(), tx, ty) ==>
                        #[trigger] self.img.pixel(tx, ty) == if ty - oy < py || (ty - oy == py && 0 <= tx - ox < px) {
                            blit_result(*src, ox as int, oy as int, clip, tx, ty, orig.pixel(tx, ty))
                        } else {
                            orig.pixel(tx, ty)
                        },
                decreases sw - px,
            {
                let c = src.get_pixel(px, py);
                self.put(ox + px as i32, oy + py as i32, c);
                px = px + 1;
            }
            py = py + 1;
        }
    }
}

} // verus!
