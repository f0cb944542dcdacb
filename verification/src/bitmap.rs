//! In-memory RGB bitmaps and the two primitive operations every composition
//! step is built from: filling a canvas with one color and overlaying one
//! bitmap onto another. Pixels are stored row-major.
use vstd::prelude::*;
use vstd::arithmetic::div_mod::{
    lemma_fundamental_div_mod, lemma_fundamental_div_mod_converse_div,
    lemma_fundamental_div_mod_converse_mod, lemma_mod_bound,
};

verus! {

/// A single RGB pixel: three 8-bit channels.
#[derive(Clone, Copy, PartialEq, Eq, Structural, Debug)]
pub struct Pixel {
    pub r: u8,
    pub g: u8,
    pub b: u8,
}

/// The uniform background and border color: white.
pub open spec fn bg_color() -> Pixel {
    Pixel { r: 255, g: 255, b: 255 }
}

/// The white pixel used for borders and uncovered canvas background.
pub fn bg_pixel() -> (p: Pixel)
    ensures
        p == bg_color(),
{
    Pixel { r: 255, g: 255, b: 255 }
}

/// The mathematical model of a bitmap: dimensions and a row-major pixel
/// sequence of length `width * height`.
pub struct BitmapView {
    pub width: nat,
    pub height: nat,
    pub data: Seq<Pixel>,
}

impl BitmapView {
    /// Well-formed: the pixel sequence covers the rectangle exactly.
    pub open spec fn wf(self) -> bool {
        self.data.len() == self.width * self.height
    }

    /// The pixel in column `x` of row `y`.
    pub open spec fn pix(self, x: int, y: int) -> Pixel {
        self.data[y * self.width + x]
    }
}

/// A `w` by `h` bitmap with every pixel equal to `c`.
pub open spec fn filled_bm(w: nat, h: nat, c: Pixel) -> BitmapView {
    BitmapView { width: w, height: h, data: Seq::new(w * h, |i: int| c) }
}

/// `dst` with `src` painted over it, `src`'s top-left corner at `(ox, oy)`.
pub open spec fn overlay_bm(dst: BitmapView, src: BitmapView, ox: int, oy: int) -> BitmapView {
    BitmapView {
        width: dst.width,
        height: dst.height,
        data: Seq::new(
            dst.width * dst.height,
            |i: int|
                {
                    let x = i % (dst.width as int);
                    let y = i / (dst.width as int);
                    if ox <= x < ox + src.width && oy <= y < oy + src.height {
                        src.pix(x - ox, y - oy)
                    } else {
                        dst.pix(x, y)
                    }
                },
        ),
    }
}

/// A row-major index stays inside the pixel sequence.
pub proof fn lemma_xy_index_bounds(w: int, h: int, x: int, y: int)
    requires
        0 <= x < w,
        0 <= y < h,
    ensures
        0 <= y * w + x < w * h,
{
    assert(0 <= y * w + x < w * h) by (nonlinear_arith)
        requires
            0 <= x < w,
            0 <= y < h,
    ;
}

/// Distinct in-range coordinates give distinct row-major indices.
pub proof fn lemma_xy_index_injective(w: int, x1: int, y1: int, x2: int, y2: int)
    requires
        0 <= x1 < w,
        0 <= x2 < w,
        y1 >= 0,
        y2 >= 0,
        y1 * w + x1 == y2 * w + x2,
    ensures
        x1 == x2,
        y1 == y2,
{
    assert(x1 == x2 && y1 == y2) by (nonlinear_arith)
        requires
            0 <= x1 < w,
            0 <= x2 < w,
            y1 >= 0,
            y2 >= 0,
            y1 * w + x1 == y2 * w + x2,
    ;
}

/// A row-major index decomposes back into its coordinates.
pub proof fn lemma_rowmajor(w: int, x: int, y: int)
    requires
        0 <= x < w,
        0 <= y,
    ensures
        (y * w + x) % w == x,
        (y * w + x) / w == y,
{
    lemma_fundamental_div_mod_converse_mod(y * w + x, w, y, x);
    lemma_fundamental_div_mod_converse_div(y * w + x, w, y, x);
}

/// `filled_bm` is well formed and every in-range pixel is the fill color.
pub proof fn lemma_filled_bm_pix(w: nat, h: nat, c: Pixel, x: int, y: int)
    requires
        0 <= x < w,
        0 <= y < h,
    ensures
        filled_bm(w, h, c).wf(),
        filled_bm(w, h, c).pix(x, y) == c,
{
    lemma_xy_index_bounds(w as int, h as int, x, y);
}

/// `overlay_bm` is well formed, keeps `dst`'s dimensions, shows `src` inside
/// the painted rectangle and `dst` everywhere else.
pub proof fn lemma_overlay_bm_pix(dst: BitmapView, src: BitmapView, ox: int, oy: int, x: int, y: int)
    requires
        0 <= x < dst.width,
        0 <= y < dst.height,
    ensures
        overlay_bm(dst, src, ox, oy).wf(),
        overlay_bm(dst, src, ox, oy).pix(x, y) == (
        if ox <= x < ox + src.width && oy <= y < oy + src.height {
            src.pix(x - ox, y - oy)
        } else {
            dst.pix(x, y)
        }),
{
    lemma_xy_index_bounds(dst.width as int, dst.height as int, x, y);
    lemma_rowmajor(dst.width as int, x, y);
}

/// Two well-formed bitmaps of equal dimensions that agree on every in-range
/// pixel are the same bitmap.
pub proof fn lemma_bm_ext(a: BitmapView, b: BitmapView)
    requires
        a.wf(),
        b.wf(),
        a.width == b.width,
        a.height == b.height,
        forall|x: int, y: int|
            0 <= x < a.width && 0 <= y < a.height ==> a.pix(x, y) == b.pix(x, y),
    ensures
        a == b,
{
    let w = a.width as int;
    let h = a.height as int;
    assert forall|i: int| 0 <= i < a.data.len() implies a.data[i] == b.data[i] by {
        assert(w > 0 && h > 0) by (nonlinear_arith)
            requires
                w >= 0,
                h >= 0,
                w * h > 0,
        ;
        lemma_fundamental_div_mod(i, w);
        lemma_mod_bound(i, w);
        let x = i % w;
        let y = i / w;
        assert(0 <= y && y < h) by (nonlinear_arith)
            requires
                0 <= i < w * h,
                i == w * y + x,
                0 <= x < w,
                h > 0,
        ;
        assert(y * w + x == i) by (nonlinear_arith)
            requires
                i == w * y + x,
        ;
        assert(a.pix(x, y) == b.pix(x, y));
    }
    assert(a.data =~= b.data);
}

/// An executable bitmap: dimensions and a row-major pixel vector.
pub struct Bitmap {
    pub width: u32,
    pub height: u32,
    pub pixels: Vec<Pixel>,
}

impl View for Bitmap {
    type V = BitmapView;

    open spec fn view(&self) -> BitmapView {
        BitmapView { width: self.width as nat, height: self.height as nat, data: self.pixels@ }
    }
}

impl Bitmap {
    /// Well-formed: the model is well formed.
    pub open spec fn wf(self) -> bool {
        self@.wf()
    }

    /// A `width` by `height` bitmap with every pixel set to `color`.
    pub fn filled(width: u32, height: u32, color: Pixel) -> (r: Bitmap)
        requires
            width * height <= usize::MAX,
        ensures
            r@ == filled_bm(width as nat, height as nat, color),
            r.wf(),
    {
        let n: usize = (width as usize) * (height as usize);
        let mut pixels: Vec<Pixel> = Vec::new();
        while pixels.len() < n
            invariant
                pixels@.len() <= n,
                n == (width as nat) * (height as nat),
                forall|i: int| 0 <= i < pixels@.len() ==> pixels@[i] == color,
            decreases n - pixels@.len(),
        {
            pixels.push(color);
        }
        let r = Bitmap { width, height, pixels };
        proof {
            assert(r@.data =~= filled_bm(width as nat, height as nat, color).data);
        }
        r
    }

    /// The pixel in column `x` of row `y`.
    pub fn get_pixel(&self, x: u32, y: u32) -> (p: Pixel)
        requires
            self.wf(),
            x < self.width,
            y < self.height,
        ensures
            p == self@.pix(x as int, y as int),
    {
        let _len = self.pixels.len();
        proof {
            lemma_xy_index_bounds(self.width as int, self.height as int, x as int, y as int);
        }
        self.pixels[(y as usize) * (self.width as usize) + (x as usize)]
    }

    /// An independent copy of this bitmap with the same pixels.
    pub fn duplicate(&self) -> (r: Bitmap)
        ensures
            r@ == self@,
    {
        let mut pixels: Vec<Pixel> = Vec::new();
        let n = self.pixels.len();
        while pixels.len() < n
            invariant
                pixels@.len() <= n,
                n == self.pixels@.len(),
                forall|i: int| 0 <= i < pixels@.len() ==> pixels@[i] == self.pixels@[i],
            decreases n - pixels@.len(),
        {
            pixels.push(self.pixels[pixels.len()]);
        }
        let r = Bitmap { width: self.width, height: self.height, pixels };
        proof {
            assert(r@.data =~= self@.data);
        }
        r
    }

    /// Paints `src` over this bitmap with `src`'s top-left corner at
    /// `(ox, oy)`; the rectangle must lie inside this bitmap.
    pub fn overlay(&mut self, src: &Bitmap, ox: u32, oy: u32)
        requires
            old(self).wf(),
            src.wf(),
            ox + src.width <= old(self).width,
            oy + src.height <= old(self).height,
        ensures
            final(self)@ == overlay_bm(old(self)@, src@, ox as int, oy as int),
            final(self).wf(),
    {
        let w = self.width;
        let h = self.height;
        let sw = src.width;
        let sh = src.height;
        let mut y: u32 = 0;
        while y < sh
            invariant
                y <= sh,
                sw == src.width,
                sh == src.height,
                w == self.width == old(self).width,
                h == self.height == old(self).height,
                ox + sw <= w,
                oy + sh <= h,
                src.wf(),
                self.wf(),
                forall|px: int, py: int|
                    0 <= px < w && 0 <= py < h ==> self@.pix(px, py) == (
                    if ox <= px < ox + sw && oy <= py < oy + y {
                        src@.pix(px - ox, py - oy)
                    } else {
                        old(self)@.pix(px, py)
                    }),
            decreases sh - y,
        {
            let mut x: u32 = 0;
            while x < sw
                invariant
                    x <= sw,
                    y < sh,
                    sw == src.width,
                    sh == src.height,
                    w == self.width == old(self).width,
                    h == self.height == old(self).height,
                    ox + sw <= w,
                    oy + sh <= h,
                    src.wf(),
                    self.wf(),
                    forall|px: int, py: int|
                        0 <= px < w && 0 <= py < h ==> self@.pix(px, py) == (
                        if ox <= px < ox + sw && oy <= py < oy + y {
                            src@.pix(px - ox, py - oy)
                        } else if py == oy + y && ox <= px < ox + x {
                            src@.pix(px - ox, py - oy)
                        } else {
                            old(self)@.pix(px, py)
                        }),
                decreases sw - x,
            {
                let _src_len = src.pixels.len();
                let _dst_len = self.pixels.len();
                proof {
                    lemma_xy_index_bounds(sw as int, sh as int, x as int, y as int);
                    lemma_xy_index_bounds(w as int, h as int, (ox + x) as int, (oy + y) as int);
                }
                let sp = src.pixels[(y as usize) * (sw as usize) + (x as usize)];
                let di: usize = ((oy + y) as usize) * (w as usize) + ((ox + x) as usize);
                let ghost prev = self@;
                self.pixels[di] = sp;
                proof {
                    assert forall|px: int, py: int| 0 <= px < w && 0 <= py < h implies self@.pix(
                        px,
                        py,
                    ) == (if ox <= px < ox + sw && oy <= py < oy + y {
                        src@.pix(px - ox, py - oy)
                    } else if py == oy + y && ox <= px < ox + x + 1 {
                        src@.pix(px - ox, py - oy)
                    } else {
                        old(self)@.pix(px, py)
                    }) by {
                        lemma_xy_index_bounds(w as int, h as int, px, py);
                        if py * w + px == di {
                            lemma_xy_index_injective(
                                w as int,
                                px,
                                py,
                                (ox + x) as int,
                                (oy + y) as int,
                            );
                        } else {
                            assert(self@.pix(px, py) == prev.pix(px, py));
                        }
                    }
                }
                x = x + 1;
            }
            y = y + 1;
        }
        proof {
            let target = overlay_bm(old(self)@, src@, ox as int, oy as int);
            assert forall|px: int, py: int|
                0 <= px < target.width && 0 <= py < target.height implies self@.pix(px, py)
                == target.pix(px, py) by {
                lemma_overlay_bm_pix(old(self)@, src@, ox as int, oy as int, px, py);
            }
            lemma_bm_ext(self@, target);
        }
    }
}

} // verus!
