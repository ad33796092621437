//! In-memory RGBA pixel grids: the unit of composition for the whole
//! rendering pipeline.

use vstd::prelude::*;
use crate::MAX_DIM;

verus! {

/// One canvas pixel: four 8-bit channels in R, G, B, A order.
#[derive(Clone, Copy, Debug, PartialEq, Eq, Structural)]
pub struct Px {
    pub r: u8,
    pub g: u8,
    pub b: u8,
    pub a: u8,
}

/// Opaque black, the background fill used for letterboxing.
pub open spec fn spec_black() -> Px {
    Px { r: 0, g: 0, b: 0, a: 255 }
}

pub fn black() -> (p: Px)
    ensures
        p == spec_black(),
{
    Px { r: 0, g: 0, b: 0, a: 255 }
}

/// Mathematical model of a canvas: dimensions plus the flat byte grid.
pub struct Img {
    pub w: nat,
    pub h: nat,
    pub px: Seq<u8>,
}

impl Img {
    /// The byte of channel `ch` of the pixel at `(x, y)`.
    pub open spec fn byte(self, x: int, y: int, ch: int) -> u8 {
        self.px[(y * self.w + x) * 4 + ch]
    }

    /// The pixel at `(x, y)`.
    pub open spec fn at(self, x: int, y: int) -> Px {
        Px {
            r: self.byte(x, y, 0),
            g: self.byte(x, y, 1),
            b: self.byte(x, y, 2),
            a: self.byte(x, y, 3),
        }
    }

    pub open spec fn wf(self) -> bool {
        &&& 1 <= self.w <= MAX_DIM
        &&& 1 <= self.h <= MAX_DIM
        &&& self.px.len() == self.w * self.h * 4
    }
}

/// A dense width x height grid of RGBA pixels, stored in scanline order
/// (top to bottom, left to right), four bytes per pixel.
pub struct Canvas {
    pub width: u32,
    pub height: u32,
    pub data: Vec<u8>,
}

impl View for Canvas {
    type V = Img;

    open spec fn view(&self) -> Img {
        Img { w: self.width as nat, h: self.height as nat, px: self.data@ }
    }
}

/// Pixel indices stay inside the byte grid.
pub proof fn lemma_byte_index_bound(w: int, h: int, x: int, y: int)
    by (nonlinear_arith)
    requires
        0 <= x < w,
        0 <= y < h,
    ensures
        0 <= (y * w + x) * 4,
        (y * w + x) * 4 + 3 < w * h * 4,
{
}

/// Distinct pixels occupy disjoint byte ranges.
pub proof fn lemma_byte_index_disjoint(w: int, x1: int, y1: int, x2: int, y2: int)
    by (nonlinear_arith)
    requires
        0 <= x1 < w,
        0 <= x2 < w,
        0 <= y1,
        0 <= y2,
        (x1, y1) != (x2, y2),
    ensures
        (y1 * w + x1) * 4 + 4 <= (y2 * w + x2) * 4 || (y2 * w + x2) * 4 + 4 <= (y1 * w + x1)
            * 4,
{
}

impl Canvas {
    pub open spec fn wf(self) -> bool {
        self@.wf()
    }

    /// Byte offset of the pixel at `(x, y)`.
    pub fn byte_index(&self, x: u32, y: u32) -> (i: usize)
        requires
            self.wf(),
            x < self.width,
            y < self.height,
        ensures
            i == (y * self.width + x) * 4,
            i + 3 < self.data.len(),
    {
        proof {
            lemma_byte_index_bound(
                self.width as int,
                self.height as int,
                x as int,
                y as int,
            );
            assert(self.width * self.height * 4 <= MAX_DIM * MAX_DIM * 4) by (nonlinear_arith)
                requires
                    self.width <= MAX_DIM,
                    self.height <= MAX_DIM,
            ;
        }
        ((y as usize) * (self.width as usize) + (x as usize)) * 4
    }

    pub fn get_px(&self, x: u32, y: u32) -> (p: Px)
        requires
            self.wf(),
            x < self.width,
            y < self.height,
        ensures
            p == self@.at(x as int, y as int),
    {
        let i = self.byte_index(x, y);
        Px { r: self.data[i], g: self.data[i + 1], b: self.data[i + 2], a: self.data[i + 3] }
    }

    /// Overwrites the pixel at `(x, y)` and leaves every other pixel alone.
    pub fn set_px(&mut self, x: u32, y: u32, p: Px)
        requires
            old(self).wf(),
            x < old(self).width,
            y < old(self).height,
        ensures
            final(self).wf(),
            final(self).width == old(self).width,
            final(self).height == old(self).height,
            final(self)@.at(x as int, y as int) == p,
            forall|xx: int, yy: int|
                0 <= xx < old(self).width && 0 <= yy < old(self).height && (xx, yy) != (
                x as int,
                y as int,
                ) ==> final(self)@.at(xx, yy) == old(self)@.at(xx, yy),
    {
        let i = self.byte_index(x, y);
        self.data.set(i, p.r);
        self.data.set(i + 1, p.g);
        self.data.set(i + 2, p.b);
        self.data.set(i + 3, p.a);
        proof {
            assert forall|xx: int, yy: int|
                0 <= xx < self.width && 0 <= yy < self.height && (xx, yy) != (x as int, y as int)
                    implies self@.at(xx, yy) == old(self)@.at(xx, yy) by {
                lemma_byte_index_bound(
                    self.width as int,
                    self.height as int,
                    xx,
                    yy,
                );
                lemma_byte_index_disjoint(
                    self.width as int,
                    x as int,
                    y as int,
                    xx,
                    yy,
                );
            }
        }
    }

    /// A fresh canvas with every pixel set to `fill`.
    pub fn new_filled(width: u32, height: u32, fill: Px) -> (c: Canvas)
        requires
            1 <= width <= MAX_DIM,
            1 <= height <= MAX_DIM,
        ensures
            c.wf(),
            c.width == width,
            c.height == height,
            forall|x: int, y: int|
                0 <= x < width && 0 <= y < height ==> c@.at(x, y) == fill,
    {
        let n = crate::pixel_count(width, height);
        let mut data: Vec<u8> = Vec::new();
        let mut g: usize = 0;
        while g < n
            invariant
                g <= n,
                n == width * height,
                data.len() == g * 4,
                forall|j: int|
                    0 <= j < g ==> {
                        &&& #[trigger] data@[4 * j] == fill.r
                        &&& data@[4 * j + 1] == fill.g
                        &&& data@[4 * j + 2] == fill.b
                        &&& data@[4 * j + 3] == fill.a
                    },
            decreases n - g,
        {
            let ghost pre = data@;
            data.push(fill.r);
            data.push(fill.g);
            data.push(fill.b);
            data.push(fill.a);
            proof {
                assert(data@[4 * (g as int)] == fill.r);
                assert(data@[4 * (g as int) + 1] == fill.g);
                assert(data@[4 * (g as int) + 2] == fill.b);
                assert(data@[4 * (g as int) + 3] == fill.a);
                assert forall|j: int|
                    0 <= j < g + 1 implies {
                        &&& #[trigger] data@[4 * j] == fill.r
                        &&& data@[4 * j + 1] == fill.g
                        &&& data@[4 * j + 2] == fill.b
                        &&& data@[4 * j + 3] == fill.a
                    } by {
                    if j < g {
                        assert(data@[4 * j] == pre[4 * j]);
                        assert(data@[4 * j + 1] == pre[4 * j + 1]);
                        assert(data@[4 * j + 2] == pre[4 * j + 2]);
                        assert(data@[4 * j + 3] == pre[4 * j + 3]);
                    }
                }
            }
            g = g + 1;
        }
        let c = Canvas { width, height, data };
        proof {
            assert forall|x: int, y: int|
                0 <= x < width && 0 <= y < height implies c@.at(x, y) == fill by {
                lemma_byte_index_bound(width as int, height as int, x, y);
                let j = y * width + x;
                assert(c@.byte(x, y, 0) == c.data@[4 * j]);
                assert(c@.byte(x, y, 1) == c.data@[4 * j + 1]);
                assert(c@.byte(x, y, 2) == c.data@[4 * j + 2]);
                assert(c@.byte(x, y, 3) == c.data@[4 * j + 3]);
            }
        }
        c
    }

    /// The model of a quarter-turn clockwise rotation: the source column
    /// becomes the destination row, counted from the far edge.
    pub open spec fn spec_rotate90(src: Img) -> Img {
        Img {
            w: src.h,
            h: src.w,
            px: Seq::new(
                src.h * src.w * 4,
                |k: int|
                    {
                        let p = k / 4;
                        let xx = p % (src.h as int);
                        let yy = p / (src.h as int);
                        src.byte(yy, src.h - 1 - xx, k % 4)
                    },
            ),
        }
    }

    /// Rotates the canvas 90 degrees clockwise.
    pub fn rotate90(&self) -> (c: Canvas)
        requires
            self.wf(),
        ensures
            c.wf(),
            c.width == self.height,
            c.height == self.width,
            c@ == Self::spec_rotate90(self@),
            forall|x: int, y: int|
                0 <= x < self.height && 0 <= y < self.width ==> c@.at(x, y) == self@.at(
                    y,
                    self@.h - 1 - x,
                ),
    {
        let out_w = self.height;
        let out_h = self.width;
        let mut data: Vec<u8> = Vec::new();
        let mut y: u32 = 0;
        while y < out_h
            invariant
                self.wf(),
                out_w == self.height,
                out_h == self.width,
                y <= out_h,
                data.len() == y * out_w * 4,
                forall|yy: int, xx: int, cc: int|
                    0 <= yy < y && 0 <= xx < out_w && 0 <= cc < 4 ==> #[trigger] data@[(yy * out_w
                        + xx) * 4 + cc] == self@.byte(yy, out_w - 1 - xx, cc),
            decreases out_h - y,
        {
            let mut x: u32 = 0;
            while x < out_w
                invariant
                    self.wf(),
                    out_w == self.height,
                    out_h == self.width,
                    y < out_h,
                    x <= out_w,
                    data.len() == y * out_w * 4 + x * 4,
                    forall|yy: int, xx: int, cc: int|
                        0 <= yy < y && 0 <= xx < out_w && 0 <= cc < 4 ==> #[trigger] data@[(yy * out_w
                            + xx) * 4 + cc] == self@.byte(yy, out_w - 1 - xx, cc),
                    forall|xx: int, cc: int|
                        0 <= xx < x && 0 <= cc < 4 ==> #[trigger] data@[(y * out_w + xx) * 4 + cc]
                            == self@.byte(y as int, out_w - 1 - xx, cc),
                decreases out_w - x,
            {
                let sx: u32 = y;
                let sy: u32 = out_w - 1 - x;
                let p = self.get_px(sx, sy);
                proof {
                    lemma_byte_index_bound(out_w as int, out_h as int, x as int, y as int);
                }
                data.push(p.r);
                data.push(p.g);
                data.push(p.b);
                data.push(p.a);
                proof {
                    assert forall|yy: int, xx: int, cc: int|
                        0 <= yy < y && 0 <= xx < out_w && 0 <= cc < 4 implies #[trigger] data@[(yy
                        * out_w + xx) * 4 + cc] == self@.byte(yy, out_w - 1 - xx, cc) by {
                        assert(0 <= (yy * out_w + xx) * 4 + cc < y * out_w * 4)
                            by (nonlinear_arith)
                            requires
                                0 <= yy < y,
                                0 <= xx < out_w,
                                0 <= cc < 4,
                        ;
                    }
                }
                x = x + 1;
            }
            proof {
                assert(y * out_w * 4 + out_w * 4 == (y + 1) * out_w * 4) by (nonlinear_arith);
            }
            y = y + 1;
        }
        let c = Canvas { width: out_w, height: out_h, data };
        proof {
            assert(c.data@.len() == out_h * out_w * 4);
            assert(out_w * out_h * 4 == out_h * out_w * 4) by (nonlinear_arith);
            let m = Self::spec_rotate90(self@);
            assert forall|k: int| 0 <= k < c.data@.len() implies c.data@[k] == m.px[k] by {
                let p = k / 4;
                let cc = k % 4;
                let xx = p % (out_w as int);
                let yy = p / (out_w as int);
                vstd::arithmetic::div_mod::lemma_fundamental_div_mod(k, 4);
                vstd::arithmetic::div_mod::lemma_fundamental_div_mod(p, out_w as int);
                assert(0 <= cc < 4);
                assert(k == p * 4 + cc);
                assert(0 <= xx < out_w);
                assert(p == yy * out_w + xx) by (nonlinear_arith)
                    requires
                        p == (out_w as int) * yy + xx,
                ;
                assert(0 <= yy < out_h) by (nonlinear_arith)
                    requires
                        0 <= p < out_h * out_w,
                        p == yy * out_w + xx,
                        0 <= xx < out_w,
                        out_w >= 1,
                ;
                assert((yy * out_w + xx) * 4 + cc == k);
                assert(c.data@[(yy * out_w + xx) * 4 + cc] == self@.byte(yy, out_w - 1 - xx, cc));
            }
            assert(c@.px =~= m.px);
            assert forall|x: int, y2: int|
                0 <= x < self.height && 0 <= y2 < self.width implies c@.at(x, y2) == self@.at(
                y2,
                self@.h - 1 - x,
            ) by {
                lemma_byte_index_bound(out_w as int, out_h as int, x, y2);
            }
        }
        c
    }
}

} // verus!
