//! The image loading pipeline: decode, orientation correction, uniform
//! scaling, and letterboxing onto a black canvas.

use vstd::prelude::*;
use vstd::arithmetic::div_mod::{lemma_div_is_ordered, lemma_div_multiples_vanish, lemma_div_pos_is_pos};
use crate::canvas::{Canvas, Img, Px, spec_black, black};
use crate::transition::px_at;
use crate::strutil::{eq_ignore_ascii_case, sp_eq_lower};
use crate::MAX_DIM;

verus! {

/// Raster width of the device in landscape.
pub const DEFAULT_LANDSCAPE_WIDTH: u32 = 1920;

/// Raster height of the device in landscape.
pub const DEFAULT_LANDSCAPE_HEIGHT: u32 = 1080;

/// Logical width of a portrait composition.
pub const DEFAULT_PORTRAIT_WIDTH: u32 = 1080;

/// Logical height of a portrait composition.
pub const DEFAULT_PORTRAIT_HEIGHT: u32 = 1920;

/// The display orientation.
#[derive(Clone, Copy, Debug, PartialEq, Eq, Structural)]
pub enum Orientation {
    Landscape,
    Portrait,
}

impl Orientation {
    /// The logical composition dimensions of this orientation.
    pub fn dimensions(&self) -> (r: (u32, u32))
        ensures
            *self == Orientation::Landscape ==> r == (
                DEFAULT_LANDSCAPE_WIDTH,
                DEFAULT_LANDSCAPE_HEIGHT,
            ),
            *self == Orientation::Portrait ==> r == (
                DEFAULT_PORTRAIT_WIDTH,
                DEFAULT_PORTRAIT_HEIGHT,
            ),
    {
        match self {
            Orientation::Landscape => (DEFAULT_LANDSCAPE_WIDTH, DEFAULT_LANDSCAPE_HEIGHT),
            Orientation::Portrait => (DEFAULT_PORTRAIT_WIDTH, DEFAULT_PORTRAIT_HEIGHT),
        }
    }

    /// Reads an orientation label: `portrait` in any ASCII case selects
    /// portrait, anything else is landscape.
    pub fn from_label(s: &str) -> (r: Orientation)
        ensures
            r == Orientation::Portrait <==> sp_eq_lower(s@, "portrait"@),
    {
        if eq_ignore_ascii_case(s, "portrait") {
            Orientation::Portrait
        } else {
            Orientation::Landscape
        }
    }
}

/// Whether a file name carries one of the image extensions the slideshow
/// accepts, compared without regard to ASCII case.
pub open spec fn sp_ends_with_lower(s: Seq<char>, suffix: Seq<char>) -> bool {
    s.len() >= suffix.len() && sp_eq_lower(
        s.subrange(s.len() - suffix.len(), s.len() as int),
        suffix,
    )
}

pub open spec fn sp_has_image_extension(name: Seq<char>) -> bool {
    ||| sp_ends_with_lower(name, ".png"@)
    ||| sp_ends_with_lower(name, ".jpg"@)
    ||| sp_ends_with_lower(name, ".jpeg"@)
}

fn ends_with_ignore_case(name: &str, suffix: &str) -> (r: bool)
    ensures
        r == sp_ends_with_lower(name@, suffix@),
{
    let n = name.unicode_len();
    let m = suffix.unicode_len();
    if m > n {
        return false;
    }
    let tail = name.substring_char(n - m, n);
    proof {
        assert(tail@ =~= name@.subrange(name@.len() - suffix@.len(), name@.len() as int));
    }
    eq_ignore_ascii_case(tail, suffix)
}

/// Whether the slideshow picks up a file of this name: its extension is
/// `.png`, `.jpg` or `.jpeg` in any ASCII case.
pub fn has_image_extension(name: &str) -> (r: bool)
    ensures
        r == sp_has_image_extension(name@),
{
    ends_with_ignore_case(name, ".png") || ends_with_ignore_case(name, ".jpg")
        || ends_with_ignore_case(name, ".jpeg")
}

/// Why a source image could not be composed.
#[derive(Clone, Copy, Debug, PartialEq, Eq, Structural)]
pub enum ImageError {
    /// The bytes are not a decodable image, or decode to an empty raster.
    Decode,
}

/// What the decoder yields for a given byte string: the dimensions and the
/// flat RGBA raster, or nothing when the bytes do not decode.
pub uninterp spec fn decoded_rgba(bytes: Seq<u8>) -> Option<(nat, nat, Seq<u8>)>;

/// Relies on image::load_from_memory and image::DynamicImage::to_rgba8:
/// decoding is a function of the input bytes alone, and the decoded buffer
/// holds exactly width times height four-byte pixels.
#[verifier::external_body]
fn decode_rgba(bytes: &[u8]) -> (r: Option<(u32, u32, Vec<u8>)>)
    ensures
        match r {
            Some((w, h, d)) => decoded_rgba(bytes@) == Some((w as nat, h as nat, d@)) && d@.len()
                == w * h * 4,
            None => decoded_rgba(bytes@) is None,
        },
{
    match image::load_from_memory(bytes) {
        Ok(img) => {
            let rgba = img.to_rgba8();
            let (w, h) = rgba.dimensions();
            Some((w, h, rgba.into_raw()))
        },
        Err(_) => None,
    }
}

/// What the Lanczos resampler yields for a raster and a pair of target
/// dimensions.
pub uninterp spec fn lanczos_scaled(w: nat, h: nat, px: Seq<u8>, dw: nat, dh: nat) -> Seq<u8>;

/// Relies on image::imageops::resize with the Lanczos3 filter: the result
/// has exactly the requested dimensions, and its pixels depend only on the
/// source raster and those dimensions.
#[verifier::external_body]
fn resize_lanczos(src: &Canvas, dw: u32, dh: u32) -> (r: Canvas)
    requires
        src.width >= 1,
        src.height >= 1,
        src.data@.len() == src.width * src.height * 4,
        1 <= dw <= MAX_DIM,
        1 <= dh <= MAX_DIM,
    ensures
        r.width == dw,
        r.height == dh,
        r.data@ == lanczos_scaled(src@.w, src@.h, src@.px, dw as nat, dh as nat),
        r.data@.len() == dw * dh * 4,
{
    let buf = image::RgbaImage::from_raw(src.width, src.height, src.data.clone())
        .expect("canvas buffer matches its dimensions");
    let scaled = image::imageops::resize(&buf, dw, dh, image::imageops::FilterType::Lanczos3);
    Canvas { width: dw, height: dh, data: scaled.into_raw() }
}

/// The scaled image as a model value.
pub open spec fn sp_scaled_img(src: Img, dw: int, dh: int) -> Img {
    Img { w: dw as nat, h: dh as nat, px: lanczos_scaled(src.w, src.h, src.px, dw as nat, dh as nat) }
}

/// The dimensions of the scaled content: the largest size that fits the
/// target while keeping the source aspect ratio, never below one pixel.
pub open spec fn sp_scaled_dims(sw: int, sh: int, tw: int, th: int) -> (int, int) {
    if tw * sh <= th * sw {
        let s = sh * tw / sw;
        (tw, if s >= 1 {
            s
        } else {
            1
        })
    } else {
        let s = sw * th / sh;
        (if s >= 1 {
            s
        } else {
            1
        }, th)
    }
}

pub fn scaled_dimensions(sw: u32, sh: u32, tw: u32, th: u32) -> (r: (u32, u32))
    requires
        1 <= sw,
        1 <= sh,
        1 <= tw <= MAX_DIM,
        1 <= th <= MAX_DIM,
    ensures
        (r.0 as int, r.1 as int) == sp_scaled_dims(sw as int, sh as int, tw as int, th as int),
        1 <= r.0 <= tw,
        1 <= r.1 <= th,
{
    proof {
        assert(0 <= (tw as int) * (sh as int) <= 8192 * 0xffff_ffff && 0 <= (th as int) * (
        sw as int) <= 8192 * 0xffff_ffff && 0 <= (sh as int) * (tw as int) <= 0xffff_ffff * 8192
            && 0 <= (sw as int) * (th as int) <= 0xffff_ffff * 8192) by (nonlinear_arith)
            requires
                0 <= sw <= 0xffff_ffff,
                0 <= sh <= 0xffff_ffff,
                0 <= tw <= 8192,
                0 <= th <= 8192,
        ;
    }
    if (tw as u64) * (sh as u64) <= (th as u64) * (sw as u64) {
        proof {
            assert((sh as int) * (tw as int) <= (th as int) * (sw as int)) by (nonlinear_arith)
                requires
                    (tw as int) * (sh as int) <= (th as int) * (sw as int),
            ;
            lemma_div_is_ordered((sh as int) * (tw as int), (th as int) * (sw as int), sw as int);
            lemma_div_multiples_vanish(th as int, sw as int);
            assert((th as int) * (sw as int) == (sw as int) * (th as int)) by (nonlinear_arith);
            lemma_div_pos_is_pos((sh as int) * (tw as int), sw as int);
        }
        let s: u64 = (sh as u64) * (tw as u64) / (sw as u64);
        let s32: u32 = if s >= 1 {
            s as u32
        } else {
            1
        };
        (tw, s32)
    } else {
        proof {
            assert((sw as int) * (th as int) <= (tw as int) * (sh as int)) by (nonlinear_arith)
                requires
                    (th as int) * (sw as int) <= (tw as int) * (sh as int),
            ;
            lemma_div_is_ordered((sw as int) * (th as int), (tw as int) * (sh as int), sh as int);
            lemma_div_multiples_vanish(tw as int, sh as int);
            assert((tw as int) * (sh as int) == (sh as int) * (tw as int)) by (nonlinear_arith);
            lemma_div_pos_is_pos((sw as int) * (th as int), sh as int);
        }
        let s: u64 = (sw as u64) * (th as u64) / (sh as u64);
        let s32: u32 = if s >= 1 {
            s as u32
        } else {
            1
        };
        (s32, th)
    }
}

/// The letterbox pixel: inside the centered content box the scaled image,
/// outside it the opaque black background.
pub open spec fn sp_letterbox_px(src: Img, tw: int, th: int, x: int, y: int) -> Px {
    let ox = (tw - src.w) / 2;
    let oy = (th - src.h) / 2;
    if ox <= x < ox + src.w && oy <= y < oy + src.h {
        src.at(x - ox, y - oy)
    } else {
        spec_black()
    }
}

/// The letterboxed canvas as a model value.
pub open spec fn sp_letterboxed(src: Img, tw: int, th: int) -> Img {
    Img {
        w: tw as nat,
        h: th as nat,
        px: Seq::new(
            (tw * th * 4) as nat,
            |k: int|
                {
                    let p = k / 4;
                    crate::transition::px_ch(
                        sp_letterbox_px(src, tw, th, p % tw, p / tw),
                        k % 4,
                    )
                },
        ),
    }
}

/// Letterboxing invariant: every pixel of the composed canvas is either
/// the scaled content, shifted by the centering offset of half the slack
/// on each axis, or the untouched background fill.
pub proof fn lemma_letterbox(src: Img, tw: int, th: int, x: int, y: int)
    requires
        0 <= x < tw,
        0 <= y < th,
        src.w <= tw,
        src.h <= th,
    ensures
        ((tw - src.w) / 2 <= x < (tw - src.w) / 2 + src.w && (th - src.h) / 2 <= y < (th
            - src.h) / 2 + src.h) ==> sp_letterbox_px(src, tw, th, x, y) == src.at(
            x - (tw - src.w) / 2,
            y - (th - src.h) / 2,
        ),
        !((tw - src.w) / 2 <= x < (tw - src.w) / 2 + src.w && (th - src.h) / 2 <= y < (th
            - src.h) / 2 + src.h) ==> sp_letterbox_px(src, tw, th, x, y) == spec_black(),
{
}

/// Centers the scaled content on a target-sized canvas filled with opaque
/// black.
pub fn compose_centered(src: &Canvas, tw: u32, th: u32) -> (out: Canvas)
    requires
        src.wf(),
        src.width <= tw,
        src.height <= th,
        1 <= tw <= MAX_DIM,
        1 <= th <= MAX_DIM,
    ensures
        out.wf(),
        out.width == tw,
        out.height == th,
        out@ == sp_letterboxed(src@, tw as int, th as int),
        forall|x: int, y: int|
            0 <= x < tw && 0 <= y < th ==> #[trigger] out@.at(x, y) == sp_letterbox_px(
                src@,
                tw as int,
                th as int,
                x,
                y,
            ),
{
    let ox = (tw - src.width) / 2;
    let oy = (th - src.height) / 2;
    let mut data: Vec<u8> = Vec::new();
    let mut y: u32 = 0;
    while y < th
        invariant
            src.wf(),
            tw <= MAX_DIM,
            th <= MAX_DIM,
            src.width <= tw,
            src.height <= th,
            ox == (tw - src@.w) / 2,
            oy == (th - src@.h) / 2,
            y <= th,
            data.len() == y * tw * 4,
            forall|xx: int, yy: int|
                0 <= xx < tw && 0 <= yy < y ==> #[trigger] px_at(data@, tw as int, xx, yy)
                    == sp_letterbox_px(src@, tw as int, th as int, xx, yy),
        decreases th - y,
    {
        let mut x: u32 = 0;
        while x < tw
            invariant
                src.wf(),
                tw <= MAX_DIM,
                th <= MAX_DIM,
                src.width <= tw,
                src.height <= th,
                ox == (tw - src@.w) / 2,
                oy == (th - src@.h) / 2,
                y < th,
                x <= tw,
                data.len() == y * tw * 4 + x * 4,
                forall|xx: int, yy: int|
                    0 <= xx < tw && 0 <= yy < y ==> #[trigger] px_at(data@, tw as int, xx, yy)
                        == sp_letterbox_px(src@, tw as int, th as int, xx, yy),
                forall|xx: int|
                    0 <= xx < x ==> #[trigger] px_at(data@, tw as int, xx, y as int)
                        == sp_letterbox_px(src@, tw as int, th as int, xx, y as int),
            decreases tw - x,
        {
            let q: Px = if ox <= x && x < ox + src.width && oy <= y && y < oy + src.height {
                src.get_px(x - ox, y - oy)
            } else {
                black()
            };
            let ghost pre = data@;
            data.push(q.r);
            data.push(q.g);
            data.push(q.b);
            data.push(q.a);
            proof {
                assert(px_at(data@, tw as int, x as int, y as int) == q);
                assert forall|xx: int, yy: int|
                    0 <= xx < tw && 0 <= yy < y implies #[trigger] px_at(data@, tw as int, xx, yy)
                    == px_at(pre, tw as int, xx, yy) by {
                    assert(0 <= (yy * tw + xx) * 4 + 3 < y * tw * 4) by (nonlinear_arith)
                        requires
                            0 <= yy < y,
                            0 <= xx < tw,
                    ;
                    assert(data@[(yy * tw + xx) * 4] == pre[(yy * tw + xx) * 4]);
                    assert(data@[(yy * tw + xx) * 4 + 1] == pre[(yy * tw + xx) * 4 + 1]);
                    assert(data@[(yy * tw + xx) * 4 + 2] == pre[(yy * tw + xx) * 4 + 2]);
                    assert(data@[(yy * tw + xx) * 4 + 3] == pre[(yy * tw + xx) * 4 + 3]);
                }
                assert forall|xx: int|
                    0 <= xx < x implies #[trigger] px_at(data@, tw as int, xx, y as int)
                    == px_at(pre, tw as int, xx, y as int) by {
                    assert(0 <= (y * tw + xx) * 4 + 3 < y * tw * 4 + x * 4);
                    assert(data@[(y * tw + xx) * 4] == pre[(y * tw + xx) * 4]);
                    assert(data@[(y * tw + xx) * 4 + 1] == pre[(y * tw + xx) * 4 + 1]);
                    assert(data@[(y * tw + xx) * 4 + 2] == pre[(y * tw + xx) * 4 + 2]);
                    assert(data@[(y * tw + xx) * 4 + 3] == pre[(y * tw + xx) * 4 + 3]);
                }
            }
            x = x + 1;
        }
        proof {
            assert(y * tw * 4 + tw * 4 == (y + 1) * tw * 4) by (nonlinear_arith);
        }
        y = y + 1;
    }
    let out = Canvas { width: tw, height: th, data };
    proof {
        assert(out.data@.len() == th * tw * 4);
        assert(tw * th * 4 == th * tw * 4) by (nonlinear_arith);
        let m = sp_letterboxed(src@, tw as int, th as int);
        assert forall|k: int| 0 <= k < out.data@.len() implies out.data@[k] == m.px[k] by {
            let p = k / 4;
            let cc = k % 4;
            let xx = p % (tw as int);
            let yy = p / (tw as int);
            vstd::arithmetic::div_mod::lemma_fundamental_div_mod(k, 4);
            vstd::arithmetic::div_mod::lemma_fundamental_div_mod(p, tw as int);
            assert(p == yy * tw + xx) by (nonlinear_arith)
                requires
                    p == (tw as int) * yy + xx,
            ;
            assert(0 <= yy < th) by (nonlinear_arith)
                requires
                    0 <= p < th * tw,
                    p == yy * tw + xx,
                    0 <= xx < tw,
                    tw >= 1,
            ;
            assert(px_at(out.data@, tw as int, xx, yy) == sp_letterbox_px(
                src@,
                tw as int,
                th as int,
                xx,
                yy,
            ));
        }
        assert(out@.px =~= m.px);
        assert forall|x: int, y2: int|
            0 <= x < tw && 0 <= y2 < th implies #[trigger] out@.at(x, y2) == sp_letterbox_px(
            src@,
            tw as int,
            th as int,
            x,
            y2,
        ) by {
            assert(px_at(out.data@, tw as int, x, y2) == out@.at(x, y2));
        }
    }
    out
}

/// The whole pipeline as a model function of the source bytes: decode,
/// rotate for a portrait target when the source is wider than tall, scale
/// to fit, letterbox, and rotate the composition back for the landscape
/// raster of the device.  Nothing if the bytes do not decode or the
/// decoded dimensions are out of range.
pub open spec fn sp_load_composed(bytes: Seq<u8>, tw: int, th: int, portrait: bool) -> Option<
    Img,
> {
    match decoded_rgba(bytes) {
        None => None,
        Some((w, h, d)) => {
            if w < 1 || h < 1 {
                None
            } else {
                let img0 = Img { w, h, px: d };
                if !portrait {
                    let dims = sp_scaled_dims(w as int, h as int, tw, th);
                    Some(sp_letterboxed(sp_scaled_img(img0, dims.0, dims.1), tw, th))
                } else {
                    let pw = if th >= tw {
                        tw
                    } else {
                        th
                    };
                    let ph = if th >= tw {
                        th
                    } else {
                        tw
                    };
                    let scaled = if w > h {
                        let dims = sp_scaled_dims(h as int, w as int, pw, ph);
                        Canvas::spec_rotate90(sp_scaled_img(img0, dims.1, dims.0))
                    } else {
                        let dims = sp_scaled_dims(w as int, h as int, pw, ph);
                        sp_scaled_img(img0, dims.0, dims.1)
                    };
                    let boxed = sp_letterboxed(scaled, pw, ph);
                    Some(
                        if th < tw {
                            Canvas::spec_rotate90(boxed)
                        } else {
                            boxed
                        },
                    )
                }
            }
        },
    }
}

/// Decodes a source image and composes it for the device raster: scaled
/// to fit, centered and letterboxed on black.  For portrait viewing the
/// composition happens on the portrait-shaped side of the target: a
/// landscape source is turned upright first, and when the raster itself
/// is landscape-wired the finished composition is rotated back to match
/// its scan order.
pub fn load_and_compose(bytes: &[u8], tw: u32, th: u32, portrait: bool) -> (r: Result<
    Canvas,
    ImageError,
>)
    requires
        1 <= tw <= MAX_DIM,
        1 <= th <= MAX_DIM,
    ensures
        match r {
            Ok(c) => {
                &&& c.wf()
                &&& c.width == tw
                &&& c.height == th
                &&& Some(c@) == sp_load_composed(bytes@, tw as int, th as int, portrait)
            },
            Err(ImageError::Decode) => match decoded_rgba(bytes@) {
                Some((w, h, d)) => w < 1 || h < 1,
                None => true,
            },
        },
        r is Ok <==> sp_load_composed(bytes@, tw as int, th as int, portrait) is Some,
{
    let decoded = decode_rgba(bytes);
    match decoded {
        None => Err(ImageError::Decode),
        Some((w, h, d)) => {
            if w < 1 || h < 1 {
                return Err(ImageError::Decode);
            }
            let c0 = Canvas { width: w, height: h, data: d };
            if !portrait {
                let (dw, dh) = scaled_dimensions(w, h, tw, th);
                let scaled = resize_lanczos(&c0, dw, dh);
                return Ok(compose_centered(&scaled, tw, th));
            }
            let pw = if th >= tw {
                tw
            } else {
                th
            };
            let ph = if th >= tw {
                th
            } else {
                tw
            };
            let scaled = if w > h {
                let (dw, dh) = scaled_dimensions(h, w, pw, ph);
                resize_lanczos(&c0, dh, dw).rotate90()
            } else {
                let (dw, dh) = scaled_dimensions(w, h, pw, ph);
                resize_lanczos(&c0, dw, dh)
            };
            let boxed = compose_centered(&scaled, pw, ph);
            if th < tw {
                Ok(boxed.rotate90())
            } else {
                Ok(boxed)
            }
        },
    }
}

/// Composing the same source at the same target dimensions and orientation
/// twice yields byte-identical canvases: the pipeline is a function of its
/// inputs alone.
pub proof fn lemma_load_deterministic(
    bytes: Seq<u8>,
    tw: int,
    th: int,
    portrait: bool,
    a: Img,
    b: Img,
)
    requires
        sp_load_composed(bytes, tw, th, portrait) == Some(a),
        sp_load_composed(bytes, tw, th, portrait) == Some(b),
    ensures
        a == b,
{
}

} // verus!
