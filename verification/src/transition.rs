//! The transition-compositing engine: given two same-sized canvases and a
//! transition kind, it produces the intermediate frames of the switch from
//! one image to the next.

use vstd::prelude::*;
use vstd::arithmetic::div_mod::{lemma_div_is_ordered, lemma_div_multiples_vanish, lemma_div_pos_is_pos};
use crate::canvas::{Canvas, Img, Px, spec_black, black};
use crate::easing::{
    sp_sin_half,
    sp_ease_in, sp_ease_out, sp_ease_in_out, sp_ease_cubic, sp_ease_cubic_in_out, sp_ease_sine,
    sp_sin_turn, ease_in, ease_out, ease_in_out, ease_cubic, ease_cubic_in_out, ease_sine,
    sin_turn,
};

verus! {

/// The closed catalog of pixel-compositing algorithms used when switching
/// images.
#[derive(Clone, Copy, Debug, PartialEq, Eq, Structural)]
pub enum TransitionType {
    Fade,
    Dissolve,
    SlideLeft,
    SlideRight,
    SlideUp,
    SlideDown,
    WipeLeft,
    WipeRight,
    WipeUp,
    WipeDown,
    Morph,
    Bounce,
    Elastic,
    EaseIn,
    EaseOut,
    EaseInOut,
    Accelerated,
    CircularWipe,
    DiagonalWipe,
    Pixelate,
}

/// How many transition kinds the catalog holds.
pub const TRANSITION_COUNT: u32 = 20;

/// Relies on fastrand::u32: returns a uniformly drawn value from the
/// half-open range below `n`.
#[verifier::external_body]
pub(crate) fn random_below(n: u32) -> (r: u32)
    requires
        n >= 1,
    ensures
        r < n,
{
    fastrand::u32(0..n)
}

/// The fixed catalog of transition kinds, by position.
pub open spec fn sp_catalog(i: int) -> TransitionType {
    if i == 0 {
        TransitionType::Fade
    } else if i == 1 {
        TransitionType::Dissolve
    } else if i == 2 {
        TransitionType::SlideLeft
    } else if i == 3 {
        TransitionType::SlideRight
    } else if i == 4 {
        TransitionType::SlideUp
    } else if i == 5 {
        TransitionType::SlideDown
    } else if i == 6 {
        TransitionType::WipeLeft
    } else if i == 7 {
        TransitionType::WipeRight
    } else if i == 8 {
        TransitionType::WipeUp
    } else if i == 9 {
        TransitionType::WipeDown
    } else if i == 10 {
        TransitionType::Morph
    } else if i == 11 {
        TransitionType::Bounce
    } else if i == 12 {
        TransitionType::Elastic
    } else if i == 13 {
        TransitionType::EaseIn
    } else if i == 14 {
        TransitionType::EaseOut
    } else if i == 15 {
        TransitionType::EaseInOut
    } else if i == 16 {
        TransitionType::Accelerated
    } else if i == 17 {
        TransitionType::CircularWipe
    } else if i == 18 {
        TransitionType::DiagonalWipe
    } else {
        TransitionType::Pixelate
    }
}

impl TransitionType {
    /// The transition kind at a catalog position.
    pub fn from_index(i: u32) -> (t: TransitionType)
        requires
            i < TRANSITION_COUNT,
        ensures
            t == sp_catalog(i as int),
    {
        match i {
            0 => TransitionType::Fade,
            1 => TransitionType::Dissolve,
            2 => TransitionType::SlideLeft,
            3 => TransitionType::SlideRight,
            4 => TransitionType::SlideUp,
            5 => TransitionType::SlideDown,
            6 => TransitionType::WipeLeft,
            7 => TransitionType::WipeRight,
            8 => TransitionType::WipeUp,
            9 => TransitionType::WipeDown,
            10 => TransitionType::Morph,
            11 => TransitionType::Bounce,
            12 => TransitionType::Elastic,
            13 => TransitionType::EaseIn,
            14 => TransitionType::EaseOut,
            15 => TransitionType::EaseInOut,
            16 => TransitionType::Accelerated,
            17 => TransitionType::CircularWipe,
            18 => TransitionType::DiagonalWipe,
            _ => TransitionType::Pixelate,
        }
    }

    /// A kind drawn uniformly from the catalog, chosen anew each time a
    /// transition is triggered.
    pub fn get_random() -> (t: TransitionType)
        ensures
            exists|i: int| 0 <= i < TRANSITION_COUNT && t == sp_catalog(i),
    {
        let i = random_below(TRANSITION_COUNT);
        let t = Self::from_index(i);
        proof {
            assert(t == sp_catalog(i as int));
        }
        t
    }

    /// The diagnostic label overlaid onto transition frames.
    pub fn name(&self) -> (r: &'static str)
        ensures
            r@ == Self::spec_name(*self),
    {
        match self {
            TransitionType::Fade => "FADE",
            TransitionType::Dissolve => "DISSOLVE",
            TransitionType::SlideLeft => "SLIDE LEFT",
            TransitionType::SlideRight => "SLIDE RIGHT",
            TransitionType::SlideUp => "SLIDE UP",
            TransitionType::SlideDown => "SLIDE DOWN",
            TransitionType::WipeLeft => "WIPE LEFT",
            TransitionType::WipeRight => "WIPE RIGHT",
            TransitionType::WipeUp => "WIPE UP",
            TransitionType::WipeDown => "WIPE DOWN",
            TransitionType::Morph => "MORPH",
            TransitionType::Bounce => "BOUNCE",
            TransitionType::Elastic => "ELASTIC",
            TransitionType::EaseIn => "EASE IN",
            TransitionType::EaseOut => "EASE OUT",
            TransitionType::EaseInOut => "EASE IN-OUT",
            TransitionType::Accelerated => "ACCELERATED",
            TransitionType::CircularWipe => "CIRCULAR WIPE",
            TransitionType::DiagonalWipe => "DIAGONAL WIPE",
            TransitionType::Pixelate => "PIXELATE",
        }
    }

    pub open spec fn spec_name(t: TransitionType) -> Seq<char> {
        match t {
            TransitionType::Fade => "FADE"@,
            TransitionType::Dissolve => "DISSOLVE"@,
            TransitionType::SlideLeft => "SLIDE LEFT"@,
            TransitionType::SlideRight => "SLIDE RIGHT"@,
            TransitionType::SlideUp => "SLIDE UP"@,
            TransitionType::SlideDown => "SLIDE DOWN"@,
            TransitionType::WipeLeft => "WIPE LEFT"@,
            TransitionType::WipeRight => "WIPE RIGHT"@,
            TransitionType::WipeUp => "WIPE UP"@,
            TransitionType::WipeDown => "WIPE DOWN"@,
            TransitionType::Morph => "MORPH"@,
            TransitionType::Bounce => "BOUNCE"@,
            TransitionType::Elastic => "ELASTIC"@,
            TransitionType::EaseIn => "EASE IN"@,
            TransitionType::EaseOut => "EASE OUT"@,
            TransitionType::EaseInOut => "EASE IN-OUT"@,
            TransitionType::Accelerated => "ACCELERATED"@,
            TransitionType::CircularWipe => "CIRCULAR WIPE"@,
            TransitionType::DiagonalWipe => "DIAGONAL WIPE"@,
            TransitionType::Pixelate => "PIXELATE"@,
        }
    }
}

/// The easing curve attached to a transition kind: identity for the purely
/// spatial effects, a quadratic, cubic or sinusoidal curve for the named
/// easing kinds.
pub open spec fn sp_eased(kind: TransitionType, t: int) -> int {
    match kind {
        TransitionType::EaseIn => sp_ease_in(t),
        TransitionType::EaseOut => sp_ease_out(t),
        TransitionType::EaseInOut => sp_ease_in_out(t),
        TransitionType::Accelerated => sp_ease_cubic(t),
        TransitionType::Bounce => sp_ease_cubic_in_out(t),
        TransitionType::Elastic => sp_ease_sine(t),
        _ => t,
    }
}

/// Maps raw progress through the easing curve of the given kind.
pub fn apply_easing(t: u32, kind: &TransitionType) -> (r: u32)
    requires
        t <= 1000,
    ensures
        r == sp_eased(*kind, t as int),
        r <= 1000,
{
    match kind {
        TransitionType::EaseIn => ease_in(t),
        TransitionType::EaseOut => ease_out(t),
        TransitionType::EaseInOut => ease_in_out(t),
        TransitionType::Accelerated => ease_cubic(t),
        TransitionType::Bounce => ease_cubic_in_out(t),
        TransitionType::Elastic => ease_sine(t),
        _ => t,
    }
}

/// Every easing curve starts at 0 and ends at full progress, so every
/// transition starts on the old image and ends on the new one.
pub proof fn lemma_easing_endpoints(kind: TransitionType)
    ensures
        sp_eased(kind, 0) == 0,
        sp_eased(kind, 1000) == 1000,
{
    assert(sp_ease_in(0) == 0);
    assert(sp_ease_in(1000) == 1000);
    assert(sp_ease_out(0) == 0);
    assert(sp_ease_out(1000) == 1000);
    assert(sp_ease_in_out(0) == 0);
    assert(sp_ease_in_out(1000) == 1000);
    assert(sp_ease_cubic(0) == 0);
    assert(sp_ease_cubic(1000) == 1000);
    assert(sp_ease_cubic_in_out(0) == 0);
    assert(sp_ease_cubic_in_out(1000) == 1000);
    assert(sp_ease_sine(0) == 0);
    assert(sp_sin_half(1000int / 4) == 1000) by {
        assert(16000 * 250 * (500 - 250) == 1000000000);
        assert(1250000 - 4 * 250 * (500 - 250) == 1000000);
        assert(1000000000int / 1000000 == 1000);
    }
    assert(sp_ease_sine(1000) == 1000int * 1000 / 1000);
    assert(1000int * 1000 / 1000 == 1000);
}

/// Number of frames of a transition: one per 33 ms (about 30 per second),
/// and at least one.
pub open spec fn sp_frame_count(duration_ms: int) -> int {
    if duration_ms / 33 >= 1 {
        duration_ms / 33
    } else {
        1
    }
}

pub fn frame_count(duration_ms: u64) -> (n: u64)
    ensures
        n == sp_frame_count(duration_ms as int),
        n >= 1,
{
    let n = duration_ms / 33;
    if n >= 1 {
        n
    } else {
        1
    }
}

/// Raw progress of frame `i` of `n`, in permille: frame 0 sits at 0,
/// frame `n - 1` at 1000, and a single-frame transition uses progress 0.
pub open spec fn sp_progress(i: int, n: int) -> int {
    if n <= 1 {
        0
    } else {
        i * 1000 / (n - 1)
    }
}

pub fn progress_pm(i: u64, n: u64) -> (p: u32)
    requires
        n >= 1,
        i < n,
    ensures
        p == sp_progress(i as int, n as int),
        p <= 1000,
        i == 0 ==> p == 0,
        n >= 2 && i == n - 1 ==> p == 1000,
{
    if n <= 1 {
        0
    } else {
        proof {
            let ii = i as int;
            let d = n - 1 as int;
            assert(ii * 1000 <= d * 1000) by (nonlinear_arith)
                requires
                    0 <= ii <= d,
            ;
            lemma_div_is_ordered(ii * 1000, d * 1000, d);
            lemma_div_multiples_vanish(1000, d);
            assert(d * 1000 == 1000 * d) by (nonlinear_arith);
            assert(ii * 1000 >= 0) by (nonlinear_arith)
                requires
                    ii >= 0,
            ;
            lemma_div_pos_is_pos(ii * 1000, d);
        }
        let q: u128 = (i as u128) * 1000 / ((n - 1) as u128);
        q as u32
    }
}

/// The channel of a pixel at a given index, in R, G, B, A order.
pub open spec fn px_ch(p: Px, ch: int) -> u8 {
    if ch == 0 {
        p.r
    } else if ch == 1 {
        p.g
    } else if ch == 2 {
        p.b
    } else {
        p.a
    }
}

/// Linear blend of two channel values by eased progress `e` permille.
pub open spec fn sp_blend_ch(a: u8, b: u8, e: int) -> u8 {
    ((a * (1000 - e) + b * e) / 1000) as u8
}

/// Per-channel linear blend of two pixels.
pub open spec fn sp_blend_px(a: Px, b: Px, e: int) -> Px {
    Px {
        r: sp_blend_ch(a.r, b.r, e),
        g: sp_blend_ch(a.g, b.g, e),
        b: sp_blend_ch(a.b, b.b, e),
        a: sp_blend_ch(a.a, b.a, e),
    }
}

fn blend_ch(a: u8, b: u8, e: u32) -> (r: u8)
    requires
        e <= 1000,
    ensures
        r == sp_blend_ch(a, b, e as int),
{
    proof {
        assert(0 <= a * (1000 - e) + b * e <= 255000) by (nonlinear_arith)
            requires
                0 <= e <= 1000,
                0 <= a <= 255,
                0 <= b <= 255,
        ;
        lemma_div_is_ordered(a * (1000 - e) + b * e, 255000, 1000);
        lemma_div_pos_is_pos(a * (1000 - e) + b * e, 1000);
    }
    let s: u32 = (a as u32) * (1000 - e) + (b as u32) * e;
    (s / 1000) as u8
}

fn blend_px(a: Px, b: Px, e: u32) -> (r: Px)
    requires
        e <= 1000,
    ensures
        r == sp_blend_px(a, b, e as int),
{
    Px {
        r: blend_ch(a.r, b.r, e),
        g: blend_ch(a.g, b.g, e),
        b: blend_ch(a.b, b.b, e),
        a: blend_ch(a.a, b.a, e),
    }
}

/// At zero progress a blend is the old pixel; at full progress, the new one.
pub proof fn lemma_blend_endpoints(a: Px, b: Px)
    ensures
        sp_blend_px(a, b, 0) == a,
        sp_blend_px(a, b, 1000) == b,
{
    assert(a.r * 1000 / 1000 == a.r && a.g * 1000 / 1000 == a.g && a.b * 1000 / 1000 == a.b
        && a.a * 1000 / 1000 == a.a);
    assert(b.r * 1000 / 1000 == b.r && b.g * 1000 / 1000 == b.g && b.b * 1000 / 1000 == b.b
        && b.a * 1000 / 1000 == b.a);
}

/// Slide offset along one axis: progress times the extent.
pub open spec fn sp_slide_offset(e: int, extent: int) -> int {
    e * extent / 1000
}

/// The composite pixel of a slide: both canvases travel by the offset, the
/// new image enters from one edge while the old leaves by the other, and
/// uncovered pixels are background black.
pub open spec fn sp_slide_px(from: Img, to: Img, e: int, dx: int, dy: int, x: int, y: int) -> Px {
    let w = from.w as int;
    let h = from.h as int;
    let offx = dx * sp_slide_offset(e, w);
    let offy = dy * sp_slide_offset(e, h);
    let x2 = x - offx + w * dx;
    let y2 = y - offy + h * dy;
    let x1 = x - offx;
    let y1 = y - offy;
    if 0 <= x2 < w && 0 <= y2 < h {
        to.at(x2, y2)
    } else if 0 <= x1 < w && 0 <= y1 < h {
        from.at(x1, y1)
    } else {
        spec_black()
    }
}

/// Whether a wipe shows the new image at `(x, y)`: a hard boundary at the
/// eased progress sweeps across one axis, and a pixel exactly on the
/// boundary stays on the old image.  At full progress the wipe covers
/// everything, the boundary included.  Directions: 0 from the left,
/// 1 from the right, 2 upward, 3 downward.
pub open spec fn sp_wipe_shows_to(e: int, w: int, h: int, dir: int, x: int, y: int) -> bool {
    if dir == 0 {
        x * 1000 < e * w
    } else if dir == 1 {
        e == 1000 || x * 1000 > (1000 - e) * w
    } else if dir == 2 {
        e == 1000 || y * 1000 > (1000 - e) * h
    } else {
        y * 1000 < e * h
    }
}

/// Whether a circular wipe shows the new image at `(x, y)`: pixels within
/// `progress` times the half-diagonal of the canvas center do.  At full
/// progress the circle covers everything, corners included.
pub open spec fn sp_circ_shows_to(e: int, w: int, h: int, x: int, y: int) -> bool {
    ||| e == 1000
    ||| 1000000 * ((2 * x - w) * (2 * x - w) + (2 * y - h) * (2 * y - h)) < e * e * (w * w + h
        * h)
}

/// Whether a diagonal wipe shows the new image: the boundary is the
/// anti-diagonal swept from the top-left corner.
pub open spec fn sp_diag_shows_to(e: int, w: int, h: int, x: int, y: int) -> bool {
    (x + y) * 1000 < e * (w + h)
}

/// Side of a pixelate block: from 16 at zero progress down to 1 at full
/// progress.
pub open spec fn sp_block_side(e: int) -> int {
    1 + (1000 - e) * 15 / 1000
}

/// What pixelate may leave at `(x, y)`: the sample taken at the corner of
/// the surrounding block, from either canvas; the old one surely at zero
/// progress, the new one surely at full progress.
pub open spec fn sp_pixelate_ok(from: Img, to: Img, e: int, p: Px, x: int, y: int) -> bool {
    let b = sp_block_side(e);
    let cx = x / b * b;
    let cy = y / b * b;
    &&& (p == from.at(cx, cy) || p == to.at(cx, cy))
    &&& (e == 0 ==> p == from.at(cx, cy))
    &&& (e == 1000 ==> p == to.at(x, y))
}

/// The pixel pixelate paints at `(x, y)` given the per-block draws: the
/// sample at the corner of the surrounding block, from the new canvas
/// when the block's draw came up and from the old one otherwise.
pub open spec fn sp_pixelate_cell(
    draws: Seq<bool>,
    from: Img,
    to: Img,
    b: int,
    nbx: int,
    x: int,
    y: int,
) -> Px {
    let cx = x / b * b;
    let cy = y / b * b;
    if draws[(y / b) * nbx + x / b] {
        to.at(cx, cy)
    } else {
        from.at(cx, cy)
    }
}

/// Every pixel of a side-`b` block shows the block's one sample.
pub open spec fn sp_block_uniform(out: Img, b: int) -> bool {
    forall|x: int, y: int|
        0 <= x < out.w && 0 <= y < out.h ==> #[trigger] out.at(x, y) == out.at(
            x / b * b,
            y / b * b,
        )
}

/// What dissolve may leave at `(x, y)`: either canvas's pixel, decided by
/// an independent Bernoulli draw with success probability `e` permille.
pub open spec fn sp_dissolve_ok(from: Img, to: Img, e: int, p: Px, x: int, y: int) -> bool {
    &&& (p == from.at(x, y) || p == to.at(x, y))
    &&& (e == 0 ==> p == from.at(x, y))
    &&& (e == 1000 ==> p == to.at(x, y))
}

/// Signed spatial displacement of the morph wave: the scaled sine value
/// times progress times the extent, a tenth of the extent at most.
pub open spec fn sp_morph_disp(s: int, e: int, extent: int) -> int {
    if s >= 0 {
        s * e * extent / 10000000
    } else {
        -((-s) * e * extent / 10000000)
    }
}

/// Clamps a coordinate into `[0, hi]`.
pub open spec fn sp_clamp(v: int, hi: int) -> int {
    if v < 0 {
        0
    } else if v > hi {
        hi
    } else {
        v
    }
}

/// The composite pixel of a morph: the old image is sampled through a
/// sinusoidal displacement that grows with progress, then blended with the
/// new image by raw progress.
pub open spec fn sp_morph_px(from: Img, to: Img, e: int, x: int, y: int) -> Px {
    let w = from.w as int;
    let h = from.h as int;
    let phx = (y * 3 + e) % 1000;
    let phy = (x * 3 + e + 250) % 1000;
    let sx = sp_clamp(x + sp_morph_disp(sp_sin_turn(phx), e, w), w - 1);
    let sy = sp_clamp(y + sp_morph_disp(sp_sin_turn(phy), e, h), h - 1);
    sp_blend_px(from.at(sx, sy), to.at(x, y), e)
}

/// The per-pixel contract of one transition frame at raw progress `p`:
/// for the deterministic kinds the pixel is pinned exactly; for the
/// stochastic kinds every admissible outcome is described, with the
/// endpoints still pinned.
pub open spec fn sp_frame_px_ok(
    kind: TransitionType,
    from: Img,
    to: Img,
    p: int,
    q: Px,
    x: int,
    y: int,
) -> bool {
    let e = sp_eased(kind, p);
    let w = from.w as int;
    let h = from.h as int;
    match kind {
        TransitionType::Dissolve => sp_dissolve_ok(from, to, e, q, x, y),
        TransitionType::Pixelate => sp_pixelate_ok(from, to, e, q, x, y),
        TransitionType::SlideLeft => q == sp_slide_px(from, to, e, -1, 0, x, y),
        TransitionType::SlideRight => q == sp_slide_px(from, to, e, 1, 0, x, y),
        TransitionType::SlideUp => q == sp_slide_px(from, to, e, 0, -1, x, y),
        TransitionType::SlideDown => q == sp_slide_px(from, to, e, 0, 1, x, y),
        TransitionType::WipeLeft => q == if sp_wipe_shows_to(e, w, h, 0, x, y) {
            to.at(x, y)
        } else {
            from.at(x, y)
        },
        TransitionType::WipeRight => q == if sp_wipe_shows_to(e, w, h, 1, x, y) {
            to.at(x, y)
        } else {
            from.at(x, y)
        },
        TransitionType::WipeUp => q == if sp_wipe_shows_to(e, w, h, 2, x, y) {
            to.at(x, y)
        } else {
            from.at(x, y)
        },
        TransitionType::WipeDown => q == if sp_wipe_shows_to(e, w, h, 3, x, y) {
            to.at(x, y)
        } else {
            from.at(x, y)
        },
        TransitionType::CircularWipe => q == if sp_circ_shows_to(e, w, h, x, y) {
            to.at(x, y)
        } else {
            from.at(x, y)
        },
        TransitionType::DiagonalWipe => q == if sp_diag_shows_to(e, w, h, x, y) {
            to.at(x, y)
        } else {
            from.at(x, y)
        },
        TransitionType::Morph => q == sp_morph_px(from, to, e, x, y),
        _ => q == sp_blend_px(from.at(x, y), to.at(x, y), e),
    }
}

fn slide_px(from: &Canvas, to: &Canvas, e: u32, dx: i32, dy: i32, x: u32, y: u32) -> (q: Px)
    requires
        from.wf(),
        to.wf(),
        from@.w == to@.w,
        from@.h == to@.h,
        e <= 1000,
        dx == -1 || dx == 0 || dx == 1,
        dy == -1 || dy == 0 || dy == 1,
        (dx == 0) != (dy == 0),
        x < from.width,
        y < from.height,
    ensures
        q == sp_slide_px(from@, to@, e as int, dx as int, dy as int, x as int, y as int),
{
    let w = from.width;
    let h = from.height;
    proof {
        assert(0 <= e * w <= 1000 * w && 0 <= e * h <= 1000 * h) by (nonlinear_arith)
            requires
                0 <= e <= 1000,
                w >= 0,
                h >= 0,
        ;
        lemma_div_is_ordered(e * w, 1000 * w, 1000);
        lemma_div_is_ordered(e * h, 1000 * h, 1000);
        lemma_div_multiples_vanish(w as int, 1000);
        lemma_div_multiples_vanish(h as int, 1000);
        lemma_div_pos_is_pos(e * w, 1000);
        lemma_div_pos_is_pos(e * h, 1000);
    }
    proof {
        assert(0 <= (e as int) * (w as int) <= 1000 * 8192 && 0 <= (e as int) * (h as int)
            <= 1000 * 8192) by (nonlinear_arith)
            requires
                0 <= e <= 1000,
                0 <= w <= 8192,
                0 <= h <= 8192,
        ;
    }
    let sofx: i64 = (((e as u64) * (w as u64)) / 1000) as i64;
    let sofy: i64 = (((e as u64) * (h as u64)) / 1000) as i64;
    let offx: i64 = if dx == 1 {
        sofx
    } else if dx == -1 {
        -sofx
    } else {
        0
    };
    let offy: i64 = if dy == 1 {
        sofy
    } else if dy == -1 {
        -sofy
    } else {
        0
    };
    let stepx: i64 = if dx == 1 {
        w as i64
    } else if dx == -1 {
        -(w as i64)
    } else {
        0
    };
    let stepy: i64 = if dy == 1 {
        h as i64
    } else if dy == -1 {
        -(h as i64)
    } else {
        0
    };
    proof {
        assert(offx == (dx as int) * sp_slide_offset(e as int, w as int) && stepx == (
        w as int) * (dx as int)) by (nonlinear_arith)
            requires
                dx == -1 || dx == 0 || dx == 1,
                offx == (if dx == 1 {
                    sp_slide_offset(e as int, w as int)
                } else if dx == -1 {
                    -sp_slide_offset(e as int, w as int)
                } else {
                    0
                }),
                stepx == (if dx == 1 {
                    w as int
                } else if dx == -1 {
                    -(w as int)
                } else {
                    0
                }),
        ;
        assert(offy == (dy as int) * sp_slide_offset(e as int, h as int) && stepy == (
        h as int) * (dy as int)) by (nonlinear_arith)
            requires
                dy == -1 || dy == 0 || dy == 1,
                offy == (if dy == 1 {
                    sp_slide_offset(e as int, h as int)
                } else if dy == -1 {
                    -sp_slide_offset(e as int, h as int)
                } else {
                    0
                }),
                stepy == (if dy == 1 {
                    h as int
                } else if dy == -1 {
                    -(h as int)
                } else {
                    0
                }),
        ;
    }
    let x2: i64 = (x as i64) - offx + stepx;
    let y2: i64 = (y as i64) - offy + stepy;
    let x1: i64 = (x as i64) - offx;
    let y1: i64 = (y as i64) - offy;
    if 0 <= x2 && x2 < w as i64 && 0 <= y2 && y2 < h as i64 {
        to.get_px(x2 as u32, y2 as u32)
    } else if 0 <= x1 && x1 < w as i64 && 0 <= y1 && y1 < h as i64 {
        from.get_px(x1 as u32, y1 as u32)
    } else {
        black()
    }
}

fn wipe_shows_to(e: u32, w: u32, h: u32, dir: u32, x: u32, y: u32) -> (r: bool)
    requires
        e <= 1000,
        dir < 4,
        w <= crate::MAX_DIM,
        h <= crate::MAX_DIM,
        x < w,
        y < h,
    ensures
        r == sp_wipe_shows_to(e as int, w as int, h as int, dir as int, x as int, y as int),
{
    proof {
        assert(0 <= (e as int) * (w as int) <= 1000 * 8192 && 0 <= (e as int) * (h as int)
            <= 1000 * 8192 && 0 <= (1000 - e as int) * (w as int) <= 1000 * 8192 && 0 <= (1000
            - e as int) * (h as int) <= 1000 * 8192) by (nonlinear_arith)
            requires
                0 <= e <= 1000,
                0 <= w <= 8192,
                0 <= h <= 8192,
        ;
    }
    if dir == 0 {
        (x as u64) * 1000 < (e as u64) * (w as u64)
    } else if dir == 1 {
        e == 1000 || (x as u64) * 1000 > ((1000 - e) as u64) * (w as u64)
    } else if dir == 2 {
        e == 1000 || (y as u64) * 1000 > ((1000 - e) as u64) * (h as u64)
    } else {
        (y as u64) * 1000 < (e as u64) * (h as u64)
    }
}

fn circ_shows_to(e: u32, w: u32, h: u32, x: u32, y: u32) -> (r: bool)
    requires
        e <= 1000,
        1 <= w <= crate::MAX_DIM,
        1 <= h <= crate::MAX_DIM,
        x < w,
        y < h,
    ensures
        r == sp_circ_shows_to(e as int, w as int, h as int, x as int, y as int),
{
    if e == 1000 {
        return true;
    }
    let dx: i64 = 2 * (x as i64) - (w as i64);
    let dy: i64 = 2 * (y as i64) - (h as i64);
    proof {
        assert(dx * dx <= 4 * 8192 * 8192 && dy * dy <= 4 * 8192 * 8192 && dx * dx >= 0 && dy
            * dy >= 0) by (nonlinear_arith)
            requires
                -8192 <= dx <= 2 * 8192,
                -8192 <= dy <= 2 * 8192,
        ;
        assert(0 <= (e as int) * (e as int) <= 1000000 && 0 <= (w as int) * (w as int) <= 8192
            * 8192 && 0 <= (h as int) * (h as int) <= 8192 * 8192) by (nonlinear_arith)
            requires
                0 <= e <= 1000,
                0 <= w <= 8192,
                0 <= h <= 8192,
        ;
        assert(0 <= (e as int) * (e as int) * ((w as int) * (w as int) + (h as int) * (h
            as int)) <= 1000000 * (2 * 8192 * 8192)) by (nonlinear_arith)
            requires
                0 <= (e as int) * (e as int) <= 1000000,
                0 <= (w as int) * (w as int) <= 8192 * 8192,
                0 <= (h as int) * (h as int) <= 8192 * 8192,
        ;
    }
    let d2: i64 = dx * dx + dy * dy;
    let lhs: i64 = 1000000 * d2;
    let rhs: i64 = (e as i64) * (e as i64) * ((w as i64) * (w as i64) + (h as i64) * (h
        as i64));
    lhs < rhs
}

fn diag_shows_to(e: u32, w: u32, h: u32, x: u32, y: u32) -> (r: bool)
    requires
        e <= 1000,
        w <= crate::MAX_DIM,
        h <= crate::MAX_DIM,
        x < w,
        y < h,
    ensures
        r == sp_diag_shows_to(e as int, w as int, h as int, x as int, y as int),
{
    proof {
        assert(0 <= (e as int) * ((w as int) + (h as int)) <= 1000 * 16384)
            by (nonlinear_arith)
            requires
                0 <= e <= 1000,
                0 <= w <= 8192,
                0 <= h <= 8192,
        ;
    }
    ((x as u64) + (y as u64)) * 1000 < (e as u64) * ((w as u64) + (h as u64))
}

fn morph_disp(s: i32, e: u32, extent: u32) -> (d: i64)
    requires
        -1000 <= s <= 1000,
        e <= 1000,
        extent <= crate::MAX_DIM,
    ensures
        d == sp_morph_disp(s as int, e as int, extent as int),
        -(extent as int) <= d <= extent as int,
{
    proof {
        let m = if s >= 0 { s as int } else { -(s as int) };
        assert(0 <= m * e <= 1000000 && 0 <= m * e * extent <= 1000000 * (extent as int))
            by (nonlinear_arith)
            requires
                0 <= m <= 1000,
                0 <= e <= 1000,
                0 <= extent,
        ;
        lemma_div_is_ordered(m * (e as int) * (extent as int), 10000000 * (extent as int),
            10000000);
        lemma_div_multiples_vanish(extent as int, 10000000);
        lemma_div_pos_is_pos(m * (e as int) * (extent as int), 10000000);
    }
    if s >= 0 {
        (((s as u64) * (e as u64) * (extent as u64)) / 10000000) as i64
    } else {
        let m: u64 = (-s) as u64;
        -(((m * (e as u64) * (extent as u64)) / 10000000) as i64)
    }
}

fn morph_px(from: &Canvas, to: &Canvas, e: u32, x: u32, y: u32) -> (q: Px)
    requires
        from.wf(),
        to.wf(),
        from@.w == to@.w,
        from@.h == to@.h,
        e <= 1000,
        x < from.width,
        y < from.height,
    ensures
        q == sp_morph_px(from@, to@, e as int, x as int, y as int),
{
    let w = from.width;
    let h = from.height;
    let phx: u32 = ((y as u64 * 3 + e as u64) % 1000) as u32;
    let phy: u32 = ((x as u64 * 3 + e as u64 + 250) % 1000) as u32;
    let sxd: i64 = (x as i64) + morph_disp(sin_turn(phx), e, w);
    let syd: i64 = (y as i64) + morph_disp(sin_turn(phy), e, h);
    let sx: u32 = if sxd < 0 {
        0
    } else if sxd > (w - 1) as i64 {
        w - 1
    } else {
        sxd as u32
    };
    let sy: u32 = if syd < 0 {
        0
    } else if syd > (h - 1) as i64 {
        h - 1
    } else {
        syd as u32
    };
    let a = from.get_px(sx, sy);
    let b = to.get_px(x, y);
    blend_px(a, b, e)
}

/// The composite pixel of one frame for every kind except pixelate, whose
/// draws are shared per block rather than per pixel.
fn frame_px(from: &Canvas, to: &Canvas, kind: &TransitionType, p: u32, e: u32, x: u32, y: u32) -> (q:
    Px)
    requires
        from.wf(),
        to.wf(),
        from@.w == to@.w,
        from@.h == to@.h,
        p <= 1000,
        e == sp_eased(*kind, p as int),
        e <= 1000,
        *kind != TransitionType::Pixelate,
        x < from.width,
        y < from.height,
    ensures
        sp_frame_px_ok(*kind, from@, to@, p as int, q, x as int, y as int),
{
    let w = from.width;
    let h = from.height;
    match kind {
        TransitionType::Dissolve => {
            let draw = random_below(1000);
            if draw < e {
                to.get_px(x, y)
            } else {
                from.get_px(x, y)
            }
        },
        TransitionType::SlideLeft => slide_px(from, to, e, -1, 0, x, y),
        TransitionType::SlideRight => slide_px(from, to, e, 1, 0, x, y),
        TransitionType::SlideUp => slide_px(from, to, e, 0, -1, x, y),
        TransitionType::SlideDown => slide_px(from, to, e, 0, 1, x, y),
        TransitionType::WipeLeft => {
            if wipe_shows_to(e, w, h, 0, x, y) {
                to.get_px(x, y)
            } else {
                from.get_px(x, y)
            }
        },
        TransitionType::WipeRight => {
            if wipe_shows_to(e, w, h, 1, x, y) {
                to.get_px(x, y)
            } else {
                from.get_px(x, y)
            }
        },
        TransitionType::WipeUp => {
            if wipe_shows_to(e, w, h, 2, x, y) {
                to.get_px(x, y)
            } else {
                from.get_px(x, y)
            }
        },
        TransitionType::WipeDown => {
            if wipe_shows_to(e, w, h, 3, x, y) {
                to.get_px(x, y)
            } else {
                from.get_px(x, y)
            }
        },
        TransitionType::CircularWipe => {
            if circ_shows_to(e, w, h, x, y) {
                to.get_px(x, y)
            } else {
                from.get_px(x, y)
            }
        },
        TransitionType::DiagonalWipe => {
            if diag_shows_to(e, w, h, x, y) {
                to.get_px(x, y)
            } else {
                from.get_px(x, y)
            }
        },
        TransitionType::Morph => morph_px(from, to, e, x, y),
        _ => blend_px(from.get_px(x, y), to.get_px(x, y), e),
    }
}


/// The pixel stored at `(x, y)` of a flat byte grid of width `w`.
pub open spec fn px_at(s: Seq<u8>, w: int, x: int, y: int) -> Px {
    Px {
        r: s[(y * w + x) * 4],
        g: s[(y * w + x) * 4 + 1],
        b: s[(y * w + x) * 4 + 2],
        a: s[(y * w + x) * 4 + 3],
    }
}

/// Distinct block cells index distinct draw slots.
proof fn lemma_cell_index_bound(nbx: int, nby: int, bx: int, by: int)
    by (nonlinear_arith)
    requires
        0 <= bx < nbx,
        0 <= by < nby,
    ensures
        0 <= by * nbx + bx < nby * nbx,
{
}

/// The pixelate variant of one transition frame: the canvas splits into
/// blocks whose side shrinks with progress; each block takes the sample at
/// its corner, from the new canvas with probability equal to progress.
fn pixelate_frame(from: &Canvas, to: &Canvas, e: u32) -> (out: Canvas)
    requires
        from.wf(),
        to.wf(),
        from@.w == to@.w,
        from@.h == to@.h,
        e <= 1000,
    ensures
        out.wf(),
        out@.w == from@.w,
        out@.h == from@.h,
        forall|x: int, y: int|
            0 <= x < from@.w && 0 <= y < from@.h ==> sp_pixelate_ok(
                from@,
                to@,
                e as int,
                #[trigger] out@.at(x, y),
                x,
                y,
            ),
        sp_block_uniform(out@, sp_block_side(e as int)),
{
    let w = from.width;
    let h = from.height;
    proof {
        assert(0 <= (1000 - e as int) * 15 <= 15000);
        lemma_div_is_ordered((1000 - e as int) * 15, 15000, 1000);
        lemma_div_pos_is_pos((1000 - e as int) * 15, 1000);
    }
    let b: u32 = 1 + (1000 - e) * 15 / 1000;
    let nbx: u32 = (w - 1) / b + 1;
    let nby: u32 = (h - 1) / b + 1;
    let ghost gb = b as int;
    let mut draws: Vec<bool> = Vec::new();
    proof {
        vstd::arithmetic::div_mod::lemma_div_nonincreasing(w as int - 1, b as int);
        vstd::arithmetic::div_mod::lemma_div_nonincreasing(h as int - 1, b as int);
        vstd::arithmetic::div_mod::lemma_div_pos_is_pos(w as int - 1, b as int);
        vstd::arithmetic::div_mod::lemma_div_pos_is_pos(h as int - 1, b as int);
        assert((nbx as int) * (nby as int) <= 8192 * 8192) by (nonlinear_arith)
            requires
                0 <= nbx <= 8192,
                0 <= nby <= 8192,
        ;
    }
    let total: usize = (nbx as usize) * (nby as usize);
    let mut k: usize = 0;
    while k < total
        invariant
            k <= total,
            draws.len() == k,
            forall|j: int| 0 <= j < k && e == 0 ==> !(#[trigger] draws@[j]),
            forall|j: int| 0 <= j < k && e == 1000 ==> #[trigger] draws@[j],
            e <= 1000,
        decreases total - k,
    {
        let d = random_below(1000) < e;
        draws.push(d);
        k = k + 1;
    }
    let mut data: Vec<u8> = Vec::new();
    let mut y: u32 = 0;
    while y < h
        invariant
            from.wf(),
            to.wf(),
            from@.w == to@.w,
            from@.h == to@.h,
            w == from.width,
            h == from.height,
            e <= 1000,
            gb == sp_block_side(e as int),
            1 <= b <= 16,
            b == gb,
            nbx == (w as int - 1) / (b as int) + 1,
            nby == (h as int - 1) / (b as int) + 1,
            draws.len() == (nbx as int) * (nby as int),
            forall|j: int| 0 <= j < draws.len() && e == 0 ==> !(#[trigger] draws@[j]),
            forall|j: int| 0 <= j < draws.len() && e == 1000 ==> #[trigger] draws@[j],
            y <= h,
            data.len() == y * w * 4,
            forall|xx: int, yy: int|
                0 <= xx < w && 0 <= yy < y ==> #[trigger] px_at(data@, w as int, xx, yy)
                    == sp_pixelate_cell(draws@, from@, to@, gb, nbx as int, xx, yy),
        decreases h - y,
    {
        let mut x: u32 = 0;
        while x < w
            invariant
                from.wf(),
                to.wf(),
                from@.w == to@.w,
                from@.h == to@.h,
                w == from.width,
                h == from.height,
                e <= 1000,
                gb == sp_block_side(e as int),
                1 <= b <= 16,
                b == gb,
                nbx == (w as int - 1) / (b as int) + 1,
                nby == (h as int - 1) / (b as int) + 1,
                draws.len() == (nbx as int) * (nby as int),
                forall|j: int| 0 <= j < draws.len() && e == 0 ==> !(#[trigger] draws@[j]),
                forall|j: int| 0 <= j < draws.len() && e == 1000 ==> #[trigger] draws@[j],
                y < h,
                x <= w,
                data.len() == y * w * 4 + x * 4,
                forall|xx: int, yy: int|
                    0 <= xx < w && 0 <= yy < y ==> #[trigger] px_at(data@, w as int, xx, yy)
                        == sp_pixelate_cell(draws@, from@, to@, gb, nbx as int, xx, yy),
                forall|xx: int|
                    0 <= xx < x ==> #[trigger] px_at(data@, w as int, xx, y as int)
                        == sp_pixelate_cell(draws@, from@, to@, gb, nbx as int, xx, y as int),
            decreases w - x,
        {
            let bx: u32 = x / b;
            let by: u32 = y / b;
            proof {
                lemma_div_is_ordered(x as int, w as int - 1, b as int);
                lemma_div_is_ordered(y as int, h as int - 1, b as int);
                lemma_cell_index_bound(nbx as int, nby as int, bx as int, by as int);
                assert((by as int) * (nbx as int) + bx == (by * nbx + bx) as int)
                    by (nonlinear_arith)
                    requires
                        0 <= bx < nbx,
                        0 <= by < nby,
                        nbx <= 8192,
                        nby <= 8192,
                ;
                vstd::arithmetic::div_mod::lemma_fundamental_div_mod(x as int, b as int);
                vstd::arithmetic::div_mod::lemma_fundamental_div_mod(y as int, b as int);
                assert((x as int) / gb * gb <= x && (y as int) / gb * gb <= y)
                    by (nonlinear_arith)
                    requires
                        gb >= 1,
                        x as int == gb * ((x as int) / gb) + (x as int) % gb,
                        y as int == gb * ((y as int) / gb) + (y as int) % gb,
                        (x as int) % gb >= 0,
                        (y as int) % gb >= 0,
                ;
                assert((bx as int) * gb == (x as int) / gb * gb && (by as int) * gb == (
                y as int) / gb * gb) by (nonlinear_arith)
                    requires
                        bx == (x as int) / gb,
                        by == (y as int) / gb,
                ;
            }
            let d: bool = draws[(by as usize) * (nbx as usize) + (bx as usize)];
            let cx: u32 = bx * b;
            let cy: u32 = by * b;
            let q: Px = if d {
                to.get_px(cx, cy)
            } else {
                from.get_px(cx, cy)
            };
            let ghost pre = data@;
            data.push(q.r);
            data.push(q.g);
            data.push(q.b);
            data.push(q.a);
            proof {
                assert(px_at(data@, w as int, x as int, y as int) == q);
                assert(q == sp_pixelate_cell(
                    draws@,
                    from@,
                    to@,
                    gb,
                    nbx as int,
                    x as int,
                    y as int,
                ));
                assert forall|xx: int, yy: int|
                    0 <= xx < w && 0 <= yy < y implies #[trigger] px_at(data@, w as int, xx, yy)
                    == px_at(pre, w as int, xx, yy) by {
                    assert(0 <= (yy * w + xx) * 4 + 3 < y * w * 4) by (nonlinear_arith)
                        requires
                            0 <= yy < y,
                            0 <= xx < w,
                    ;
                    assert(data@[(yy * w + xx) * 4] == pre[(yy * w + xx) * 4]);
                    assert(data@[(yy * w + xx) * 4 + 1] == pre[(yy * w + xx) * 4 + 1]);
                    assert(data@[(yy * w + xx) * 4 + 2] == pre[(yy * w + xx) * 4 + 2]);
                    assert(data@[(yy * w + xx) * 4 + 3] == pre[(yy * w + xx) * 4 + 3]);
                }
                assert forall|xx: int|
                    0 <= xx < x implies #[trigger] px_at(data@, w as int, xx, y as int)
                    == px_at(pre, w as int, xx, y as int) by {
                    assert(0 <= (y * w + xx) * 4 + 3 < y * w * 4 + x * 4);
                    assert(data@[(y * w + xx) * 4] == pre[(y * w + xx) * 4]);
                    assert(data@[(y * w + xx) * 4 + 1] == pre[(y * w + xx) * 4 + 1]);
                    assert(data@[(y * w + xx) * 4 + 2] == pre[(y * w + xx) * 4 + 2]);
                    assert(data@[(y * w + xx) * 4 + 3] == pre[(y * w + xx) * 4 + 3]);
                }
            }
            x = x + 1;
        }
        proof {
            assert(y * w * 4 + w * 4 == (y + 1) * w * 4) by (nonlinear_arith);
        }
        y = y + 1;
    }
    let out = Canvas { width: w, height: h, data };
    proof {
        assert(out.data@.len() == h * w * 4);
        assert(w * h * 4 == h * w * 4) by (nonlinear_arith);
        assert forall|x: int, y2: int|
            0 <= x < from@.w && 0 <= y2 < from@.h implies #[trigger] out@.at(x, y2)
            == sp_pixelate_cell(draws@, from@, to@, gb, nbx as int, x, y2) by {
            assert(px_at(out.data@, w as int, x, y2) == out@.at(x, y2));
        }
        assert forall|x: int, y2: int|
            0 <= x < from@.w && 0 <= y2 < from@.h implies sp_pixelate_ok(
            from@,
            to@,
            e as int,
            #[trigger] out@.at(x, y2),
            x,
            y2,
        ) && out@.at(x, y2) == out@.at(x / gb * gb, y2 / gb * gb) by {
            lemma_div_is_ordered(x, w as int - 1, gb);
            lemma_div_is_ordered(y2, h as int - 1, gb);
            lemma_cell_index_bound(nbx as int, nby as int, x / gb, y2 / gb);
            vstd::arithmetic::div_mod::lemma_fundamental_div_mod(x, gb);
            vstd::arithmetic::div_mod::lemma_fundamental_div_mod(y2, gb);
            assert(x / gb * gb <= x && y2 / gb * gb <= y2) by (nonlinear_arith)
                requires
                    gb >= 1,
                    x == gb * (x / gb) + x % gb,
                    y2 == gb * (y2 / gb) + y2 % gb,
                    x % gb >= 0,
                    y2 % gb >= 0,
            ;
            let cx = x / gb * gb;
            let cy = y2 / gb * gb;
            lemma_div_multiples_vanish(x / gb, gb);
            lemma_div_multiples_vanish(y2 / gb, gb);
            assert(cx == gb * (x / gb) && cy == gb * (y2 / gb)) by (nonlinear_arith)
                requires
                    cx == x / gb * gb,
                    cy == y2 / gb * gb,
            ;
            assert(cx / gb == x / gb && cy / gb == y2 / gb);
            assert(out@.at(cx, cy) == sp_pixelate_cell(
                draws@,
                from@,
                to@,
                gb,
                nbx as int,
                cx,
                cy,
            ));
        }
    }
    out
}

/// One transition frame at raw progress `p` permille.
pub fn create_transition_frame(from: &Canvas, to: &Canvas, p: u32, kind: &TransitionType) -> (out:
    Canvas)
    requires
        from.wf(),
        to.wf(),
        from@.w == to@.w,
        from@.h == to@.h,
        p <= 1000,
    ensures
        out.wf(),
        out@.w == from@.w,
        out@.h == from@.h,
        forall|x: int, y: int|
            0 <= x < from@.w && 0 <= y < from@.h ==> sp_frame_px_ok(
                *kind,
                from@,
                to@,
                p as int,
                #[trigger] out@.at(x, y),
                x,
                y,
            ),
        *kind == TransitionType::Pixelate ==> sp_block_uniform(
            out@,
            sp_block_side(sp_eased(*kind, p as int)),
        ),
{
    let e = apply_easing(p, kind);
    if matches!(kind, TransitionType::Pixelate) {
        return pixelate_frame(from, to, e);
    }
    let w = from.width;
    let h = from.height;
    let mut data: Vec<u8> = Vec::new();
    let mut y: u32 = 0;
    while y < h
        invariant
            from.wf(),
            to.wf(),
            from@.w == to@.w,
            from@.h == to@.h,
            w == from.width,
            h == from.height,
            p <= 1000,
            e == sp_eased(*kind, p as int),
            e <= 1000,
            *kind != TransitionType::Pixelate,
            y <= h,
            data.len() == y * w * 4,
            forall|xx: int, yy: int|
                0 <= xx < w && 0 <= yy < y ==> sp_frame_px_ok(
                    *kind,
                    from@,
                    to@,
                    p as int,
                    #[trigger] px_at(data@, w as int, xx, yy),
                    xx,
                    yy,
                ),
        decreases h - y,
    {
        let mut x: u32 = 0;
        while x < w
            invariant
                from.wf(),
                to.wf(),
                from@.w == to@.w,
                from@.h == to@.h,
                w == from.width,
                h == from.height,
                p <= 1000,
                e == sp_eased(*kind, p as int),
                e <= 1000,
                *kind != TransitionType::Pixelate,
                y < h,
                x <= w,
                data.len() == y * w * 4 + x * 4,
                forall|xx: int, yy: int|
                    0 <= xx < w && 0 <= yy < y ==> sp_frame_px_ok(
                        *kind,
                        from@,
                        to@,
                        p as int,
                        #[trigger] px_at(data@, w as int, xx, yy),
                        xx,
                        yy,
                    ),
                forall|xx: int|
                    0 <= xx < x ==> sp_frame_px_ok(
                        *kind,
                        from@,
                        to@,
                        p as int,
                        #[trigger] px_at(data@, w as int, xx, y as int),
                        xx,
                        y as int,
                    ),
            decreases w - x,
        {
            let q: Px = frame_px(from, to, kind, p, e, x, y);
            let ghost pre = data@;
            data.push(q.r);
            data.push(q.g);
            data.push(q.b);
            data.push(q.a);
            proof {
                assert(px_at(data@, w as int, x as int, y as int) == q);
                assert forall|xx: int, yy: int|
                    0 <= xx < w && 0 <= yy < y implies #[trigger] px_at(data@, w as int, xx, yy)
                    == px_at(pre, w as int, xx, yy) by {
                    assert(0 <= (yy * w + xx) * 4 + 3 < y * w * 4) by (nonlinear_arith)
                        requires
                            0 <= yy < y,
                            0 <= xx < w,
                    ;
                    assert(data@[(yy * w + xx) * 4] == pre[(yy * w + xx) * 4]);
                    assert(data@[(yy * w + xx) * 4 + 1] == pre[(yy * w + xx) * 4 + 1]);
                    assert(data@[(yy * w + xx) * 4 + 2] == pre[(yy * w + xx) * 4 + 2]);
                    assert(data@[(yy * w + xx) * 4 + 3] == pre[(yy * w + xx) * 4 + 3]);
                }
                assert forall|xx: int|
                    0 <= xx < x implies #[trigger] px_at(data@, w as int, xx, y as int)
                    == px_at(pre, w as int, xx, y as int) by {
                    assert(0 <= (y * w + xx) * 4 + 3 < y * w * 4 + x * 4);
                    assert(data@[(y * w + xx) * 4] == pre[(y * w + xx) * 4]);
                    assert(data@[(y * w + xx) * 4 + 1] == pre[(y * w + xx) * 4 + 1]);
                    assert(data@[(y * w + xx) * 4 + 2] == pre[(y * w + xx) * 4 + 2]);
                    assert(data@[(y * w + xx) * 4 + 3] == pre[(y * w + xx) * 4 + 3]);
                }
            }
            x = x + 1;
        }
        proof {
            assert(y * w * 4 + w * 4 == (y + 1) * w * 4) by (nonlinear_arith);
        }
        y = y + 1;
    }
    let out = Canvas { width: w, height: h, data };
    proof {
        assert(out.data@.len() == h * w * 4);
        assert(w * h * 4 == h * w * 4) by (nonlinear_arith);
        assert forall|x: int, y2: int|
            0 <= x < from@.w && 0 <= y2 < from@.h implies sp_frame_px_ok(
            *kind,
            from@,
            to@,
            p as int,
            #[trigger] out@.at(x, y2),
            x,
            y2,
        ) by {
            assert(px_at(out.data@, w as int, x, y2) == out@.at(x, y2));
        }
    }
    out
}


/// The first frame of every transition shows only the old image: at raw
/// progress 0 each pixel is the old pixel, except pixelate, whose first
/// frame is the old image sampled at 16-pixel block corners.
pub proof fn lemma_first_frame_from(
    kind: TransitionType,
    from: Img,
    to: Img,
    q: Px,
    x: int,
    y: int,
)
    requires
        from.wf(),
        to.wf(),
        from.w == to.w,
        from.h == to.h,
        0 <= x < from.w,
        0 <= y < from.h,
        sp_frame_px_ok(kind, from, to, 0, q, x, y),
    ensures
        kind != TransitionType::Pixelate ==> q == from.at(x, y),
        kind == TransitionType::Pixelate ==> q == from.at(x / 16 * 16, y / 16 * 16),
{
    lemma_easing_endpoints(kind);
    let w = from.w as int;
    let h = from.h as int;
    lemma_blend_endpoints(from.at(x, y), to.at(x, y));
    match kind {
        TransitionType::Dissolve => {
        },
        TransitionType::Pixelate => {
            assert(sp_block_side(0) == 16);
        },
        TransitionType::SlideLeft | TransitionType::SlideRight | TransitionType::SlideUp
            | TransitionType::SlideDown => {
            assert(sp_slide_offset(0, w) == 0) by {
                assert(0 * w == 0) by (nonlinear_arith);
                assert(0int / 1000 == 0);
            }
            assert(sp_slide_offset(0, h) == 0) by {
                assert(0 * h == 0) by (nonlinear_arith);
                assert(0int / 1000 == 0);
            }
        },
        TransitionType::WipeLeft => {
            assert(0 * w == 0) by (nonlinear_arith);
            assert(!(x * 1000 < 0)) by (nonlinear_arith)
                requires
                    x >= 0,
            ;
        },
        TransitionType::WipeRight => {
            assert(!(x * 1000 > 1000 * w)) by (nonlinear_arith)
                requires
                    x < w,
            ;
        },
        TransitionType::WipeUp => {
            assert(!(y * 1000 > 1000 * h)) by (nonlinear_arith)
                requires
                    y < h,
            ;
        },
        TransitionType::WipeDown => {
            assert(0 * h == 0) by (nonlinear_arith);
            assert(!(y * 1000 < 0)) by (nonlinear_arith)
                requires
                    y >= 0,
            ;
        },
        TransitionType::CircularWipe => {
            assert(0 * 0 * (w * w + h * h) == 0) by (nonlinear_arith);
            assert(1000000 * ((2 * x - w) * (2 * x - w) + (2 * y - h) * (2 * y - h)) >= 0)
                by (nonlinear_arith);
        },
        TransitionType::DiagonalWipe => {
            assert(0 * (w + h) == 0) by (nonlinear_arith);
            assert(!((x + y) * 1000 < 0)) by (nonlinear_arith)
                requires
                    x >= 0,
                    y >= 0,
            ;
        },
        TransitionType::Morph => {
            let phx = (y * 3 + 0) % 1000;
            let phy = (x * 3 + 0 + 250) % 1000;
            assert(sp_morph_disp(sp_sin_turn(phx), 0, w) == 0) by {
                let sv = sp_sin_turn(phx);
                if sv >= 0 {
                    assert(sv * 0 * w == 0) by (nonlinear_arith);
                    assert(0int / 10000000 == 0);
                } else {
                    assert((-sv) * 0 * w == 0) by (nonlinear_arith);
                    assert(0int / 10000000 == 0);
                }
            }
            assert(sp_morph_disp(sp_sin_turn(phy), 0, h) == 0) by {
                let sv = sp_sin_turn(phy);
                if sv >= 0 {
                    assert(sv * 0 * h == 0) by (nonlinear_arith);
                    assert(0int / 10000000 == 0);
                } else {
                    assert((-sv) * 0 * h == 0) by (nonlinear_arith);
                    assert(0int / 10000000 == 0);
                }
            }
            assert(sp_clamp(x + 0, w - 1) == x);
            assert(sp_clamp(y + 0, h - 1) == y);
            lemma_blend_endpoints(from.at(x, y), to.at(x, y));
        },
        _ => {
        },
    }
}

/// The last frame of every transition shows only the new image: at raw
/// progress 1000 each pixel is the new pixel.
pub proof fn lemma_last_frame_to(
    kind: TransitionType,
    from: Img,
    to: Img,
    q: Px,
    x: int,
    y: int,
)
    requires
        from.wf(),
        to.wf(),
        from.w == to.w,
        from.h == to.h,
        0 <= x < from.w,
        0 <= y < from.h,
        sp_frame_px_ok(kind, from, to, 1000, q, x, y),
    ensures
        q == to.at(x, y),
{
    lemma_easing_endpoints(kind);
    let w = from.w as int;
    let h = from.h as int;
    lemma_blend_endpoints(from.at(x, y), to.at(x, y));
    match kind {
        TransitionType::Dissolve => {
        },
        TransitionType::Pixelate => {
        },
        TransitionType::SlideLeft | TransitionType::SlideRight | TransitionType::SlideUp
            | TransitionType::SlideDown => {
            assert(sp_slide_offset(1000, w) == w) by {
                lemma_div_multiples_vanish(w, 1000);
                assert(1000 * w == w * 1000) by (nonlinear_arith);
            }
            assert(sp_slide_offset(1000, h) == h) by {
                lemma_div_multiples_vanish(h, 1000);
                assert(1000 * h == h * 1000) by (nonlinear_arith);
            }
            assert((-1) * w == -w && 1 * w == w && 0 * w == 0 && w * (-1) == -w && w * 1 == w
                && w * 0 == 0) by (nonlinear_arith);
            assert((-1) * h == -h && 1 * h == h && 0 * h == 0 && h * (-1) == -h && h * 1 == h
                && h * 0 == 0) by (nonlinear_arith);
        },
        TransitionType::WipeLeft => {
            assert(x * 1000 < 1000 * w) by (nonlinear_arith)
                requires
                    x < w,
            ;
        },
        TransitionType::WipeRight => {
        },
        TransitionType::WipeUp => {
        },
        TransitionType::WipeDown => {
            assert(y * 1000 < 1000 * h) by (nonlinear_arith)
                requires
                    y < h,
            ;
        },
        TransitionType::CircularWipe => {
        },
        TransitionType::DiagonalWipe => {
            assert((x + y) * 1000 < 1000 * (w + h)) by (nonlinear_arith)
                requires
                    x < w,
                    y < h,
            ;
        },
        TransitionType::Morph => {
        },
        _ => {
        },
    }
}

/// The frame sequence of a transition runs from raw progress 0 on its
/// first frame to raw progress 1000 on its last (a single-frame sequence
/// sits at 0).
pub proof fn lemma_sequence_endpoints(n: int)
    requires
        n >= 1,
    ensures
        sp_progress(0, n) == 0,
        n >= 2 ==> sp_progress(n - 1, n) == 1000,
{
    if n >= 2 {
        assert(0 * 1000 == 0) by (nonlinear_arith);
        assert(0int / (n - 1) == 0) by {
            vstd::arithmetic::div_mod::lemma_basic_div(0, n - 1);
        }
        lemma_div_multiples_vanish(1000, n - 1);
        assert((n - 1) * 1000 == 1000 * (n - 1)) by (nonlinear_arith);
    }
}

} // verus!
