//! The diagnostic text renderer: a fixed 7x5 bitmap font drawn as filled
//! blocks, plus word wrapping and the parting joke catalog.

use vstd::prelude::*;
use crate::canvas::{Canvas, Px};
use crate::remote::sp_is_ws;

verus! {

/// The 35 font bits of a glyph, row-major, 7 bits per row, the top-left
/// bit highest.  Unknown characters render as a filled box.
pub open spec fn sp_glyph_bits(u: u32) -> u64 {
    if u == 'A' as u32 {
        0x1c45fe0c1
    } else if u == 'B' as u32 {
        0x7e83fa0fe
    } else if u == 'C' as u32 {
        0x3f810203f
    } else if u == 'D' as u32 {
        0x7e83060fe
    } else if u == 'E' as u32 {
        0x7f81fa07f
    } else if u == 'F' as u32 {
        0x7f81fa040
    } else if u == 'G' as u32 {
        0x3f813e0bf
    } else if u == 'H' as u32 {
        0x4183fe0c1
    } else if u == 'I' as u32 {
        0x7f102047f
    } else if u == 'J' as u32 {
        0x7f0812238
    } else if u == 'K' as u32 {
        0x4289e2242
    } else if u == 'L' as u32 {
        0x40810207f
    } else if u == 'M' as u32 {
        0x41c7564c1
    } else if u == 'N' as u32 {
        0x41c3464c7
    } else if u == 'O' as u32 {
        0x3e83060be
    } else if u == 'P' as u32 {
        0x7e83fa040
    } else if u == 'Q' as u32 {
        0x3e83262bf
    } else if u == 'R' as u32 {
        0x7e83fa242
    } else if u == 'S' as u32 {
        0x3f80f80fe
    } else if u == 'T' as u32 {
        0x7f1020408
    } else if u == 'U' as u32 {
        0x4183060be
    } else if u == 'V' as u32 {
        0x41830511c
    } else if u == 'W' as u32 {
        0x4193571c1
    } else if u == 'X' as u32 {
        0x414471141
    } else if u == 'Y' as u32 {
        0x414470408
    } else if u == 'Z' as u32 {
        0x7f043187f
    } else if u == '0' as u32 {
        0x3e83060be
    } else if u == '1' as u32 {
        0x8302047f
    } else if u == '2' as u32 {
        0x3e02fa07f
    } else if u == '3' as u32 {
        0x3e02780be
    } else if u == '4' as u32 {
        0x4183fc081
    } else if u == '5' as u32 {
        0x7f81f80fe
    } else if u == '6' as u32 {
        0x3e81fa0be
    } else if u == '7' as u32 {
        0x7f0208208
    } else if u == '8' as u32 {
        0x3e82fa0be
    } else if u == '9' as u32 {
        0x3e82fc0be
    } else if u == ':' as u32 {
        0x1000400
    } else if u == '-' as u32 {
        0x1fc000
    } else if u == '_' as u32 {
        0x7f
    } else if u == '!' as u32 {
        0x81020008
    } else if u == '?' as u32 {
        0x3e8218008
    } else if u == '.' as u32 {
        0x8
    } else if u == ',' as u32 {
        0x410
    } else if u == '\'' as u32 {
        0x81000000
    } else if u == ' ' as u32 {
        0x0
    } else {
        0x7f83060ff
    }
}

fn glyph_bits(c: char) -> (r: u64)
    ensures
        r == sp_glyph_bits(c as u32),
{
    match c {
        'A' => 0x1c45fe0c1,
        'B' => 0x7e83fa0fe,
        'C' => 0x3f810203f,
        'D' => 0x7e83060fe,
        'E' => 0x7f81fa07f,
        'F' => 0x7f81fa040,
        'G' => 0x3f813e0bf,
        'H' => 0x4183fe0c1,
        'I' => 0x7f102047f,
        'J' => 0x7f0812238,
        'K' => 0x4289e2242,
        'L' => 0x40810207f,
        'M' => 0x41c7564c1,
        'N' => 0x41c3464c7,
        'O' => 0x3e83060be,
        'P' => 0x7e83fa040,
        'Q' => 0x3e83262bf,
        'R' => 0x7e83fa242,
        'S' => 0x3f80f80fe,
        'T' => 0x7f1020408,
        'U' => 0x4183060be,
        'V' => 0x41830511c,
        'W' => 0x4193571c1,
        'X' => 0x414471141,
        'Y' => 0x414470408,
        'Z' => 0x7f043187f,
        '0' => 0x3e83060be,
        '1' => 0x8302047f,
        '2' => 0x3e02fa07f,
        '3' => 0x3e02780be,
        '4' => 0x4183fc081,
        '5' => 0x7f81f80fe,
        '6' => 0x3e81fa0be,
        '7' => 0x7f0208208,
        '8' => 0x3e82fa0be,
        '9' => 0x3e82fc0be,
        ':' => 0x1000400,
        '-' => 0x1fc000,
        '_' => 0x7f,
        '!' => 0x81020008,
        '?' => 0x3e8218008,
        '.' => 0x8,
        ',' => 0x410,
        '\'' => 0x81000000,
        ' ' => 0x0,
        _ => 0x7f83060ff,
    }
}

/// Whether the font bit at a glyph cell is set.
pub open spec fn sp_glyph_on(u: u32, row: int, col: int) -> bool {
    &&& 0 <= row < 5
    &&& 0 <= col < 7
    &&& (sp_glyph_bits(u) >> (((4 - row) * 7 + (6 - col)) as u64)) & 1 == 1
}

fn glyph_on(c: char, row: u32, col: u32) -> (r: bool)
    requires
        row < 5,
        col < 7,
    ensures
        r == sp_glyph_on(c as u32, row as int, col as int),
{
    let shift: u64 = (((4 - row) * 7 + (6 - col))) as u64;
    (glyph_bits(c) >> shift) & 1 == 1
}

/// The uppercase code point of an ASCII letter; other characters keep
/// their own code point.
pub open spec fn sp_upper_code(c: char) -> u32 {
    if 97 <= c as u32 <= 122 {
        (c as u32 - 32) as u32
    } else {
        c as u32
    }
}

fn upper_char(c: char) -> (r: char)
    ensures
        r as u32 == sp_upper_code(c),
{
    let u = c as u32;
    if 97 <= u && u <= 122 {
        match char::from_u32(u - 32) {
            Some(l) => l,
            None => {
                proof {
                    assert(false);
                }
                c
            },
        }
    } else {
        c
    }
}

/// Fills the part of a rectangle that lies on the canvas with one color
/// and leaves everything else alone.
pub fn fill_rect(image: &mut Canvas, rx: u32, ry: u32, rw: u32, rh: u32, color: Px)
    requires
        old(image).wf(),
        rx + rw <= 0x4000_0000,
        ry + rh <= 0x4000_0000,
    ensures
        final(image).wf(),
        final(image).width == old(image).width,
        final(image).height == old(image).height,
        forall|x: int, y: int|
            0 <= x < old(image).width && 0 <= y < old(image).height ==> #[trigger] final(image)@.at(x, y) == if rx <= x < rx + rw && ry <= y < ry + rh {
                color
            } else {
                old(image)@.at(x, y)
            },
{
    let mut dy: u32 = 0;
    while dy < rh
        invariant
            image.wf(),
            image.width == old(image).width,
            image.height == old(image).height,
            rx + rw <= 0x4000_0000,
            ry + rh <= 0x4000_0000,
            dy <= rh,
            forall|x: int, y: int|
                0 <= x < old(image).width && 0 <= y < old(image).height ==> #[trigger] image@.at(
                    x,
                    y,
                ) == if rx <= x < rx + rw && ry <= y < ry + dy {
                    color
                } else {
                    old(image)@.at(x, y)
                },
        decreases rh - dy,
    {
        let py: u32 = ry + dy;
        let mut dx: u32 = 0;
        while dx < rw
            invariant
                image.wf(),
                image.width == old(image).width,
                image.height == old(image).height,
                rx + rw <= 0x4000_0000,
                ry + rh <= 0x4000_0000,
                dy < rh,
                py == ry + dy,
                dx <= rw,
                forall|x: int, y: int|
                    0 <= x < old(image).width && 0 <= y < old(image).height
                        ==> #[trigger] image@.at(x, y) == if rx <= x < rx + rw && ry <= y < ry
                        + dy {
                        color
                    } else if y == py && rx <= x < rx + dx {
                        color
                    } else {
                        old(image)@.at(x, y)
                    },
            decreases rw - dx,
        {
            let px: u32 = rx + dx;
            if px < image.width && py < image.height {
                image.set_px(px, py, color);
            }
            dx = dx + 1;
        }
        dy = dy + 1;
    }
}

/// Whether the glyph of code point `u`, drawn at `(x0, y0)` with the
/// given cell size, covers the pixel `(x, y)`.
pub open spec fn sp_char_covers(u: u32, x0: int, y0: int, size: int, x: int, y: int) -> bool {
    &&& x0 <= x < x0 + 7 * size
    &&& y0 <= y < y0 + 5 * size
    &&& sp_glyph_on(u, (y - y0) / size, (x - x0) / size)
}

/// Draws one glyph as filled size-by-size blocks; pixels outside the
/// glyph keep their value.
pub fn draw_simple_char(image: &mut Canvas, c: char, x0: u32, y0: u32, size: u32, color: Px)
    requires
        old(image).wf(),
        1 <= size <= 0x1000,
        x0 <= 0x2000_0000,
        y0 <= 0x2000_0000,
    ensures
        final(image).wf(),
        final(image).width == old(image).width,
        final(image).height == old(image).height,
        forall|x: int, y: int|
            0 <= x < old(image).width && 0 <= y < old(image).height ==> #[trigger] final(image)@.at(x, y) == if sp_char_covers(c as u32, x0 as int, y0 as int, size as int, x, y) {
                color
            } else {
                old(image)@.at(x, y)
            },
{
    let ghost u = c as u32;
    let ghost sz = size as int;
    let mut row: u32 = 0;
    while row < 5
        invariant
            image.wf(),
            image.width == old(image).width,
            image.height == old(image).height,
            1 <= size <= 0x1000,
            x0 <= 0x2000_0000,
            y0 <= 0x2000_0000,
            u == c as u32,
            sz == size as int,
            row <= 5,
            forall|x: int, y: int|
                0 <= x < old(image).width && 0 <= y < old(image).height ==> #[trigger] image@.at(
                    x,
                    y,
                ) == if sp_char_covers(u, x0 as int, y0 as int, sz, x, y) && y < y0 + row * sz {
                    color
                } else {
                    old(image)@.at(x, y)
                },
        decreases 5 - row,
    {
        let mut col: u32 = 0;
        while col < 7
            invariant
                image.wf(),
                image.width == old(image).width,
                image.height == old(image).height,
                1 <= size <= 0x1000,
                x0 <= 0x2000_0000,
                y0 <= 0x2000_0000,
                u == c as u32,
                sz == size as int,
                row < 5,
                col <= 7,
                forall|x: int, y: int|
                    0 <= x < old(image).width && 0 <= y < old(image).height
                        ==> #[trigger] image@.at(x, y) == if sp_char_covers(
                        u,
                        x0 as int,
                        y0 as int,
                        sz,
                        x,
                        y,
                    ) && (y < y0 + row * sz || (y < y0 + (row + 1) * sz && x < x0 + col * sz)) {
                        color
                    } else {
                        old(image)@.at(x, y)
                    },
            decreases 7 - col,
        {
            let ghost pre = image@;
            proof {
                assert(col * size <= 7 * 0x1000 && row * size <= 5 * 0x1000)
                    by (nonlinear_arith)
                    requires
                        col < 7,
                        row < 5,
                        1 <= size <= 0x1000,
                ;
            }
            if glyph_on(c, row, col) {
                fill_rect(image, x0 + col * size, y0 + row * size, size, size, color);
            }
            proof {
                assert forall|x: int, y: int|
                    0 <= x < old(image).width && 0 <= y < old(image).height
                    implies #[trigger] image@.at(x, y) == if sp_char_covers(
                    u,
                    x0 as int,
                    y0 as int,
                    sz,
                    x,
                    y,
                ) && (y < y0 + row * sz || (y < y0 + (row + 1) * sz && x < x0 + (col + 1)
                    * sz)) {
                    color
                } else {
                    old(image)@.at(x, y)
                } by {
                    assert((col + 1) * sz == col * sz + sz && (row + 1) * sz == row * sz + sz
                        && (col + 1) * sz <= 7 * sz && (row + 1) * sz <= 5 * sz && col * sz >= 0
                        && row * sz >= 0) by (nonlinear_arith)
                        requires
                            0 <= col < 7,
                            0 <= row < 5,
                            1 <= sz,
                    ;
                    lemma_cell_maps(x0 as int, y0 as int, sz, row as int, col as int, x, y);
                    if x0 + col * sz <= x < x0 + col * sz + sz && y0 + row * sz <= y < y0 + row
                        * sz + sz {
                        assert((y - y0) / sz == row && (x - x0) / sz == col);
                    }
                }
            }
            col = col + 1;
        }
        proof {
            assert(y0 + (row + 1) * sz == y0 + row * sz + sz) by (nonlinear_arith);
            assert forall|x: int, y: int|
                0 <= x < old(image).width && 0 <= y < old(image).height
                implies #[trigger] image@.at(x, y) == if sp_char_covers(
                u,
                x0 as int,
                y0 as int,
                sz,
                x,
                y,
            ) && y < y0 + (row + 1) * sz {
                color
            } else {
                old(image)@.at(x, y)
            } by {
                if sp_char_covers(u, x0 as int, y0 as int, sz, x, y) && y < y0 + (row + 1) * sz {
                    assert((x - x0) / sz < 7);
                    assert(x < x0 + 7 * sz);
                }
            }
        }
        row = row + 1;
    }
    proof {
        assert forall|x: int, y: int|
            0 <= x < old(image).width && 0 <= y < old(image).height implies #[trigger] image@.at(
            x,
            y,
        ) == if sp_char_covers(u, x0 as int, y0 as int, sz, x, y) {
            color
        } else {
            old(image)@.at(x, y)
        } by {
            if sp_char_covers(u, x0 as int, y0 as int, sz, x, y) {
                assert(y < y0 + 5 * sz);
            }
        }
    }
}

/// Pixels of a cell map to the cell's row and column, and covered pixels
/// stay within the glyph box.
proof fn lemma_cell_maps(x0: int, y0: int, sz: int, row: int, col: int, x: int, y: int)
    requires
        1 <= sz,
        0 <= row < 5,
        0 <= col < 7,
    ensures
        (x0 + col * sz <= x < x0 + col * sz + sz) ==> (x - x0) / sz == col,
        (y0 + row * sz <= y < y0 + row * sz + sz) ==> (y - y0) / sz == row,
        (x0 <= x < x0 + 7 * sz && (x - x0) / sz == col) ==> (x0 + col * sz <= x < x0 + col * sz
            + sz),
        (y0 <= y < y0 + 5 * sz && (y - y0) / sz == row) ==> (y0 + row * sz <= y < y0 + row * sz
            + sz),
        (x0 <= x < x0 + 7 * sz) ==> 0 <= (x - x0) / sz < 7,
        (y0 <= y < y0 + 5 * sz) ==> 0 <= (y - y0) / sz < 5,
{
    vstd::arithmetic::div_mod::lemma_fundamental_div_mod(x - x0, sz);
    vstd::arithmetic::div_mod::lemma_fundamental_div_mod(y - y0, sz);
    assert((x0 + col * sz <= x < x0 + col * sz + sz) ==> (x - x0) / sz == col)
        by (nonlinear_arith)
        requires
            1 <= sz,
            x - x0 == sz * ((x - x0) / sz) + (x - x0) % sz,
            0 <= (x - x0) % sz < sz || x < x0,
    ;
    assert((y0 + row * sz <= y < y0 + row * sz + sz) ==> (y - y0) / sz == row)
        by (nonlinear_arith)
        requires
            1 <= sz,
            y - y0 == sz * ((y - y0) / sz) + (y - y0) % sz,
            0 <= (y - y0) % sz < sz || y < y0,
    ;
    assert((x0 <= x < x0 + 7 * sz && (x - x0) / sz == col) ==> (x0 + col * sz <= x < x0 + col
        * sz + sz)) by (nonlinear_arith)
        requires
            1 <= sz,
            x - x0 == sz * ((x - x0) / sz) + (x - x0) % sz,
            x >= x0 ==> 0 <= (x - x0) % sz < sz,
    ;
    assert((y0 <= y < y0 + 5 * sz && (y - y0) / sz == row) ==> (y0 + row * sz <= y < y0 + row
        * sz + sz)) by (nonlinear_arith)
        requires
            1 <= sz,
            y - y0 == sz * ((y - y0) / sz) + (y - y0) % sz,
            y >= y0 ==> 0 <= (y - y0) % sz < sz,
    ;
    assert((x0 <= x < x0 + 7 * sz) ==> 0 <= (x - x0) / sz < 7) by (nonlinear_arith)
        requires
            1 <= sz,
            x - x0 == sz * ((x - x0) / sz) + (x - x0) % sz,
            x >= x0 ==> 0 <= (x - x0) % sz < sz,
    ;
    assert((y0 <= y < y0 + 5 * sz) ==> 0 <= (y - y0) / sz < 5) by (nonlinear_arith)
        requires
            1 <= sz,
            y - y0 == sz * ((y - y0) / sz) + (y - y0) % sz,
            y >= y0 ==> 0 <= (y - y0) % sz < sz,
    ;
}

/// Whether the text drawn at `(x0, y0)` covers the pixel: some character
/// of it, uppercased and placed at its spaced offset, does.
pub open spec fn sp_text_covers(s: Seq<char>, x0: int, y0: int, size: int, x: int, y: int) -> bool {
    exists|i: int|
        0 <= i < s.len() && sp_char_covers(
            sp_upper_code(s[i]),
            x0 + i * 8 * size,
            y0,
            size,
            x,
            y,
        )
}

/// Draws a line of text in the block font: characters are uppercased and
/// spaced one cell apart; every pixel no glyph covers keeps its value.
pub fn draw_text(image: &mut Canvas, text: &str, x: u32, y: u32, size: u32, color: Px)
    requires
        old(image).wf(),
        1 <= size <= 0x1000,
        x <= 0x1000_0000,
        y <= 0x1000_0000,
        text@.len() <= 0x1000,
    ensures
        final(image).wf(),
        final(image).width == old(image).width,
        final(image).height == old(image).height,
        forall|px: int, py: int|
            0 <= px < old(image).width && 0 <= py < old(image).height ==> #[trigger] final(image)@.at(px, py) == if sp_text_covers(text@, x as int, y as int, size as int, px, py) {
                color
            } else {
                old(image)@.at(px, py)
            },
{
    let n = text.unicode_len();
    let mut i: usize = 0;
    while i < n
        invariant
            image.wf(),
            image.width == old(image).width,
            image.height == old(image).height,
            1 <= size <= 0x1000,
            x <= 0x1000_0000,
            y <= 0x1000_0000,
            n == text@.len(),
            n <= 0x1000,
            i <= n,
            forall|px: int, py: int|
                0 <= px < old(image).width && 0 <= py < old(image).height
                    ==> #[trigger] image@.at(px, py) == if exists|j: int|
                    0 <= j < i && sp_char_covers(
                        sp_upper_code(text@[j]),
                        x + j * 8 * size,
                        y as int,
                        size as int,
                        px,
                        py,
                    ) {
                    color
                } else {
                    old(image)@.at(px, py)
                },
        decreases n - i,
    {
        let c = text.get_char(i);
        proof {
            assert((i as int) * ((8 * size) as int) == i * 8 * size && 0 <= i * 8 * size
                <= 0x1000 * 8 * 0x1000) by (nonlinear_arith)
                requires
                    0 <= i <= 0x1000,
                    1 <= size <= 0x1000,
            ;
        }
        let cx: u32 = x + (i as u32) * (8 * size);
        let ghost pre = image@;
        draw_simple_char(image, upper_char(c), cx, y, size, color);
        proof {
            assert forall|px: int, py: int|
                0 <= px < old(image).width && 0 <= py < old(image).height
                implies #[trigger] image@.at(px, py) == if exists|j: int|
                0 <= j < i + 1 && sp_char_covers(
                    sp_upper_code(text@[j]),
                    x + j * 8 * size,
                    y as int,
                    size as int,
                    px,
                    py,
                ) {
                color
            } else {
                old(image)@.at(px, py)
            } by {
                if sp_char_covers(
                    sp_upper_code(text@[i as int]),
                    cx as int,
                    y as int,
                    size as int,
                    px,
                    py,
                ) {
                    assert(sp_char_covers(
                        sp_upper_code(text@[i as int]),
                        x + i * 8 * size,
                        y as int,
                        size as int,
                        px,
                        py,
                    ));
                } else {
                    assert(image@.at(px, py) == pre.at(px, py));
                    if exists|j: int|
                        0 <= j < i + 1 && sp_char_covers(
                            sp_upper_code(text@[j]),
                            x + j * 8 * size,
                            y as int,
                            size as int,
                            px,
                            py,
                        ) {
                        let j = choose|j: int|
                            0 <= j < i + 1 && sp_char_covers(
                                sp_upper_code(text@[j]),
                                x + j * 8 * size,
                                y as int,
                                size as int,
                                px,
                                py,
                            );
                        assert(0 <= j < i);
                    }
                }
            }
        }
        i = i + 1;
    }
}


/// How many non-blank characters a sequence holds.
pub open spec fn sp_nonws_count(s: Seq<char>) -> int
    decreases s.len(),
{
    if s.len() == 0 {
        0
    } else {
        sp_nonws_count(s.drop_last()) + (if sp_is_ws(s.last()) {
            0int
        } else {
            1int
        })
    }
}

/// Whether a sequence holds no blank character.
pub open spec fn sp_no_ws(s: Seq<char>) -> bool {
    forall|i: int| 0 <= i < s.len() ==> !sp_is_ws(#[trigger] s[i])
}

/// Total length of a list of words.
pub open spec fn sp_total_len(ws: Seq<String>) -> int
    decreases ws.len(),
{
    if ws.len() == 0 {
        0
    } else {
        sp_total_len(ws.drop_last()) + ws.last()@.len()
    }
}

/// Total non-blank characters over a list of lines.
pub open spec fn sp_lines_nonws_total(ls: Seq<String>) -> int
    decreases ls.len(),
{
    if ls.len() == 0 {
        0
    } else {
        sp_lines_nonws_total(ls.drop_last()) + sp_nonws_count(ls.last()@)
    }
}

proof fn lemma_count_concat(a: Seq<char>, b: Seq<char>)
    ensures
        sp_nonws_count(a + b) == sp_nonws_count(a) + sp_nonws_count(b),
    decreases b.len(),
{
    if b.len() == 0 {
        assert(a + b =~= a);
    } else {
        lemma_count_concat(a, b.drop_last());
        assert((a + b).drop_last() =~= a + b.drop_last());
        assert((a + b).last() == b.last());
    }
}

proof fn lemma_count_all_nonws(s: Seq<char>)
    requires
        sp_no_ws(s),
    ensures
        sp_nonws_count(s) == s.len(),
    decreases s.len(),
{
    if s.len() > 0 {
        assert(sp_no_ws(s.drop_last()));
        lemma_count_all_nonws(s.drop_last());
    }
}

/// Length of the leading run of non-blank characters.
pub open spec fn sp_nonws_prefix_len(s: Seq<char>) -> int
    decreases s.len(),
{
    if s.len() == 0 || sp_is_ws(s.first()) {
        0
    } else {
        1 + sp_nonws_prefix_len(s.drop_first())
    }
}

/// The leading run is bounded by the whole string.
proof fn lemma_prefix_len_bounds(s: Seq<char>)
    ensures
        0 <= sp_nonws_prefix_len(s) <= s.len(),
    decreases s.len(),
{
    if s.len() > 0 && !sp_is_ws(s.first()) {
        lemma_prefix_len_bounds(s.drop_first());
    }
}

/// A run of non-blanks ended by a blank or by the end of the string is
/// exactly the leading run.
proof fn lemma_prefix_len_at(s: Seq<char>, k: int)
    requires
        0 <= k <= s.len(),
        forall|j: int| 0 <= j < k ==> !sp_is_ws(#[trigger] s[j]),
        k < s.len() ==> sp_is_ws(s[k]),
    ensures
        sp_nonws_prefix_len(s) == k,
    decreases k,
{
    if k > 0 {
        assert(!sp_is_ws(s.first()));
        assert forall|j: int| 0 <= j < k - 1 implies !sp_is_ws(
            #[trigger] s.drop_first()[j],
        ) by {
            assert(s.drop_first()[j] == s[j + 1]);
        }
        if k - 1 < s.drop_first().len() {
            assert(s.drop_first()[k - 1] == s[k]);
        }
        lemma_prefix_len_at(s.drop_first(), k - 1);
    }
}

/// The words of a text: its maximal blank-free runs, in order.
pub open spec fn sp_split_ws(s: Seq<char>) -> Seq<Seq<char>>
    decreases s.len(),
    via sp_split_ws_decreases
{
    if s.len() == 0 {
        Seq::empty()
    } else if sp_is_ws(s.first()) {
        sp_split_ws(s.drop_first())
    } else {
        let k = sp_nonws_prefix_len(s);
        seq![s.take(k)] + sp_split_ws(s.skip(k))
    }
}

#[via_fn]
proof fn sp_split_ws_decreases(s: Seq<char>) {
    if s.len() > 0 && !sp_is_ws(s.first()) {
        lemma_prefix_len_bounds(s.drop_first());
        assert(sp_nonws_prefix_len(s) == 1 + sp_nonws_prefix_len(s.drop_first()));
        lemma_prefix_len_bounds(s);
    }
}

/// Splits a string at blanks into exactly its words, in order: each word
/// is nonempty and blank-free, and together they hold exactly the
/// non-blank characters.
pub fn split_words(text: &str) -> (r: Vec<String>)
    ensures
        forall|k: int| 0 <= k < r@.len() ==> (#[trigger] r@[k])@.len() > 0 && sp_no_ws(r@[k]@),
        sp_total_len(r@) == sp_nonws_count(text@),
        r@.len() == sp_split_ws(text@).len(),
        forall|k: int| 0 <= k < r@.len() ==> (#[trigger] r@[k])@ == sp_split_ws(text@)[k],
{
    let n = text.unicode_len();
    let mut words: Vec<String> = Vec::new();
    let ghost mut wv: Seq<Seq<char>> = Seq::empty();
    let mut i: usize = 0;
    proof {
        assert(wv + sp_split_ws(text@.skip(0)) =~= sp_split_ws(text@.skip(0)));
        assert(text@.skip(0) =~= text@);
    }
    while i < n
        invariant
            n == text@.len(),
            i <= n,
            forall|k: int|
                0 <= k < words@.len() ==> (#[trigger] words@[k])@.len() > 0 && sp_no_ws(
                    words@[k]@,
                ),
            sp_total_len(words@) == sp_nonws_count(text@.take(i as int)),
            wv.len() == words@.len(),
            forall|k: int| 0 <= k < words@.len() ==> (#[trigger] words@[k])@ == wv[k],
            sp_split_ws(text@) == wv + sp_split_ws(text@.skip(i as int)),
        decreases n - i,
    {
        let c = text.get_char(i);
        if is_ws_char(c) {
            proof {
                assert(text@.take(i + 1).drop_last() =~= text@.take(i as int));
                assert(text@.take(i + 1).last() == text@[i as int]);
                assert(text@.skip(i as int).first() == text@[i as int]);
                assert(text@.skip(i as int).drop_first() =~= text@.skip(i + 1));
            }
            i = i + 1;
        } else {
            let start = i;
            while i < n && !is_ws_char(text.get_char(i))
                invariant
                    n == text@.len(),
                    start <= i <= n,
                    start < n,
                    forall|j: int| start <= j < i ==> !sp_is_ws(#[trigger] text@[j]),
                    sp_nonws_count(text@.take(i as int)) == sp_nonws_count(
                        text@.take(start as int),
                    ) + (i - start),
                decreases n - i,
            {
                proof {
                    assert(text@.take(i + 1).drop_last() =~= text@.take(i as int));
                    assert(text@.take(i + 1).last() == text@[i as int]);
                }
                i = i + 1;
            }
            let word = text.substring_char(start, i);
            let owned = word.to_owned();
            proof {
                assert(word@ =~= text@.subrange(start as int, i as int));
                assert(sp_no_ws(word@));
                assert(words@.push(owned).drop_last() =~= words@);
                let tail = text@.skip(start as int);
                assert(tail.first() == text@[start as int]);
                assert(!sp_is_ws(tail.first()));
                assert forall|j: int| 0 <= j < i - start implies !sp_is_ws(
                    #[trigger] tail[j],
                ) by {
                    assert(tail[j] == text@[start + j]);
                }
                if i < n {
                    assert(tail[i - start] == text@[i as int]);
                }
                lemma_prefix_len_at(tail, i - start);
                assert(tail.take(i - start) =~= word@);
                assert(tail.skip(i - start) =~= text@.skip(i as int));
                assert(sp_split_ws(tail) == seq![word@] + sp_split_ws(text@.skip(i as int)));
                assert(wv + (seq![word@] + sp_split_ws(text@.skip(i as int))) =~= wv.push(
                    word@,
                ) + sp_split_ws(text@.skip(i as int)));
            }
            words.push(owned);
            proof {
                wv = wv.push(word@);
                assert(sp_total_len(words@) == sp_nonws_count(text@.take(i as int)));
            }
        }
    }
    proof {
        assert(text@.take(n as int) =~= text@);
        assert(text@.skip(n as int).len() == 0);
        assert(sp_split_ws(text@.skip(n as int)) =~= Seq::<Seq<char>>::empty());
        assert(wv + sp_split_ws(text@.skip(n as int)) =~= wv);
    }
    words
}

fn is_ws_char(c: char) -> (r: bool)
    ensures
        r == sp_is_ws(c),
{
    c == ' ' || c == '\t' || c == '\n' || c == '\r'
}

/// The length of a line's first word: the characters before its first
/// space, or the whole line when it has none.
pub open spec fn sp_first_word_len(s: Seq<char>) -> int {
    match s.index_of_first(' ') {
        Some(i) => i,
        None => s.len() as int,
    }
}

/// What holds of a line's first word: nothing before it is a space, and
/// a space (or the end of the line) follows it.
proof fn lemma_first_word_len_props(s: Seq<char>)
    ensures
        0 <= sp_first_word_len(s) <= s.len(),
        forall|j: int| 0 <= j < sp_first_word_len(s) ==> s[j] != ' ',
        sp_first_word_len(s) < s.len() ==> s[sp_first_word_len(s)] == ' ',
{
    s.index_of_first_ensures(' ');
    match s.index_of_first(' ') {
        Some(i) => {
        },
        None => {
            assert forall|j: int| 0 <= j < sp_first_word_len(s) implies s[j] != ' ' by {
                if s[j] == ' ' {
                    assert(s.contains(' '));
                }
            }
        },
    }
}

/// A position with no space before it, and a space (or the end) at it, is
/// exactly the first word's length.
proof fn lemma_first_word_len_at(s: Seq<char>, i: int)
    requires
        0 <= i <= s.len(),
        forall|j: int| 0 <= j < i ==> s[j] != ' ',
        i < s.len() ==> s[i] == ' ',
    ensures
        sp_first_word_len(s) == i,
{
    s.index_of_first_ensures(' ');
    match s.index_of_first(' ') {
        Some(k) => {
            if k < i {
                assert(s[k] != ' ');
            }
            if k > i {
                assert(i < s.len());
                assert(s[i] != ' ');
            }
        },
        None => {
            if i < s.len() {
                assert(s.contains(' '));
            }
        },
    }
}

/// The greedy wrapping of a word list: `cur` is the line being filled
/// and `acc` the finished lines.  A word joins the open line when it
/// fits behind a separating space, and otherwise closes it and opens the
/// next.
pub open spec fn sp_wrap_greedy(
    ws: Seq<Seq<char>>,
    max: int,
    acc: Seq<Seq<char>>,
    cur: Seq<char>,
) -> Seq<Seq<char>>
    decreases ws.len(),
{
    if ws.len() == 0 {
        if cur.len() == 0 {
            acc
        } else {
            acc.push(cur)
        }
    } else {
        let w = ws.first();
        let rest = ws.drop_first();
        if cur.len() == 0 {
            sp_wrap_greedy(rest, max, acc, w)
        } else if cur.len() < max && w.len() <= max - cur.len() - 1 {
            sp_wrap_greedy(rest, max, acc, cur + seq![' '] + w)
        } else {
            sp_wrap_greedy(rest, max, acc.push(cur), w)
        }
    }
}

/// Greedily wraps a text into lines of at most `max_chars_per_line`
/// characters: the result is exactly [`sp_wrap_greedy`] applied to the
/// text's words.  Every line is nonempty; a line longer than the limit
/// is a single unbreakable word; no line could take the first word of
/// the next one; and the lines together keep every non-blank character
/// of the text.
pub fn wrap_text(text: &str, max_chars_per_line: usize) -> (r: Vec<String>)
    ensures
        r@.len() == sp_wrap_greedy(
            sp_split_ws(text@),
            max_chars_per_line as int,
            Seq::empty(),
            Seq::empty(),
        ).len(),
        forall|k: int|
            0 <= k < r@.len() ==> (#[trigger] r@[k])@ == sp_wrap_greedy(
                sp_split_ws(text@),
                max_chars_per_line as int,
                Seq::empty(),
                Seq::empty(),
            )[k],
        forall|k: int| 0 <= k < r@.len() ==> (#[trigger] r@[k])@.len() > 0,
        forall|k: int|
            0 <= k < r@.len() ==> (#[trigger] r@[k])@.len() <= max_chars_per_line || sp_no_ws(
                r@[k]@,
            ),
        sp_lines_nonws_total(r@) == sp_nonws_count(text@),
        r@.len() == 0 <==> sp_nonws_count(text@) == 0,
        forall|k: int|
            0 <= k < r@.len() - 1 ==> (#[trigger] r@[k])@.len() + 1 + sp_first_word_len(
                r@[k + 1]@,
            ) > max_chars_per_line,
{
    let words = split_words(text);
    let ghost allw = sp_split_ws(text@);
    let ghost gmax = max_chars_per_line as int;
    let mut lines: Vec<String> = Vec::new();
    let ghost mut lv: Seq<Seq<char>> = Seq::empty();
    let mut cur: String = String::new();
    let mut k: usize = 0;
    proof {
        assert(allw.skip(0) =~= allw);
    }
    while k < words.len()
        invariant
            k <= words@.len(),
            forall|t: int|
                0 <= t < words@.len() ==> (#[trigger] words@[t])@.len() > 0 && sp_no_ws(
                    words@[t]@,
                ),
            sp_total_len(words@) == sp_nonws_count(text@),
            sp_lines_nonws_total(lines@) + sp_nonws_count(cur@) == sp_total_len(
                words@.take(k as int),
            ),
            forall|t: int| 0 <= t < lines@.len() ==> (#[trigger] lines@[t])@.len() > 0,
            forall|t: int|
                0 <= t < lines@.len() ==> (#[trigger] lines@[t])@.len() <= max_chars_per_line
                    || sp_no_ws(lines@[t]@),
            forall|t: int| 0 <= t < lines@.len() ==> sp_nonws_count((#[trigger] lines@[t])@) > 0,
            cur@.len() == 0 || cur@.len() <= max_chars_per_line || sp_no_ws(cur@),
            cur@.len() > 0 ==> sp_nonws_count(cur@) > 0,
            cur@.len() == 0 ==> sp_nonws_count(cur@) == 0,
            cur@.len() == 0 ==> lines@.len() == 0,
            forall|t: int|
                0 <= t < lines@.len() - 1 ==> (#[trigger] lines@[t])@.len() + 1
                    + sp_first_word_len(lines@[t + 1]@) > max_chars_per_line,
            lines@.len() > 0 && cur@.len() > 0 ==> lines@[lines@.len() - 1]@.len() + 1
                + sp_first_word_len(cur@) > max_chars_per_line,
            allw == sp_split_ws(text@),
            gmax == max_chars_per_line as int,
            allw.len() == words@.len(),
            forall|t: int| 0 <= t < words@.len() ==> (#[trigger] words@[t])@ == allw[t],
            lv.len() == lines@.len(),
            forall|t: int| 0 <= t < lines@.len() ==> (#[trigger] lines@[t])@ == lv[t],
            sp_wrap_greedy(allw.skip(k as int), gmax, lv, cur@) == sp_wrap_greedy(
                allw,
                gmax,
                Seq::empty(),
                Seq::empty(),
            ),
        decreases words@.len() - k,
    {
        let w: &String = &words[k];
        proof {
            assert(words@.take(k + 1).drop_last() =~= words@.take(k as int));
            assert(words@.take(k + 1).last() == words@[k as int]);
            lemma_count_all_nonws(words@[k as int]@);
        }
        let cl = cur.as_str().unicode_len();
        let wl = w.as_str().unicode_len();
        let ghost fwl = sp_first_word_len(cur@);
        proof {
            assert(allw.skip(k as int).len() > 0);
            assert(allw.skip(k as int).first() == allw[k as int]);
            assert(allw.skip(k as int).drop_first() =~= allw.skip(k + 1));
            assert(allw[k as int] == words@[k as int]@);
        }
        if cl == 0 {
            cur = w.clone();
            proof {
                lemma_first_word_len_at(cur@, cur@.len() as int);
                assert(sp_wrap_greedy(allw.skip(k + 1), gmax, lv, cur@) == sp_wrap_greedy(
                    allw,
                    gmax,
                    Seq::empty(),
                    Seq::empty(),
                ));
            }
        } else if cl < max_chars_per_line && wl <= max_chars_per_line - cl - 1 {
            let ghost pre = cur@;
            proof {
                lemma_first_word_len_props(pre);
            }
            cur.push(' ');
            proof {
                assert(cur@.drop_last() =~= pre);
                assert(sp_nonws_count(cur@) == sp_nonws_count(pre));
                assert forall|j: int| 0 <= j < fwl implies cur@[j] != ' ' by {
                    assert(cur@[j] == pre[j]);
                }
                assert(cur@[fwl] == ' ');
                lemma_first_word_len_at(cur@, fwl);
            }
            let ghost mid = cur@;
            cur.append(w.as_str());
            proof {
                lemma_count_concat(mid, w@);
                assert forall|j: int| 0 <= j < fwl implies cur@[j] != ' ' by {
                    assert(cur@[j] == mid[j]);
                }
                assert(cur@[fwl] == mid[fwl]);
                assert(cur@[fwl] == ' ');
                lemma_first_word_len_at(cur@, fwl);
                assert(cur@ =~= pre + seq![' '] + w@);
                assert(sp_wrap_greedy(allw.skip(k + 1), gmax, lv, cur@) == sp_wrap_greedy(
                    allw,
                    gmax,
                    Seq::empty(),
                    Seq::empty(),
                ));
            }
        } else {
            proof {
                assert(lines@.push(cur).drop_last() =~= lines@);
            }
            let ghost closed = cur@;
            lines.push(cur);
            cur = w.clone();
            proof {
                lv = lv.push(closed);
                lemma_first_word_len_at(cur@, cur@.len() as int);
                assert(sp_first_word_len(cur@) == wl);
                assert(closed.len() + 1 + wl > max_chars_per_line);
                assert(sp_wrap_greedy(allw.skip(k + 1), gmax, lv, cur@) == sp_wrap_greedy(
                    allw,
                    gmax,
                    Seq::empty(),
                    Seq::empty(),
                ));
            }
        }
        k = k + 1;
    }
    proof {
        assert(words@.take(words@.len() as int) =~= words@);
        assert(allw.skip(words@.len() as int).len() == 0);
        assert(sp_wrap_greedy(allw.skip(words@.len() as int), gmax, lv, cur@) == if cur@.len()
            == 0 {
            lv
        } else {
            lv.push(cur@)
        });
    }
    if cur.as_str().unicode_len() > 0 {
        proof {
            assert(lines@.push(cur).drop_last() =~= lines@);
        }
        let ghost last = cur@;
        lines.push(cur);
        proof {
            lv = lv.push(last);
        }
    }
    proof {
        if lines@.len() > 0 {
            lemma_lines_total_pos(lines@);
        }
        assert(lv == sp_wrap_greedy(allw, gmax, Seq::empty(), Seq::empty()));
    }
    lines
}

/// A list of lines that each hold a non-blank character has a positive
/// total.
proof fn lemma_lines_total_pos(ls: Seq<String>)
    requires
        ls.len() > 0,
        forall|t: int| 0 <= t < ls.len() ==> sp_nonws_count((#[trigger] ls[t])@) > 0,
    ensures
        sp_lines_nonws_total(ls) > 0,
    decreases ls.len(),
{
    assert(ls.last() == ls[ls.len() - 1]);
    assert(sp_nonws_count(ls[ls.len() - 1]@) > 0);
    if ls.len() == 1 {
        assert(ls.drop_last().len() == 0);
        assert(sp_lines_nonws_total(ls.drop_last()) == 0);
    }
    if ls.len() > 1 {
        assert(forall|t: int|
            0 <= t < ls.drop_last().len() ==> sp_nonws_count((#[trigger] ls.drop_last()[t])@)
                > 0);
        lemma_lines_total_pos(ls.drop_last());
    }
}


/// The semi-transparent black behind a transition label.
pub open spec fn sp_label_bg() -> Px {
    Px { r: 0, g: 0, b: 0, a: 180 }
}

/// The bright yellow of diagnostic text.
pub open spec fn sp_label_fg() -> Px {
    Px { r: 255, g: 255, b: 0, a: 255 }
}

/// Overlays the transition label onto a frame: the glyphs of the name in
/// yellow on an opaque dark box in the top-left corner; every other pixel
/// keeps its value.
pub fn add_transition_text(image: &mut Canvas, name: &str)
    requires
        old(image).wf(),
        name@.len() <= 32,
    ensures
        final(image).wf(),
        final(image).width == old(image).width,
        final(image).height == old(image).height,
        forall|x: int, y: int|
            0 <= x < old(image).width && 0 <= y < old(image).height ==> #[trigger] final(image)@.at(x, y) == if sp_text_covers(name@, 8, 8, 4, x, y) {
                sp_label_fg()
            } else if x < name@.len() * 32 + 16 && y < 36 {
                sp_label_bg()
            } else {
                old(image)@.at(x, y)
            },
{
    let n = name.unicode_len();
    let bgw: u32 = (n as u32) * 32 + 16;
    let bg = Px { r: 0, g: 0, b: 0, a: 180 };
    let fg = Px { r: 255, g: 255, b: 0, a: 255 };
    fill_rect(image, 0, 0, bgw, 36, bg);
    draw_text(image, name, 8, 8, 4, fg);
}

/// The palette of the no-images placeholder screen.
pub open spec fn sp_placeholder_palette(p: Px) -> bool {
    ||| p == Px { r: 25, g: 25, b: 50, a: 255 }
    ||| p == Px { r: 255, g: 255, b: 255, a: 255 }
    ||| p == Px { r: 255, g: 255, b: 0, a: 255 }
    ||| p == Px { r: 0, g: 255, b: 255, a: 255 }
    ||| p == Px { r: 200, g: 200, b: 200, a: 255 }
}

/// Draws one line of placeholder text when its position and length are
/// drawable, and leaves the canvas otherwise; every pixel ends as the
/// text color or its prior value.
fn draw_guarded_line(image: &mut Canvas, line: &str, x: u32, y: u32, size: u32, color: Px)
    requires
        old(image).wf(),
        1 <= size <= 0x1000,
    ensures
        final(image).wf(),
        final(image).width == old(image).width,
        final(image).height == old(image).height,
        forall|x2: int, y2: int|
            0 <= x2 < old(image).width && 0 <= y2 < old(image).height ==> (#[trigger] final(image)@.at(x2, y2) == color || final(image)@.at(x2, y2) == old(image)@.at(x2, y2)),
{
    if x <= 0x1000_0000 && y <= 0x1000_0000 && line.unicode_len() <= 0x1000 {
        draw_text(image, line, x, y, size, color);
    }
}

/// Half the slack between an extent and a content width, zero when the
/// content does not fit.
fn center_offset(extent: u32, content: u32) -> (r: u32)
    ensures
        content <= extent ==> r == (extent - content) / 2,
        content > extent ==> r == 0,
{
    if content <= extent {
        (extent - content) / 2
    } else {
        0
    }
}

/// The placeholder screen shown when no images are assigned: identifier,
/// address and instructions centered on a dark blue background.  Every
/// pixel carries one of the screen's five colors.
pub fn create_info_placeholder(tv_id: &str, ip_address: &str, width: u32, height: u32) -> (c:
    Canvas)
    requires
        1 <= width <= crate::MAX_DIM,
        1 <= height <= crate::MAX_DIM,
    ensures
        c.wf(),
        c.width == width,
        c.height == height,
        forall|x: int, y: int|
            0 <= x < width && 0 <= y < height ==> sp_placeholder_palette(#[trigger] c@.at(x, y)),
{
    let bg = Px { r: 25, g: 25, b: 50, a: 255 };
    let white = Px { r: 255, g: 255, b: 255, a: 255 };
    let yellow = Px { r: 255, g: 255, b: 0, a: 255 };
    let cyan = Px { r: 0, g: 255, b: 255, a: 255 };
    let gray = Px { r: 200, g: 200, b: 200, a: 255 };
    let mut c = Canvas::new_filled(width, height, bg);
    let size: u32 = 8;
    let line_height: u32 = 56;
    let center_y = height / 2;
    let title = "NO IMAGES AVAILABLE";
    proof {
        reveal_strlit("NO IMAGES AVAILABLE");
    }
    let title_len = title.unicode_len();
    let title_width: u32 = if title_len < 4096 {
        (title_len as u32) * 64
    } else {
        width
    };
    let ty = if center_y >= line_height * 3 {
        center_y - line_height * 3
    } else {
        0
    };
    draw_guarded_line(&mut c, title, center_offset(width, title_width), ty, size, white);
    let mut tv_line = "TV ID: ".to_owned();
    tv_line.append(tv_id);
    let tv_len = tv_line.as_str().unicode_len();
    if tv_len <= title_len {
        let ty2 = if center_y >= line_height {
            center_y - line_height
        } else {
            0
        };
        draw_guarded_line(
            &mut c,
            tv_line.as_str(),
            center_offset(width, if tv_len < 4096 {
                (tv_len as u32) * 64
            } else {
                width
            }),
            ty2,
            size,
            yellow,
        );
    } else {
        let tv_lines = wrap_text(tv_line.as_str(), title_len);
        let mut i: usize = 0;
        while i < tv_lines.len()
            invariant
                c.wf(),
                c.width == width,
                c.height == height,
                size == 8,
                line_height == 56,
                center_y <= 4096,
                yellow == (Px { r: 255, g: 255, b: 0, a: 255 }),
                forall|x: int, y: int|
                    0 <= x < width && 0 <= y < height ==> sp_placeholder_palette(
                        #[trigger] c@.at(x, y),
                    ),
            decreases tv_lines@.len() - i,
        {
            let line = &tv_lines[i];
            let ll = line.as_str().unicode_len();
            let ty2 = if center_y >= line_height {
                center_y - line_height
            } else {
                0
            };
            let yy = if i < 1024 {
                ty2 + (i as u32) * 48
            } else {
                ty2
            };
            let ghost pre = c@;
            draw_guarded_line(
                &mut c,
                line.as_str(),
                center_offset(width, if ll < 4096 {
                    (ll as u32) * 64
                } else {
                    width
                }),
                yy,
                size,
                yellow,
            );
            proof {
                assert forall|x: int, y: int|
                    0 <= x < width && 0 <= y < height implies sp_placeholder_palette(
                    #[trigger] c@.at(x, y),
                ) by {
                    if c@.at(x, y) != (Px { r: 255, g: 255, b: 0, a: 255 }) {
                        assert(c@.at(x, y) == pre.at(x, y));
                        assert(sp_placeholder_palette(pre.at(x, y)));
                    }
                }
            }
            i = i + 1;
        }
    }
    let mut ip_line = "IP: ".to_owned();
    ip_line.append(ip_address);
    let ip_len = ip_line.as_str().unicode_len();
    draw_guarded_line(
        &mut c,
        ip_line.as_str(),
        center_offset(width, if ip_len < 4096 {
            (ip_len as u32) * 64
        } else {
            width
        }),
        center_y,
        size,
        cyan,
    );
    let small: u32 = 7;
    let max_chars: usize = (title_width / 56) as usize;
    let instruction = "Contact staff to assign images to this display";
    let instruction_lines = wrap_text(instruction, max_chars);
    let mut i: usize = 0;
    while i < instruction_lines.len()
        invariant
            c.wf(),
            c.width == width,
            c.height == height,
            small == 7,
            center_y <= 4096,
            gray == (Px { r: 200, g: 200, b: 200, a: 255 }),
            forall|x: int, y: int|
                0 <= x < width && 0 <= y < height ==> sp_placeholder_palette(
                    #[trigger] c@.at(x, y),
                ),
        decreases instruction_lines@.len() - i,
    {
        let line = &instruction_lines[i];
        let ghost pre2 = c@;
        let ll = line.as_str().unicode_len();
        let base_y = center_y + 112;
        let yy = if i < 1024 {
            base_y + (i as u32) * 42
        } else {
            base_y
        };
        draw_guarded_line(
            &mut c,
            line.as_str(),
            center_offset(width, if ll < 4096 {
                (ll as u32) * 56
            } else {
                width
            }),
            yy,
            small,
            gray,
        );
        proof {
            assert forall|x: int, y: int|
                0 <= x < width && 0 <= y < height implies sp_placeholder_palette(
                #[trigger] c@.at(x, y),
            ) by {
                if c@.at(x, y) != (Px { r: 200, g: 200, b: 200, a: 255 }) {
                    assert(c@.at(x, y) == pre2.at(x, y));
                    assert(sp_placeholder_palette(pre2.at(x, y)));
                }
            }
        }
        i = i + 1;
    }
    c
}

/// The parting screen: the joke wrapped and centered in yellow on black.
/// Every pixel ends black or yellow.
pub fn exit_joke_canvas(joke: &str, width: u32, height: u32) -> (c: Canvas)
    requires
        1 <= width <= crate::MAX_DIM,
        1 <= height <= crate::MAX_DIM,
    ensures
        c.wf(),
        c.width == width,
        c.height == height,
        forall|x: int, y: int|
            0 <= x < width && 0 <= y < height ==> (#[trigger] c@.at(x, y) == crate::canvas::spec_black()
                || c@.at(x, y) == sp_label_fg()),
{
    let black_px = crate::canvas::black();
    let yellow = Px { r: 255, g: 255, b: 0, a: 255 };
    let mut c = Canvas::new_filled(width, height, black_px);
    let size: u32 = 8;
    let max_chars: usize = (width / 64) as usize;
    let lines = wrap_text(joke, max_chars);
    let total_height: u32 = if lines.len() < 1024 {
        (lines.len() as u32) * 48
    } else {
        height
    };
    let start_y = center_offset(height, total_height);
    let mut i: usize = 0;
    while i < lines.len()
        invariant
            c.wf(),
            c.width == width,
            c.height == height,
            size == 8,
            start_y <= height,
            height <= 8192,
            yellow == (Px { r: 255, g: 255, b: 0, a: 255 }),
            forall|x: int, y: int|
                0 <= x < width && 0 <= y < height ==> (#[trigger] c@.at(x, y)
                    == crate::canvas::spec_black() || c@.at(x, y) == sp_label_fg()),
        decreases lines@.len() - i,
    {
        let line = &lines[i];
        let ghost pre3 = c@;
        let ll = line.as_str().unicode_len();
        let yy = if i < 1024 {
            start_y + (i as u32) * 48
        } else {
            start_y
        };
        draw_guarded_line(
            &mut c,
            line.as_str(),
            center_offset(width, if ll < 4096 {
                (ll as u32) * 64
            } else {
                width
            }),
            yy,
            size,
            yellow,
        );
        proof {
            assert forall|x: int, y: int|
                0 <= x < width && 0 <= y < height implies (#[trigger] c@.at(x, y)
                == crate::canvas::spec_black() || c@.at(x, y) == sp_label_fg()) by {
                if c@.at(x, y) != (Px { r: 255, g: 255, b: 0, a: 255 }) {
                    assert(c@.at(x, y) == pre3.at(x, y));
                }
            }
        }
        i = i + 1;
    }
    c
}

/// The joke told at position `i` of the catalog.
pub open spec fn sp_joke(i: int) -> Seq<char> {
    if i == 0 {
        "Why don't scientists trust atoms? Because they make up everything!"@
    } else if i == 1 {
        "Why did the scarecrow win an award? He was outstanding in his field!"@
    } else if i == 2 {
        "I told my wife she was drawing her eyebrows too high. She looked surprised."@
    } else if i == 3 {
        "Why don't skeletons fight each other? They don't have the guts."@
    } else if i == 4 {
        "What do you call a fake noodle? An impasta!"@
    } else if i == 5 {
        "Why did the math book look so sad? Because it had too many problems."@
    } else if i == 6 {
        "What's the best thing about Switzerland? I don't know, but the flag is a big plus."@
    } else if i == 7 {
        "Why can't a bicycle stand up by itself? It's two tired!"@
    } else if i == 8 {
        "What do you call a fish wearing a crown? A king fish!"@
    } else if i == 9 {
        "Why don't eggs tell jokes? They'd crack each other up!"@
    } else if i == 10 {
        "What do you call a sleeping bull? A bulldozer!"@
    } else if i == 11 {
        "Why did the coffee file a police report? It got mugged!"@
    } else if i == 12 {
        "What's orange and sounds like a parrot? A carrot!"@
    } else if i == 13 {
        "Why don't programmers like nature? It has too many bugs."@
    } else if i == 14 {
        "What do you call a bear with no teeth? A gummy bear!"@
    } else if i == 15 {
        "Why did the pixel break up with the screen? It needed more space!"@
    } else if i == 16 {
        "What's a computer's favorite snack? Microchips!"@
    } else if i == 17 {
        "Why do Raspberry Pis make terrible comedians? Their timing is always off by a few milliseconds!"@
    } else if i == 18 {
        "What did the framebuffer say to the GPU? 'You complete me... at 60fps!'"@
    } else {
        "Why don't graphics cards ever get lonely? They're always processing in parallel!"@
    }
}

/// The joke at a catalog position.
pub fn joke_at(i: u32) -> (r: &'static str)
    requires
        i < 20,
    ensures
        r@ == sp_joke(i as int),
{
    match i {
        0 => "Why don't scientists trust atoms? Because they make up everything!",
        1 => "Why did the scarecrow win an award? He was outstanding in his field!",
        2 => "I told my wife she was drawing her eyebrows too high. She looked surprised.",
        3 => "Why don't skeletons fight each other? They don't have the guts.",
        4 => "What do you call a fake noodle? An impasta!",
        5 => "Why did the math book look so sad? Because it had too many problems.",
        6 => "What's the best thing about Switzerland? I don't know, but the flag is a big plus.",
        7 => "Why can't a bicycle stand up by itself? It's two tired!",
        8 => "What do you call a fish wearing a crown? A king fish!",
        9 => "Why don't eggs tell jokes? They'd crack each other up!",
        10 => "What do you call a sleeping bull? A bulldozer!",
        11 => "Why did the coffee file a police report? It got mugged!",
        12 => "What's orange and sounds like a parrot? A carrot!",
        13 => "Why don't programmers like nature? It has too many bugs.",
        14 => "What do you call a bear with no teeth? A gummy bear!",
        15 => "Why did the pixel break up with the screen? It needed more space!",
        16 => "What's a computer's favorite snack? Microchips!",
        17 => "Why do Raspberry Pis make terrible comedians? Their timing is always off by a few milliseconds!",
        18 => "What did the framebuffer say to the GPU? 'You complete me... at 60fps!'",
        _ => "Why don't graphics cards ever get lonely? They're always processing in parallel!",
    }
}

/// A joke drawn from the fixed catalog.
pub fn get_random_joke() -> (r: &'static str)
    ensures
        exists|i: int| 0 <= i < 20 && r@ == sp_joke(i),
{
    let i = crate::transition::random_below(20);
    let r = joke_at(i);
    proof {
        assert(r@ == sp_joke(i as int));
    }
    r
}

} // verus!
