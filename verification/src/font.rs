//! The bitmap font of the time-axis labels.
use vstd::prelude::*;
use vstd::string::StrSliceExecFns;

use crate::canvas::{dot, lemma_painted_agree, lemma_painted_none, lemma_painted_twice, union, Canvas, CanvasView, Shape};
use crate::color::Color;

verus! {

/// Width of a glyph in pixels.
pub const LABEL_FONT_WIDTH: i32 = 6;

/// Height of a glyph in pixels.
pub const LABEL_FONT_HEIGHT: i32 = 10;

/// Blank columns between two glyphs.
pub const LABEL_FONT_TRACKING: i32 = 1;

/// Horizontal distance from one glyph to the next.
pub const LABEL_FONT_ADVANCE: i32 = 7;

/// The rows of the glyph of `c`, top first; bit 5 of a row is its leftmost
/// pixel. Characters without a glyph are blank.
pub open spec fn glyph_rows(c: char) -> Seq<u8> {
    if c == '0' {
        seq![0x1Eu8, 0x21u8, 0x21u8, 0x23u8, 0x25u8, 0x29u8, 0x31u8, 0x21u8, 0x21u8, 0x1Eu8]
    } else if c == '1' {
        seq![0x08u8, 0x18u8, 0x08u8, 0x08u8, 0x08u8, 0x08u8, 0x08u8, 0x08u8, 0x08u8, 0x1Cu8]
    } else if c == '2' {
        seq![0x1Eu8, 0x21u8, 0x01u8, 0x01u8, 0x02u8, 0x04u8, 0x08u8, 0x10u8, 0x20u8, 0x3Fu8]
    } else if c == '3' {
        seq![0x1Eu8, 0x21u8, 0x01u8, 0x01u8, 0x0Eu8, 0x01u8, 0x01u8, 0x01u8, 0x21u8, 0x1Eu8]
    } else if c == '4' {
        seq![0x06u8, 0x0Au8, 0x12u8, 0x22u8, 0x3Fu8, 0x02u8, 0x02u8, 0x02u8, 0x02u8, 0x02u8]
    } else if c == '5' {
        seq![0x3Fu8, 0x20u8, 0x20u8, 0x20u8, 0x1Eu8, 0x01u8, 0x01u8, 0x01u8, 0x21u8, 0x1Eu8]
    } else if c == '6' {
        seq![0x0Eu8, 0x10u8, 0x20u8, 0x20u8, 0x3Eu8, 0x21u8, 0x21u8, 0x21u8, 0x21u8, 0x1Eu8]
    } else if c == '7' {
        seq![0x3Fu8, 0x01u8, 0x02u8, 0x02u8, 0x04u8, 0x08u8, 0x08u8, 0x10u8, 0x10u8, 0x10u8]
    } else if c == '8' {
        seq![0x1Eu8, 0x21u8, 0x21u8, 0x21u8, 0x1Eu8, 0x21u8, 0x21u8, 0x21u8, 0x21u8, 0x1Eu8]
    } else if c == '9' {
        seq![0x1Eu8, 0x21u8, 0x21u8, 0x21u8, 0x1Fu8, 0x01u8, 0x01u8, 0x01u8, 0x02u8, 0x1Cu8]
    } else if c == ':' {
        seq![0x00u8, 0x00u8, 0x0Cu8, 0x0Cu8, 0x00u8, 0x00u8, 0x0Cu8, 0x0Cu8, 0x00u8, 0x00u8]
    } else {
        Seq::new(10, |i: int| 0u8)
    }
}

/// Bit `shift` of a glyph row is set.
pub open spec fn glyph_bit(bits: u8, shift: u8) -> bool {
    bits & (1u8 << shift) != 0u8
}

/// The lit pixels of the glyph of `c` drawn with its top-left corner at `(x, y)`.
pub open spec fn glyph_shape(c: char, x: int, y: int) -> Shape {
    |a: int, b: int|
        0 <= a - x < 6 && 0 <= b - y < 10 && glyph_bit(glyph_rows(c)[b - y], (5 - (a - x)) as u8)
}

/// The pixels of `glyph_shape(c, x, y)` in rows above `row`, or in row `row`
/// left of column `col`.
pub open spec fn glyph_upto(c: char, x: int, y: int, row: int, col: int) -> Shape {
    |a: int, b: int| glyph_shape(c, x, y)(a, b) && (b - y < row || (b - y == row && a - x < col))
}

/// The lit pixels of the text `s` drawn from `(x, y)`, one glyph every
/// `LABEL_FONT_ADVANCE` pixels.
pub open spec fn text_shape(s: Seq<char>, x: int, y: int) -> Shape
    decreases s.len(),
{
    if s.len() == 0 {
        |a: int, b: int| false
    } else {
        union(text_shape(s.drop_last(), x, y), glyph_shape(s.last(), x + 7 * (s.len() - 1), y))
    }
}

/// The width in pixels of a label of `n` characters.
pub open spec fn text_width_of(n: int) -> int {
    if n == 0 {
        0
    } else {
        n * 7 - 1
    }
}

/// Returns the bitmap of the glyph of `character`.
pub fn glyph_bitmap(character: char) -> (r: [u8; 10])
    ensures
        r@ == glyph_rows(character),
{
    let r: [u8; 10] = match character {
        '0' => [0x1E, 0x21, 0x21, 0x23, 0x25, 0x29, 0x31, 0x21, 0x21, 0x1E],
        '1' => [0x08, 0x18, 0x08, 0x08, 0x08, 0x08, 0x08, 0x08, 0x08, 0x1C],
        '2' => [0x1E, 0x21, 0x01, 0x01, 0x02, 0x04, 0x08, 0x10, 0x20, 0x3F],
        '3' => [0x1E, 0x21, 0x01, 0x01, 0x0E, 0x01, 0x01, 0x01, 0x21, 0x1E],
        '4' => [0x06, 0x0A, 0x12, 0x22, 0x3F, 0x02, 0x02, 0x02, 0x02, 0x02],
        '5' => [0x3F, 0x20, 0x20, 0x20, 0x1E, 0x01, 0x01, 0x01, 0x21, 0x1E],
        '6' => [0x0E, 0x10, 0x20, 0x20, 0x3E, 0x21, 0x21, 0x21, 0x21, 0x1E],
        '7' => [0x3F, 0x01, 0x02, 0x02, 0x04, 0x08, 0x08, 0x10, 0x10, 0x10],
        '8' => [0x1E, 0x21, 0x21, 0x21, 0x1E, 0x21, 0x21, 0x21, 0x21, 0x1E],
        '9' => [0x1E, 0x21, 0x21, 0x21, 0x1F, 0x01, 0x01, 0x01, 0x02, 0x1C],
        ':' => [0x00, 0x00, 0x0C, 0x0C, 0x00, 0x00, 0x0C, 0x0C, 0x00, 0x00],
        _ => [0x00; 10],
    };
    assert(r@ =~= glyph_rows(character));
    r
}

/// The width in pixels of `text` drawn with the label font.
pub fn text_width(text: &str) -> (r: i32)
    requires
        7 * text@.len() <= i32::MAX,
    ensures
        r == text_width_of(text@.len() as int),
{
    let glyph_count = text.unicode_len() as i32;
    if glyph_count == 0 {
        0
    } else {
        glyph_count * LABEL_FONT_ADVANCE - LABEL_FONT_TRACKING
    }
}

/// Draws the glyph of `character` with its top-left corner at `(x, y)`.
pub fn draw_glyph(image: &mut Canvas, x: i64, y: i64, character: char, color: Color)
    requires
        old(image).wf(),
        -0x1_0000_0000_0000 <= x <= 0x1_0000_0000_0000,
        -0x1_0000_0000_0000 <= y <= 0x1_0000_0000_0000,
    ensures
        final(image).wf(),
        final(image)@ == old(image)@.painted(glyph_shape(character, x as int, y as int), color),
{
    let ghost v0 = image@;
    let glyph = glyph_bitmap(character);
    proof {
        lemma_painted_none(v0, glyph_upto(character, x as int, y as int, 0, 0), color);
    }
    let mut row: usize = 0;
    while row < 10
        invariant
            image.wf(),
            image@.width == v0.width,
            image@.height == v0.height,
            v0.well_formed(),
            glyph@ == glyph_rows(character),
            -0x1_0000_0000_0000 <= x <= 0x1_0000_0000_0000,
            -0x1_0000_0000_0000 <= y <= 0x1_0000_0000_0000,
            row <= 10,
            image@ == v0.painted(glyph_upto(character, x as int, y as int, row as int, 0), color),
        decreases 10 - row,
    {
        let bits = glyph[row];
        let mut column: i64 = 0;
        while column < 6
            invariant
                image.wf(),
                image@.width == v0.width,
                image@.height == v0.height,
                v0.well_formed(),
                glyph@ == glyph_rows(character),
                bits == glyph_rows(character)[row as int],
                -0x1_0000_0000_0000 <= x <= 0x1_0000_0000_0000,
                -0x1_0000_0000_0000 <= y <= 0x1_0000_0000_0000,
                row < 10,
                0 <= column <= 6,
                image@ == v0.painted(glyph_upto(character, x as int, y as int, row as int, column as int), color),
            decreases 6 - column,
        {
            let shift = (5 - column) as u8;
            let ghost before = glyph_upto(character, x as int, y as int, row as int, column as int);
            let ghost after = glyph_upto(character, x as int, y as int, row as int, column + 1);
            let ghost px = x + column;
            let ghost py = y + row;
            if bits & (1u8 << shift) != 0 {
                image.put_pixel(x + column, y + row as i64, color);
                proof {
                    lemma_painted_twice(v0, before, dot(px, py), color);
                    assert forall|a: int, b: int| #[trigger] union(before, dot(px, py))(a, b) == after(a, b) by {
                        if a == px && b == py {
                            assert(a - x == column && b - y == row);
                        }
                    }
                    lemma_painted_agree(v0, union(before, dot(px, py)), after, color);
                }
            } else {
                proof {
                    assert forall|a: int, b: int| #[trigger] before(a, b) == after(a, b) by {
                        if a == px && b == py {
                            assert(a - x == column && b - y == row);
                        }
                    }
                    lemma_painted_agree(v0, before, after, color);
                }
            }
            column = column + 1;
        }
        proof {
            let done = glyph_upto(character, x as int, y as int, row as int, 6);
            let next = glyph_upto(character, x as int, y as int, row + 1, 0);
            assert forall|a: int, b: int| #[trigger] done(a, b) == next(a, b) by {}
            lemma_painted_agree(v0, done, next, color);
        }
        row = row + 1;
    }
    proof {
        let done = glyph_upto(character, x as int, y as int, 10, 0);
        assert forall|a: int, b: int| #[trigger] done(a, b) == glyph_shape(character, x as int, y as int)(a, b) by {}
        lemma_painted_agree(v0, done, glyph_shape(character, x as int, y as int), color);
    }
}

/// Draws `text` with the top-left corner of its first glyph at `(x, y)`.
pub fn draw_text(image: &mut Canvas, x: i64, y: i64, text: &str, color: Color)
    requires
        old(image).wf(),
        -0x1_0000_0000 <= x <= 0x1_0000_0000,
        -0x1_0000_0000 <= y <= 0x1_0000_0000,
        text@.len() <= 0x1_0000_0000,
    ensures
        final(image).wf(),
        final(image)@ == old(image)@.painted(text_shape(text@, x as int, y as int), color),
{
    let ghost v0 = image@;
    let n = text.unicode_len();
    proof {
        assert(text@.take(0) =~= Seq::<char>::empty());
        lemma_painted_none(v0, text_shape(text@.take(0), x as int, y as int), color);
    }
    let mut cursor_x = x;
    let mut i: usize = 0;
    while i < n
        invariant
            image.wf(),
            image@.width == v0.width,
            image@.height == v0.height,
            v0.well_formed(),
            n == text@.len(),
            n <= 0x1_0000_0000,
            i <= n,
            -0x1_0000_0000 <= x <= 0x1_0000_0000,
            -0x1_0000_0000 <= y <= 0x1_0000_0000,
            cursor_x == x + 7 * i,
            image@ == v0.painted(text_shape(text@.take(i as int), x as int, y as int), color),
        decreases n - i,
    {
        let character = text.get_char(i);
        draw_glyph(image, cursor_x, y, character, color);
        proof {
            let prefix = text@.take(i as int);
            let next = text@.take(i + 1);
            assert(next.drop_last() =~= prefix);
            assert(next.last() == character);
            lemma_painted_twice(v0, text_shape(prefix, x as int, y as int), glyph_shape(character, cursor_x as int, y as int), color);
        }
        cursor_x = cursor_x + 7;
        i = i + 1;
    }
    proof {
        assert(text@.take(n as int) =~= text@);
    }
}

} // verus!
