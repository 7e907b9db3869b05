//! The 5 x 7 dot-matrix font: one glyph per digit, per upper-case letter and
//! per few punctuation marks. Lower-case letters are drawn with the glyph of
//! their upper-case letter.

use vstd::prelude::*;
use crate::pixels::{Rgba, paint_region, lemma_paint_union, lemma_paint_same_region, lemma_paint_nothing};
use crate::shapes::{Shape, region_of, text_advance_x, within, in_shape};

verus! {

/// The seven rows of the glyph of `ch`, top row first; bit 4 of a row is its
/// leftmost dot. `None` for a character without a glyph.
pub open spec fn glyph_rows(ch: char) -> Option<Seq<u8>> {
    match ch {
        '0' => Some(seq![0b01110, 0b10001, 0b10011, 0b10101, 0b11001, 0b10001, 0b01110]),
        '1' => Some(seq![0b00100, 0b01100, 0b00100, 0b00100, 0b00100, 0b00100, 0b01110]),
        '2' => Some(seq![0b01110, 0b10001, 0b00001, 0b00110, 0b01000, 0b10000, 0b11111]),
        '3' => Some(seq![0b11111, 0b00010, 0b00100, 0b00010, 0b00001, 0b10001, 0b01110]),
        '4' => Some(seq![0b00010, 0b00110, 0b01010, 0b10010, 0b11111, 0b00010, 0b00010]),
        '5' => Some(seq![0b11111, 0b10000, 0b11110, 0b00001, 0b00001, 0b10001, 0b01110]),
        '6' => Some(seq![0b01110, 0b10000, 0b11110, 0b10001, 0b10001, 0b10001, 0b01110]),
        '7' => Some(seq![0b11111, 0b00001, 0b00010, 0b00100, 0b01000, 0b01000, 0b01000]),
        '8' => Some(seq![0b01110, 0b10001, 0b10001, 0b01110, 0b10001, 0b10001, 0b01110]),
        '9' => Some(seq![0b01110, 0b10001, 0b10001, 0b01111, 0b00001, 0b10001, 0b01110]),
        ':' => Some(seq![0b00000, 0b01100, 0b01100, 0b00000, 0b01100, 0b01100, 0b00000]),
        '%' => Some(seq![0b11001, 0b11010, 0b00100, 0b01000, 0b01011, 0b10011, 0b00000]),
        '/' => Some(seq![0b00001, 0b00010, 0b00100, 0b01000, 0b10000, 0b10000, 0b00000]),
        '-' => Some(seq![0b00000, 0b00000, 0b00000, 0b11111, 0b00000, 0b00000, 0b00000]),
        '.' => Some(seq![0b00000, 0b00000, 0b00000, 0b00000, 0b00000, 0b01100, 0b01100]),
        'A' | 'a' => Some(seq![0b01110, 0b10001, 0b10001, 0b11111, 0b10001, 0b10001, 0b10001]),
        'B' | 'b' => Some(seq![0b11110, 0b10001, 0b10001, 0b11110, 0b10001, 0b10001, 0b11110]),
        'C' | 'c' => Some(seq![0b01110, 0b10001, 0b10000, 0b10000, 0b10000, 0b10001, 0b01110]),
        'D' | 'd' => Some(seq![0b11100, 0b10010, 0b10001, 0b10001, 0b10001, 0b10010, 0b11100]),
        'E' | 'e' => Some(seq![0b11111, 0b10000, 0b10000, 0b11110, 0b10000, 0b10000, 0b11111]),
        'F' | 'f' => Some(seq![0b11111, 0b10000, 0b10000, 0b11110, 0b10000, 0b10000, 0b10000]),
        'G' | 'g' => Some(seq![0b01110, 0b10001, 0b10000, 0b10111, 0b10001, 0b10001, 0b01111]),
        'H' | 'h' => Some(seq![0b10001, 0b10001, 0b10001, 0b11111, 0b10001, 0b10001, 0b10001]),
        'I' | 'i' => Some(seq![0b01110, 0b00100, 0b00100, 0b00100, 0b00100, 0b00100, 0b01110]),
        'J' | 'j' => Some(seq![0b00111, 0b00010, 0b00010, 0b00010, 0b00010, 0b10010, 0b01100]),
        'K' | 'k' => Some(seq![0b10001, 0b10010, 0b10100, 0b11000, 0b10100, 0b10010, 0b10001]),
        'L' | 'l' => Some(seq![0b10000, 0b10000, 0b10000, 0b10000, 0b10000, 0b10000, 0b11111]),
        'M' | 'm' => Some(seq![0b10001, 0b11011, 0b10101, 0b10001, 0b10001, 0b10001, 0b10001]),
        'N' | 'n' => Some(seq![0b10001, 0b11001, 0b10101, 0b10011, 0b10001, 0b10001, 0b10001]),
        'O' | 'o' => Some(seq![0b01110, 0b10001, 0b10001, 0b10001, 0b10001, 0b10001, 0b01110]),
        'P' | 'p' => Some(seq![0b11110, 0b10001, 0b10001, 0b11110, 0b10000, 0b10000, 0b10000]),
        'Q' | 'q' => Some(seq![0b01110, 0b10001, 0b10001, 0b10001, 0b10101, 0b10010, 0b01101]),
        'R' | 'r' => Some(seq![0b11110, 0b10001, 0b10001, 0b11110, 0b10100, 0b10010, 0b10001]),
        'S' | 's' => Some(seq![0b01111, 0b10000, 0b10000, 0b01110, 0b00001, 0b00001, 0b11110]),
        'T' | 't' => Some(seq![0b11111, 0b00100, 0b00100, 0b00100, 0b00100, 0b00100, 0b00100]),
        'U' | 'u' => Some(seq![0b10001, 0b10001, 0b10001, 0b10001, 0b10001, 0b10001, 0b01110]),
        'V' | 'v' => Some(seq![0b10001, 0b10001, 0b10001, 0b10001, 0b01010, 0b01010, 0b00100]),
        'W' | 'w' => Some(seq![0b10001, 0b10001, 0b10001, 0b10101, 0b10101, 0b11011, 0b10001]),
        'X' | 'x' => Some(seq![0b10001, 0b10001, 0b01010, 0b00100, 0b01010, 0b10001, 0b10001]),
        'Y' | 'y' => Some(seq![0b10001, 0b10001, 0b01010, 0b00100, 0b00100, 0b00100, 0b00100]),
        'Z' | 'z' => Some(seq![0b11111, 0b00001, 0b00010, 0b00100, 0b01000, 0b10000, 0b11111]),
        _ => None,
    }
}

/// A small ASCII letter is drawn with the glyph of its capital, so text
/// reads the same in either case.
pub proof fn lemma_small_letters_like_capitals(c: char)
    requires
        'a' <= c <= 'z',
    ensures
        glyph_rows(c) == glyph_rows(((c as u32) - 32) as char),
        glyph_rows(c) is Some,
{
    let u = c as u32;
    if u == 97 {
        assert(c == 'a');
    } else if u == 98 {
        assert(c == 'b');
    } else if u == 99 {
        assert(c == 'c');
    } else if u == 100 {
        assert(c == 'd');
    } else if u == 101 {
        assert(c == 'e');
    } else if u == 102 {
        assert(c == 'f');
    } else if u == 103 {
        assert(c == 'g');
    } else if u == 104 {
        assert(c == 'h');
    } else if u == 105 {
        assert(c == 'i');
    } else if u == 106 {
        assert(c == 'j');
    } else if u == 107 {
        assert(c == 'k');
    } else if u == 108 {
        assert(c == 'l');
    } else if u == 109 {
        assert(c == 'm');
    } else if u == 110 {
        assert(c == 'n');
    } else if u == 111 {
        assert(c == 'o');
    } else if u == 112 {
        assert(c == 'p');
    } else if u == 113 {
        assert(c == 'q');
    } else if u == 114 {
        assert(c == 'r');
    } else if u == 115 {
        assert(c == 's');
    } else if u == 116 {
        assert(c == 't');
    } else if u == 117 {
        assert(c == 'u');
    } else if u == 118 {
        assert(c == 'v');
    } else if u == 119 {
        assert(c == 'w');
    } else if u == 120 {
        assert(c == 'x');
    } else if u == 121 {
        assert(c == 'y');
    } else {
        assert(c == 'z');
    }
}

/// A glyph's seven rows read as one number, five bits per row.
pub open spec fn glyph_code(rows: Seq<u8>) -> int {
    rows[0] + 32 * rows[1] + 1024 * rows[2] + 32768 * rows[3] + 1048576 * rows[4] + 33554432 * rows[5] + 1073741824
        * rows[6]
}

/// The character whose glyph draws `c`: its capital for a small ASCII
/// letter, `c` itself otherwise.
pub open spec fn font_key(c: char) -> char {
    if 'a' <= c <= 'z' {
        ((c as u32) - 32) as char
    } else {
        c
    }
}

/// The number of the glyph of each character of the font.
spec fn glyph_number(c: char) -> int {
    match c {
        '0' => 15629733422,
        '1' => 15170933124,
        '2' => 33831454254,
        '3' => 15603929183,
        '4' => 2247698626,
        '5' => 15603923487,
        '6' => 15621224974,
        '7' => 8866891839,
        '8' => 15621113390,
        '9' => 15604368942,
        ':' => 415248768,
        '%' => 649335641,
        '/' => 553914433,
        '-' => 1015808,
        '.' => 13287555072,
        'A' => 18842895918,
        'B' => 32801506878,
        'C' => 15620129326,
        'D' => 30687151708,
        'E' => 33840644639,
        'F' => 17734517279,
        'G' => 16695149102,
        'H' => 18842895921,
        'I' => 15170932878,
        'J' => 13491046471,
        'K' => 18879369809,
        'L' => 33840185872,
        'M' => 18842441585,
        'N' => 18842507057,
        'O' => 15621211694,
        'P' => 17734518334,
        'Q' => 14585218606,
        'R' => 18879563326,
        'S' => 32247333391,
        'T' => 4433514655,
        'U' => 15621211697,
        'V' => 4641572401,
        'W' => 19182306865,
        'X' => 18834663985,
        'Y' => 4433521201,
        'Z' => 33831389247,
        _ => -1,
    }
}

/// The glyph of a character of the font reads as that character's number.
proof fn lemma_glyph_number(c: char)
    requires
        glyph_rows(c) is Some,
    ensures
        glyph_code(glyph_rows(c)->0) == glyph_number(font_key(c)),
        glyph_number(font_key(c)) >= 0,
{
    if 'a' <= c <= 'z' {
        lemma_small_letters_like_capitals(c);
    }
    let key = font_key(c);
    assert(glyph_rows(key) == glyph_rows(c));
    if key == '0' {
        assert(glyph_code(glyph_rows('0')->0) == 15629733422);
    } else if key == '1' {
        assert(glyph_code(glyph_rows('1')->0) == 15170933124);
    } else if key == '2' {
        assert(glyph_code(glyph_rows('2')->0) == 33831454254);
    } else if key == '3' {
        assert(glyph_code(glyph_rows('3')->0) == 15603929183);
    } else if key == '4' {
        assert(glyph_code(glyph_rows('4')->0) == 2247698626);
    } else if key == '5' {
        assert(glyph_code(glyph_rows('5')->0) == 15603923487);
    } else if key == '6' {
        assert(glyph_code(glyph_rows('6')->0) == 15621224974);
    } else if key == '7' {
        assert(glyph_code(glyph_rows('7')->0) == 8866891839);
    } else if key == '8' {
        assert(glyph_code(glyph_rows('8')->0) == 15621113390);
    } else if key == '9' {
        assert(glyph_code(glyph_rows('9')->0) == 15604368942);
    } else if key == ':' {
        assert(glyph_code(glyph_rows(':')->0) == 415248768);
    } else if key == '%' {
        assert(glyph_code(glyph_rows('%')->0) == 649335641);
    } else if key == '/' {
        assert(glyph_code(glyph_rows('/')->0) == 553914433);
    } else if key == '-' {
        assert(glyph_code(glyph_rows('-')->0) == 1015808);
    } else if key == '.' {
        assert(glyph_code(glyph_rows('.')->0) == 13287555072);
    } else if key == 'A' {
        assert(glyph_code(glyph_rows('A')->0) == 18842895918);
    } else if key == 'B' {
        assert(glyph_code(glyph_rows('B')->0) == 32801506878);
    } else if key == 'C' {
        assert(glyph_code(glyph_rows('C')->0) == 15620129326);
    } else if key == 'D' {
        assert(glyph_code(glyph_rows('D')->0) == 30687151708);
    } else if key == 'E' {
        assert(glyph_code(glyph_rows('E')->0) == 33840644639);
    } else if key == 'F' {
        assert(glyph_code(glyph_rows('F')->0) == 17734517279);
    } else if key == 'G' {
        assert(glyph_code(glyph_rows('G')->0) == 16695149102);
    } else if key == 'H' {
        assert(glyph_code(glyph_rows('H')->0) == 18842895921);
    } else if key == 'I' {
        assert(glyph_code(glyph_rows('I')->0) == 15170932878);
    } else if key == 'J' {
        assert(glyph_code(glyph_rows('J')->0) == 13491046471);
    } else if key == 'K' {
        assert(glyph_code(glyph_rows('K')->0) == 18879369809);
    } else if key == 'L' {
        assert(glyph_code(glyph_rows('L')->0) == 33840185872);
    } else if key == 'M' {
        assert(glyph_code(glyph_rows('M')->0) == 18842441585);
    } else if key == 'N' {
        assert(glyph_code(glyph_rows('N')->0) == 18842507057);
    } else if key == 'O' {
        assert(glyph_code(glyph_rows('O')->0) == 15621211694);
    } else if key == 'P' {
        assert(glyph_code(glyph_rows('P')->0) == 17734518334);
    } else if key == 'Q' {
        assert(glyph_code(glyph_rows('Q')->0) == 14585218606);
    } else if key == 'R' {
        assert(glyph_code(glyph_rows('R')->0) == 18879563326);
    } else if key == 'S' {
        assert(glyph_code(glyph_rows('S')->0) == 32247333391);
    } else if key == 'T' {
        assert(glyph_code(glyph_rows('T')->0) == 4433514655);
    } else if key == 'U' {
        assert(glyph_code(glyph_rows('U')->0) == 15621211697);
    } else if key == 'V' {
        assert(glyph_code(glyph_rows('V')->0) == 4641572401);
    } else if key == 'W' {
        assert(glyph_code(glyph_rows('W')->0) == 19182306865);
    } else if key == 'X' {
        assert(glyph_code(glyph_rows('X')->0) == 18834663985);
    } else if key == 'Y' {
        assert(glyph_code(glyph_rows('Y')->0) == 4433521201);
    } else if key == 'Z' {
        assert(glyph_code(glyph_rows('Z')->0) == 33831389247);
    }
}

/// Every character of the font has a glyph of its own: two characters that
/// draw the same dots are the same character, up to the case of ASCII
/// letters. (No digit, for instance, can be mistaken for another.)
pub proof fn lemma_glyphs_distinct(c1: char, c2: char)
    requires
        glyph_rows(c1) is Some,
        glyph_rows(c1) == glyph_rows(c2),
    ensures
        font_key(c1) == font_key(c2),
{
    lemma_glyph_number(c1);
    lemma_glyph_number(c2);
    let k1 = font_key(c1);
    let k2 = font_key(c2);
    assert(glyph_number(k1) == glyph_number(k2));
}

/// The digits are drawn with the font's digit glyphs (bit 4 of a row is its
/// leftmost dot, the top row first).
pub proof fn lemma_digit_glyphs()
    ensures
        glyph_rows('0') == Some(seq![0b01110u8, 0b10001, 0b10011, 0b10101, 0b11001, 0b10001, 0b01110]),
        glyph_rows('1') == Some(seq![0b00100u8, 0b01100, 0b00100, 0b00100, 0b00100, 0b00100, 0b01110]),
        glyph_rows('2') == Some(seq![0b01110u8, 0b10001, 0b00001, 0b00110, 0b01000, 0b10000, 0b11111]),
        glyph_rows('3') == Some(seq![0b11111u8, 0b00010, 0b00100, 0b00010, 0b00001, 0b10001, 0b01110]),
        glyph_rows('4') == Some(seq![0b00010u8, 0b00110, 0b01010, 0b10010, 0b11111, 0b00010, 0b00010]),
        glyph_rows('5') == Some(seq![0b11111u8, 0b10000, 0b11110, 0b00001, 0b00001, 0b10001, 0b01110]),
        glyph_rows('6') == Some(seq![0b01110u8, 0b10000, 0b11110, 0b10001, 0b10001, 0b10001, 0b01110]),
        glyph_rows('7') == Some(seq![0b11111u8, 0b00001, 0b00010, 0b00100, 0b01000, 0b01000, 0b01000]),
        glyph_rows('8') == Some(seq![0b01110u8, 0b10001, 0b10001, 0b01110, 0b10001, 0b10001, 0b01110]),
        glyph_rows('9') == Some(seq![0b01110u8, 0b10001, 0b10001, 0b01111, 0b00001, 0b10001, 0b01110]),
{
}

/// Whether the dot in row `row`, column `col` of the glyph of `ch` is lit.
pub open spec fn glyph_bit(ch: char, row: int, col: int) -> bool {
    &&& glyph_rows(ch) is Some
    &&& 0 <= row < 7
    &&& 0 <= col < 5
    &&& (glyph_rows(ch)->0[row] >> ((4 - col) as u8)) & 1u8 == 1u8
}

/// The left (or top) edge of dot cell `k` of a glyph whose first cell starts
/// at `origin`.
pub open spec fn cell_start(origin: int, k: int, dot: int, spacing: int) -> int {
    origin + k * (dot + spacing)
}

/// Whether pixel (px, py) is covered by a lit dot of the glyph of `ch` drawn
/// at (x, y): each lit dot is a `dot` x `dot` square, and neighbouring dot
/// cells lie `dot + spacing` pixels apart.
pub open spec fn glyph_lit(ch: char, x: int, y: int, dot: int, spacing: int, px: int, py: int) -> bool {
    exists|row: int, col: int|
        #[trigger] glyph_bit(ch, row, col)
        && cell_start(x, col, dot, spacing) <= px < cell_start(x, col, dot, spacing) + dot
        && cell_start(y, row, dot, spacing) <= py < cell_start(y, row, dot, spacing) + dot
}

/// The rows of the glyph of `ch`, as `glyph_rows` states them.
pub fn glyph_for(ch: char) -> (rows: Option<[u8; 7]>)
    ensures
        rows is Some <==> glyph_rows(ch) is Some,
        rows is Some ==> rows->0@ == glyph_rows(ch)->0,
{
    let rows = match ch {
        '0' => Some([0b01110, 0b10001, 0b10011, 0b10101, 0b11001, 0b10001, 0b01110]),
        '1' => Some([0b00100, 0b01100, 0b00100, 0b00100, 0b00100, 0b00100, 0b01110]),
        '2' => Some([0b01110, 0b10001, 0b00001, 0b00110, 0b01000, 0b10000, 0b11111]),
        '3' => Some([0b11111, 0b00010, 0b00100, 0b00010, 0b00001, 0b10001, 0b01110]),
        '4' => Some([0b00010, 0b00110, 0b01010, 0b10010, 0b11111, 0b00010, 0b00010]),
        '5' => Some([0b11111, 0b10000, 0b11110, 0b00001, 0b00001, 0b10001, 0b01110]),
        '6' => Some([0b01110, 0b10000, 0b11110, 0b10001, 0b10001, 0b10001, 0b01110]),
        '7' => Some([0b11111, 0b00001, 0b00010, 0b00100, 0b01000, 0b01000, 0b01000]),
        '8' => Some([0b01110, 0b10001, 0b10001, 0b01110, 0b10001, 0b10001, 0b01110]),
        '9' => Some([0b01110, 0b10001, 0b10001, 0b01111, 0b00001, 0b10001, 0b01110]),
        ':' => Some([0b00000, 0b01100, 0b01100, 0b00000, 0b01100, 0b01100, 0b00000]),
        '%' => Some([0b11001, 0b11010, 0b00100, 0b01000, 0b01011, 0b10011, 0b00000]),
        '/' => Some([0b00001, 0b00010, 0b00100, 0b01000, 0b10000, 0b10000, 0b00000]),
        '-' => Some([0b00000, 0b00000, 0b00000, 0b11111, 0b00000, 0b00000, 0b00000]),
        '.' => Some([0b00000, 0b00000, 0b00000, 0b00000, 0b00000, 0b01100, 0b01100]),
        'A' | 'a' => Some([0b01110, 0b10001, 0b10001, 0b11111, 0b10001, 0b10001, 0b10001]),
        'B' | 'b' => Some([0b11110, 0b10001, 0b10001, 0b11110, 0b10001, 0b10001, 0b11110]),
        'C' | 'c' => Some([0b01110, 0b10001, 0b10000, 0b10000, 0b10000, 0b10001, 0b01110]),
        'D' | 'd' => Some([0b11100, 0b10010, 0b10001, 0b10001, 0b10001, 0b10010, 0b11100]),
        'E' | 'e' => Some([0b11111, 0b10000, 0b10000, 0b11110, 0b10000, 0b10000, 0b11111]),
        'F' | 'f' => Some([0b11111, 0b10000, 0b10000, 0b11110, 0b10000, 0b10000, 0b10000]),
        'G' | 'g' => Some([0b01110, 0b10001, 0b10000, 0b10111, 0b10001, 0b10001, 0b01111]),
        'H' | 'h' => Some([0b10001, 0b10001, 0b10001, 0b11111, 0b10001, 0b10001, 0b10001]),
        'I' | 'i' => Some([0b01110, 0b00100, 0b00100, 0b00100, 0b00100, 0b00100, 0b01110]),
        'J' | 'j' => Some([0b00111, 0b00010, 0b00010, 0b00010, 0b00010, 0b10010, 0b01100]),
        'K' | 'k' => Some([0b10001, 0b10010, 0b10100, 0b11000, 0b10100, 0b10010, 0b10001]),
        'L' | 'l' => Some([0b10000, 0b10000, 0b10000, 0b10000, 0b10000, 0b10000, 0b11111]),
        'M' | 'm' => Some([0b10001, 0b11011, 0b10101, 0b10001, 0b10001, 0b10001, 0b10001]),
        'N' | 'n' => Some([0b10001, 0b11001, 0b10101, 0b10011, 0b10001, 0b10001, 0b10001]),
        'O' | 'o' => Some([0b01110, 0b10001, 0b10001, 0b10001, 0b10001, 0b10001, 0b01110]),
        'P' | 'p' => Some([0b11110, 0b10001, 0b10001, 0b11110, 0b10000, 0b10000, 0b10000]),
        'Q' | 'q' => Some([0b01110, 0b10001, 0b10001, 0b10001, 0b10101, 0b10010, 0b01101]),
        'R' | 'r' => Some([0b11110, 0b10001, 0b10001, 0b11110, 0b10100, 0b10010, 0b10001]),
        'S' | 's' => Some([0b01111, 0b10000, 0b10000, 0b01110, 0b00001, 0b00001, 0b11110]),
        'T' | 't' => Some([0b11111, 0b00100, 0b00100, 0b00100, 0b00100, 0b00100, 0b00100]),
        'U' | 'u' => Some([0b10001, 0b10001, 0b10001, 0b10001, 0b10001, 0b10001, 0b01110]),
        'V' | 'v' => Some([0b10001, 0b10001, 0b10001, 0b10001, 0b01010, 0b01010, 0b00100]),
        'W' | 'w' => Some([0b10001, 0b10001, 0b10001, 0b10101, 0b10101, 0b11011, 0b10001]),
        'X' | 'x' => Some([0b10001, 0b10001, 0b01010, 0b00100, 0b01010, 0b10001, 0b10001]),
        'Y' | 'y' => Some([0b10001, 0b10001, 0b01010, 0b00100, 0b00100, 0b00100, 0b00100]),
        'Z' | 'z' => Some([0b11111, 0b00001, 0b00010, 0b00100, 0b01000, 0b10000, 0b11111]),
        _ => None,
    };
    proof {
        if rows is Some {
            assert(rows->0@ =~= glyph_rows(ch)->0);
        }
    }
    rows
}

/// The dot cells of the glyph of `ch` that come before cell `n` in reading
/// order (row by row, left to right) and are lit, as pixels.
pub open spec fn glyph_lit_before(ch: char, x: int, y: int, dot: int, spacing: int, n: int) -> spec_fn(int, int) -> bool {
    |px: int, py: int|
        exists|row: int, col: int|
            #[trigger] glyph_bit(ch, row, col) && row * 5 + col < n
            && cell_start(x, col, dot, spacing) <= px < cell_start(x, col, dot, spacing) + dot
            && cell_start(y, row, dot, spacing) <= py < cell_start(y, row, dot, spacing) + dot
}

/// The inputs on which drawing the glyph of `ch` at (x, y) stays within
/// unsigned arithmetic: the position of every lit dot, and for dots of
/// positive size its last pixel, fit in a `usize`.
pub open spec fn glyph_fits(ch: char, x: int, y: int, dot: int, spacing: int) -> bool {
    forall|row: int, col: int| #[trigger] glyph_bit(ch, row, col) ==> {
        &&& dot + spacing <= usize::MAX
        &&& cell_start(x, col, dot, spacing) <= usize::MAX
        &&& cell_start(y, row, dot, spacing) <= usize::MAX
        &&& dot > 0 ==> cell_start(x, col, dot, spacing) + dot - 1 <= usize::MAX
        &&& dot > 0 ==> cell_start(y, row, dot, spacing) + dot - 1 <= usize::MAX
    }
}

/// A glyph drawn where its whole 5 x 7 cell grid fits the coordinate range
/// stays within unsigned arithmetic.
pub proof fn lemma_glyph_fits(ch: char, x: int, y: int, dot: int, spacing: int)
    requires
        0 <= x,
        0 <= y,
        0 <= dot,
        0 <= spacing,
        x + 5 * (dot + spacing) <= usize::MAX,
        y + 7 * (dot + spacing) <= usize::MAX,
    ensures
        glyph_fits(ch, x, y, dot, spacing),
{
    assert forall|row: int, col: int| #[trigger] glyph_bit(ch, row, col) implies {
        &&& dot + spacing <= usize::MAX
        &&& cell_start(x, col, dot, spacing) <= usize::MAX
        &&& cell_start(y, row, dot, spacing) <= usize::MAX
        &&& dot > 0 ==> cell_start(x, col, dot, spacing) + dot - 1 <= usize::MAX
        &&& dot > 0 ==> cell_start(y, row, dot, spacing) + dot - 1 <= usize::MAX
    } by {
        assert(col * (dot + spacing) <= 4 * (dot + spacing)) by (nonlinear_arith)
            requires 0 <= col <= 4, dot + spacing >= 0;
        assert(row * (dot + spacing) <= 6 * (dot + spacing)) by (nonlinear_arith)
            requires 0 <= row <= 6, dot + spacing >= 0;
    }
}

/// The pixels of dot cell (row, col) of a glyph drawn at (x, y).
pub open spec fn cell_shape(x: int, y: int, dot: int, spacing: int, row: int, col: int) -> Shape {
    Shape::Rect {
        x: cell_start(x, col, dot, spacing),
        y: cell_start(y, row, dot, spacing),
        w: dot,
        h: dot,
    }
}

/// Drawing cell (row, col) when it is lit, and nothing otherwise, extends
/// the lit cells drawn so far by that cell.
pub proof fn lemma_glyph_cell(
    p0: Seq<u8>,
    w: nat,
    h: nat,
    ch: char,
    x: int,
    y: int,
    dot: int,
    spacing: int,
    c: Rgba,
    row: int,
    col: int,
)
    requires
        p0.len() == w * h * 4,
        0 <= row < 7,
        0 <= col < 5,
    ensures
        glyph_bit(ch, row, col) ==> paint_region(
            paint_region(p0, w, glyph_lit_before(ch, x, y, dot, spacing, row * 5 + col), c),
            w,
            region_of(cell_shape(x, y, dot, spacing, row, col)),
            c,
        ) == paint_region(p0, w, glyph_lit_before(ch, x, y, dot, spacing, row * 5 + col + 1), c),
        !glyph_bit(ch, row, col) ==> paint_region(
            p0,
            w,
            glyph_lit_before(ch, x, y, dot, spacing, row * 5 + col),
            c,
        ) == paint_region(p0, w, glyph_lit_before(ch, x, y, dot, spacing, row * 5 + col + 1), c),
{
    let k = row * 5 + col;
    let before = glyph_lit_before(ch, x, y, dot, spacing, k);
    let after = glyph_lit_before(ch, x, y, dot, spacing, k + 1);
    let cell = region_of(cell_shape(x, y, dot, spacing, row, col));
    if glyph_bit(ch, row, col) {
        lemma_paint_union(p0, w, before, cell, c);
        assert forall|px: int, py: int| #[trigger] after(px, py) == (before(px, py) || cell(px, py)) by {
            if after(px, py) {
                let (r2, c2) = choose|r2: int, c2: int|
                    #[trigger] glyph_bit(ch, r2, c2) && r2 * 5 + c2 < k + 1
                    && cell_start(x, c2, dot, spacing) <= px < cell_start(x, c2, dot, spacing) + dot
                    && cell_start(y, r2, dot, spacing) <= py < cell_start(y, r2, dot, spacing) + dot;
                if r2 * 5 + c2 < k {
                    assert(before(px, py));
                } else {
                    assert(r2 == row && c2 == col) by (nonlinear_arith)
                        requires 0 <= c2 < 5, 0 <= col < 5, r2 * 5 + c2 == row * 5 + col;
                }
            }
            if cell(px, py) {
                assert(glyph_bit(ch, row, col) && row * 5 + col < k + 1);
            }
        }
        lemma_paint_same_region(p0, w, h, |a: int, b: int| before(a, b) || cell(a, b), after, c);
    } else {
        assert forall|px: int, py: int| #[trigger] before(px, py) == after(px, py) by {
            if after(px, py) {
                let (r2, c2) = choose|r2: int, c2: int|
                    #[trigger] glyph_bit(ch, r2, c2) && r2 * 5 + c2 < k + 1
                    && cell_start(x, c2, dot, spacing) <= px < cell_start(x, c2, dot, spacing) + dot
                    && cell_start(y, r2, dot, spacing) <= py < cell_start(y, r2, dot, spacing) + dot;
                if r2 * 5 + c2 == k {
                    assert(r2 == row && c2 == col) by (nonlinear_arith)
                        requires 0 <= c2 < 5, 0 <= col < 5, r2 * 5 + c2 == row * 5 + col;
                }
                assert(before(px, py));
            }
        }
        lemma_paint_same_region(p0, w, h, before, after, c);
    }
}

/// Before the first cell nothing of the glyph is drawn, and after the last
/// cell all of it.
pub proof fn lemma_glyph_ends(p0: Seq<u8>, w: nat, h: nat, ch: char, x: int, y: int, dot: int, spacing: int, c: Rgba)
    requires
        p0.len() == w * h * 4,
    ensures
        paint_region(p0, w, glyph_lit_before(ch, x, y, dot, spacing, 0), c) == p0,
        paint_region(p0, w, glyph_lit_before(ch, x, y, dot, spacing, 35), c) == paint_region(
            p0,
            w,
            region_of(Shape::Glyph { ch, x, y, dot, spacing }),
            c,
        ),
{
    lemma_paint_nothing(p0, w, h, glyph_lit_before(ch, x, y, dot, spacing, 0), c);
    lemma_paint_same_region(
        p0,
        w,
        h,
        glyph_lit_before(ch, x, y, dot, spacing, 35),
        region_of(Shape::Glyph { ch, x, y, dot, spacing }),
        c,
    );
}

/// Whether pixel (px, py) is covered by a lit dot of some character of
/// `text`, each character's glyph drawn at its cursor position.
pub open spec fn text_lit(text: Seq<char>, x: int, y: int, dot: int, spacing: int, char_spacing: int, px: int, py: int) -> bool {
    exists|i: int|
        0 <= i < text.len() && #[trigger] text[i] != ' ' && glyph_lit(
            text[i],
            text_advance_x(text, i, x, dot, spacing, char_spacing),
            y,
            dot,
            spacing,
            px,
            py,
        )
}

/// The lit dots of the first `n` characters of a dot-matrix text, as pixels.
pub open spec fn text_lit_before(
    text: Seq<char>,
    x: int,
    y: int,
    dot: int,
    spacing: int,
    char_spacing: int,
    n: int,
) -> spec_fn(int, int) -> bool {
    |px: int, py: int|
        exists|i: int|
            0 <= i < n && i < text.len() && #[trigger] text[i] != ' ' && glyph_lit(
                text[i],
                text_advance_x(text, i, x, dot, spacing, char_spacing),
                y,
                dot,
                spacing,
                px,
                py,
            )
}

/// The inputs on which drawing a text stays within unsigned arithmetic: the
/// cursor after every character, and every glyph at its cursor position, fit
/// in a `usize`.
pub open spec fn text_fits(text: Seq<char>, x: int, y: int, dot: int, spacing: int, char_spacing: int) -> bool {
    forall|i: int|
        0 <= i < text.len() ==> {
            &&& text_advance_x(text, i + 1, x, dot, spacing, char_spacing) <= usize::MAX
            &&& #[trigger] text[i] != ' ' ==> glyph_fits(
                text[i],
                text_advance_x(text, i, x, dot, spacing, char_spacing),
                y,
                dot,
                spacing,
            )
        }
}

/// Drawing character `i` (nothing for a space) extends the drawn characters
/// by that one.
pub proof fn lemma_text_char(
    p0: Seq<u8>,
    w: nat,
    h: nat,
    text: Seq<char>,
    x: int,
    y: int,
    dot: int,
    spacing: int,
    char_spacing: int,
    c: Rgba,
    i: int,
)
    requires
        p0.len() == w * h * 4,
        0 <= i < text.len(),
    ensures
        text[i] != ' ' ==> paint_region(
            paint_region(p0, w, text_lit_before(text, x, y, dot, spacing, char_spacing, i), c),
            w,
            region_of(
                Shape::Glyph {
                    ch: text[i],
                    x: text_advance_x(text, i, x, dot, spacing, char_spacing),
                    y,
                    dot,
                    spacing,
                },
            ),
            c,
        ) == paint_region(p0, w, text_lit_before(text, x, y, dot, spacing, char_spacing, i + 1), c),
        text[i] == ' ' ==> paint_region(p0, w, text_lit_before(text, x, y, dot, spacing, char_spacing, i), c)
            == paint_region(p0, w, text_lit_before(text, x, y, dot, spacing, char_spacing, i + 1), c),
{
    let before = text_lit_before(text, x, y, dot, spacing, char_spacing, i);
    let after = text_lit_before(text, x, y, dot, spacing, char_spacing, i + 1);
    let g = region_of(
        Shape::Glyph { ch: text[i], x: text_advance_x(text, i, x, dot, spacing, char_spacing), y, dot, spacing },
    );
    if text[i] != ' ' {
        lemma_paint_union(p0, w, before, g, c);
        assert forall|px: int, py: int| #[trigger] after(px, py) == (before(px, py) || g(px, py)) by {
            if after(px, py) {
                let j = choose|j: int|
                    0 <= j < i + 1 && j < text.len() && #[trigger] text[j] != ' ' && glyph_lit(
                        text[j],
                        text_advance_x(text, j, x, dot, spacing, char_spacing),
                        y,
                        dot,
                        spacing,
                        px,
                        py,
                    );
                if j < i {
                    assert(before(px, py));
                }
            }
            if g(px, py) {
                assert(text[i] != ' ');
            }
            if before(px, py) {
                let j = choose|j: int|
                    0 <= j < i && j < text.len() && #[trigger] text[j] != ' ' && glyph_lit(
                        text[j],
                        text_advance_x(text, j, x, dot, spacing, char_spacing),
                        y,
                        dot,
                        spacing,
                        px,
                        py,
                    );
                assert(text[j] != ' ');
            }
        }
        lemma_paint_same_region(p0, w, h, |a: int, b: int| before(a, b) || g(a, b), after, c);
    } else {
        assert forall|px: int, py: int| #[trigger] before(px, py) == after(px, py) by {
            if after(px, py) {
                let j = choose|j: int|
                    0 <= j < i + 1 && j < text.len() && #[trigger] text[j] != ' ' && glyph_lit(
                        text[j],
                        text_advance_x(text, j, x, dot, spacing, char_spacing),
                        y,
                        dot,
                        spacing,
                        px,
                        py,
                    );
                assert(j != i);
                assert(before(px, py));
            }
            if before(px, py) {
                let j = choose|j: int|
                    0 <= j < i && j < text.len() && #[trigger] text[j] != ' ' && glyph_lit(
                        text[j],
                        text_advance_x(text, j, x, dot, spacing, char_spacing),
                        y,
                        dot,
                        spacing,
                        px,
                        py,
                    );
                assert(text[j] != ' ');
            }
        }
        lemma_paint_same_region(p0, w, h, before, after, c);
    }
}

/// Before the first character nothing of a text is drawn, and after the
/// last character all of it.
pub proof fn lemma_text_ends(
    p0: Seq<u8>,
    w: nat,
    h: nat,
    text: Seq<char>,
    x: int,
    y: int,
    dot: int,
    spacing: int,
    char_spacing: int,
    c: Rgba,
)
    requires
        p0.len() == w * h * 4,
    ensures
        paint_region(p0, w, text_lit_before(text, x, y, dot, spacing, char_spacing, 0), c) == p0,
        paint_region(p0, w, text_lit_before(text, x, y, dot, spacing, char_spacing, text.len() as int), c)
            == paint_region(p0, w, region_of(Shape::Text { text, x, y, dot, spacing, char_spacing }), c),
{
    lemma_paint_nothing(p0, w, h, text_lit_before(text, x, y, dot, spacing, char_spacing, 0), c);
    let all = text_lit_before(text, x, y, dot, spacing, char_spacing, text.len() as int);
    let sh = region_of(Shape::Text { text, x, y, dot, spacing, char_spacing });
    assert forall|px: int, py: int| #[trigger] all(px, py) == sh(px, py) by {
        if sh(px, py) {
            let j = choose|j: int|
                0 <= j < text.len() && #[trigger] text[j] != ' ' && glyph_lit(
                    text[j],
                    text_advance_x(text, j, x, dot, spacing, char_spacing),
                    y,
                    dot,
                    spacing,
                    px,
                    py,
                );
            assert(text[j] != ' ');
            assert(0 <= j < text.len() as int && j < text.len());
            assert(all(px, py));
        }
        assert(sh(px, py) ==> all(px, py));
        if all(px, py) {
            let j = choose|j: int|
                0 <= j < text.len() && j < text.len() && #[trigger] text[j] != ' ' && glyph_lit(
                    text[j],
                    text_advance_x(text, j, x, dot, spacing, char_spacing),
                    y,
                    dot,
                    spacing,
                    px,
                    py,
                );
            assert(text[j] != ' ');
            assert(text_lit(text, x, y, dot, spacing, char_spacing, px, py));
        }
    }
    lemma_paint_same_region(
        p0,
        w,
        h,
        text_lit_before(text, x, y, dot, spacing, char_spacing, text.len() as int),
        region_of(Shape::Text { text, x, y, dot, spacing, char_spacing }),
        c,
    );
}

/// The cursor never moves left, and moves at most one full character cell
/// (five dot cells and the character spacing) per character.
pub proof fn lemma_advance_bound(text: Seq<char>, i: int, x: int, dot: int, spacing: int, char_spacing: int)
    requires
        0 <= i,
        0 <= dot,
        0 <= spacing,
        0 <= char_spacing,
    ensures
        x <= text_advance_x(text, i, x, dot, spacing, char_spacing) <= x + i * (5 * (dot + spacing)
            + char_spacing),
    decreases i,
{
    if i > 0 {
        lemma_advance_bound(text, i - 1, x, dot, spacing, char_spacing);
        assert((i - 1) * (5 * (dot + spacing) + char_spacing) + (5 * (dot + spacing) + char_spacing) == i * (5 * (dot
            + spacing) + char_spacing)) by (nonlinear_arith);
    }
}

/// A text whose full character cells fit the coordinate range can be drawn.
pub proof fn lemma_text_fits(text: Seq<char>, x: int, y: int, dot: int, spacing: int, char_spacing: int)
    requires
        0 <= x,
        0 <= y,
        0 <= dot,
        0 <= spacing,
        0 <= char_spacing,
        x + text.len() * (5 * (dot + spacing) + char_spacing) <= usize::MAX,
        y + 7 * (dot + spacing) <= usize::MAX,
    ensures
        text_fits(text, x, y, dot, spacing, char_spacing),
{
    let a = 5 * (dot + spacing) + char_spacing;
    assert forall|i: int| 0 <= i < text.len() implies {
        &&& text_advance_x(text, i + 1, x, dot, spacing, char_spacing) <= usize::MAX
        &&& #[trigger] text[i] != ' ' ==> glyph_fits(
            text[i],
            text_advance_x(text, i, x, dot, spacing, char_spacing),
            y,
            dot,
            spacing,
        )
    } by {
        lemma_advance_bound(text, i + 1, x, dot, spacing, char_spacing);
        lemma_advance_bound(text, i, x, dot, spacing, char_spacing);
        assert((i + 1) * a <= text.len() * a) by (nonlinear_arith)
            requires i + 1 <= text.len(), a >= 0;
        assert(i * a + a == (i + 1) * a) by (nonlinear_arith);
        if text[i] != ' ' {
            lemma_glyph_fits(text[i], text_advance_x(text, i, x, dot, spacing, char_spacing), y, dot, spacing);
        }
    }
}

/// A dot-matrix text lies within the box as wide as a full cell per
/// character and seven dot cells high.
pub proof fn lemma_text_within(text: Seq<char>, x: int, y: int, dot: int, spacing: int, char_spacing: int)
    requires
        0 <= dot,
        0 <= spacing,
        0 <= char_spacing,
    ensures
        within(
            Shape::Text { text, x, y, dot, spacing, char_spacing },
            x,
            y,
            text.len() * (5 * (dot + spacing) + char_spacing),
            7 * (dot + spacing),
        ),
{
    let k = 5 * (dot + spacing) + char_spacing;
    assert forall|px: int, py: int| #[trigger] in_shape(
        Shape::Text { text, x, y, dot, spacing, char_spacing },
        px,
        py,
    ) implies x <= px < x + text.len() * k && y <= py < y + 7 * (dot + spacing) by {
        let i = choose|i: int|
            0 <= i < text.len() && #[trigger] text[i] != ' ' && glyph_lit(
                text[i],
                text_advance_x(text, i, x, dot, spacing, char_spacing),
                y,
                dot,
                spacing,
                px,
                py,
            );
        let ax = text_advance_x(text, i, x, dot, spacing, char_spacing);
        let (row, col) = choose|row: int, col: int|
            #[trigger] glyph_bit(text[i], row, col) && cell_start(ax, col, dot, spacing) <= px < cell_start(
                ax,
                col,
                dot,
                spacing,
            ) + dot && cell_start(y, row, dot, spacing) <= py < cell_start(y, row, dot, spacing) + dot;
        lemma_advance_bound(text, i, x, dot, spacing, char_spacing);
        assert(0 <= col * (dot + spacing) <= 4 * (dot + spacing)) by (nonlinear_arith)
            requires 0 <= col < 5, dot + spacing >= 0;
        assert(0 <= row * (dot + spacing) <= 6 * (dot + spacing)) by (nonlinear_arith)
            requires 0 <= row < 7, dot + spacing >= 0;
        assert(i * k + k <= text.len() * k) by (nonlinear_arith)
            requires 0 <= i < text.len(), k >= 0;
    }
}

} // verus!
