//! The text terminal on the framebuffer: where the cursor goes for
//! characters and control sequences, and how glyphs are laid out.  Drawing
//! the pixels is the caller's.

use vstd::prelude::*;

use crate::color::{blend_channel, Color};

verus! {

/// The cursor of the terminal, in character cells, and the colours it draws with.
#[derive(Debug, Clone, Copy, PartialEq, Eq, Structural)]
pub struct TextCursor {
    pub x: usize,
    pub y: usize,
    pub fg: Color,
    pub bg: Color,
}

/// The width of a character cell in pixels.
pub const CHAR_WIDTH: usize = 11;
/// The height of a character cell in pixels.
pub const CHAR_HEIGHT: usize = 20;
/// How many glyphs a row of the font image holds.
pub const FONT_COLUMNS: usize = 20;

/// A linear framebuffer of 32-bit pixels, `width` by `height`, whose first
/// pixel is at the address `address`; `pitch` is the length of a row as the
/// terminal keeps it.
#[derive(Debug, Clone, Copy, PartialEq, Eq, Structural)]
pub struct Framebuffer {
    pub width: u64,
    pub height: u64,
    pub pitch: u64,
    pub address: u64,
}

impl Framebuffer {
    /// The position of the pixel at column `x` and row `y` among the pixels
    /// of the framebuffer, counted row by row, if it lies within the
    /// framebuffer's `width * height` pixels; a pixel beyond them stops the
    /// kernel when it is drawn.
    pub fn pixel_index(&self, x: u64, y: u64) -> (r: Option<u64>)
        requires
            y * self.width + x <= u64::MAX,
            self.width * self.height * 4 <= u64::MAX,
            self.address + self.width * self.height * 4 <= u64::MAX,
            self.address + 4 * (y * self.width + x) <= u64::MAX,
        ensures
            r == (if y * self.width + x < self.width * self.height {
                Some((y * self.width + x) as u64)
            } else {
                None::<u64>
            }),
    {
        proof {
            assert(0 <= y * self.width <= y * self.width + x) by (nonlinear_arith)
                requires
                    0 <= x,
                    0 <= y,
                    0 <= self.width,
            ;
            assert(0 <= self.width * self.height <= self.width * self.height * 4) by (nonlinear_arith)
                requires
                    0 <= self.height,
                    0 <= self.width,
            ;
        }
        let idx = y * self.width + x;
        let pixel = self.address + 4 * idx;
        let end = self.address + self.width * self.height * 4;
        if pixel < end {
            Some(idx)
        } else {
            None
        }
    }
}

/// How a character is drawn.
#[derive(Debug, Clone, Copy, PartialEq, Eq, Structural)]
pub enum CharKind {
    /// The cell is filled with the background colour.
    Blank,
    /// The cell is filled with the foreground colour.
    Block,
    /// The glyph of the font is drawn.
    Glyph,
}

impl TextCursor {
    /// The cursor at the top left, white on black.
    pub fn new() -> (r: Self)
        ensures
            r.x == 0 && r.y == 0,
            r.fg == (Color { b: 255, g: 255, r: 255 }),
            r.bg == (Color { b: 0, g: 0, r: 0 }),
    {
        TextCursor { x: 0, y: 0, fg: Color::white(), bg: Color::black() }
    }

    /// Handles a control character: a new line goes to the start of the
    /// next line, a carriage return to the start of the line, a backspace
    /// one cell back where there is one.  Other control characters stop the
    /// kernel.
    pub fn execute(&mut self, byte: u8)
        requires
            byte == 10 || byte == 13 || byte == 8,
            byte == 10 ==> old(self).y < usize::MAX,
        ensures
            final(self).fg == old(self).fg && final(self).bg == old(self).bg,
            byte == 10 ==> final(self).x == 0 && final(self).y == old(self).y + 1,
            byte == 13 ==> final(self).x == 0 && final(self).y == old(self).y,
            byte == 8 ==> final(self).x == (if old(self).x > 0 { old(self).x - 1 } else { 0 }) && final(self).y == old(self).y,
    {
        if byte == 10 {
            self.x = 0;
            self.y = self.y + 1;
        } else if byte == 13 {
            self.x = 0;
        } else {
            self.x = self.x.saturating_sub(1);
        }
    }

    /// Handles a control sequence with the final character `action` and
    /// the parameters `params`: `J` with 2 clears the screen and goes home,
    /// `H` with 0 goes home, `H` with a row and a column from 1 on goes
    /// there, `m` with 0 resets the colours, with 30 to 37 sets the
    /// foreground and with 40 to 47 the background.  Gives back whether the
    /// screen is to be cleared, or nothing for a sequence the terminal does
    /// not handle, on which the kernel stops.
    pub fn csi_dispatch(&mut self, action: char, params: &[Vec<u16>]) -> (r: Option<bool>)
        ensures
            r == csi_effect(action, params@.map_values(|p: Vec<u16>| p@)).0,
            r is Some ==> *final(self) == apply_csi(*old(self), action, params@.map_values(|p: Vec<u16>| p@)),
            r is None ==> *final(self) == *old(self),
    {
        let ghost ps = params@.map_values(|p: Vec<u16>| p@);
        if params.len() == 1 && params[0].len() == 1 {
            let v = params[0][0];
            if action == 'J' && v == 2 {
                self.x = 0;
                self.y = 0;
                return Some(true);
            }
            if action == 'H' && v == 0 {
                self.x = 0;
                self.y = 0;
                return Some(false);
            }
            if action == 'm' && v == 0 {
                self.fg = Color::white();
                self.bg = Color::black();
                return Some(false);
            }
            if action == 'm' && 30 <= v && v <= 37 {
                self.fg = palette(v - 30);
                return Some(false);
            }
            if action == 'm' && 40 <= v && v <= 47 {
                self.bg = palette(v - 40);
                return Some(false);
            }
            return None;
        }
        if params.len() == 2 && params[0].len() == 1 && params[1].len() == 1 && action == 'H' {
            let y = params[0][0];
            let x = params[1][0];
            if x > 0 && y > 0 {
                self.x = (x - 1) as usize;
                self.y = (y - 1) as usize;
                return Some(false);
            }
        }
        None
    }

    /// Makes room for a character in a terminal of `columns` by `rows`
    /// cells: past the last column the cursor goes to the next line, and
    /// below the last row the screen scrolls until the cursor is on the
    /// last row.  Gives back how many lines to scroll.
    pub fn place_char(&mut self, columns: usize, rows: usize) -> (scrolls: usize)
        requires
            rows > 0,
            old(self).y < usize::MAX,
        ensures
            final(self).fg == old(self).fg && final(self).bg == old(self).bg,
            final(self).x == if old(self).x >= columns { 0 } else { old(self).x },
            ({
                let y = if old(self).x >= columns { old(self).y + 1 } else { old(self).y as int };
                if y >= rows {
                    scrolls == y - rows + 1 && final(self).y == rows - 1
                } else {
                    scrolls == 0 && final(self).y == y
                }
            }),
    {
        if self.x >= columns {
            self.x = 0;
            self.y = self.y + 1;
        }
        if self.y >= rows {
            let scrolls = self.y - rows + 1;
            self.y = rows - 1;
            scrolls
        } else {
            0
        }
    }

    /// Moves the cursor past a drawn character.
    pub fn advance(&mut self)
        requires
            old(self).x < usize::MAX,
        ensures
            *final(self) == (TextCursor { x: (old(self).x + 1) as usize, ..*old(self) }),
    {
        self.x = self.x + 1;
    }
}

/// The colour of the palette entry `i`: black, red, green, yellow, blue,
/// magenta, cyan, white.
pub open spec fn palette_color(i: u16) -> Color {
    if i == 0 {
        Color { b: 0, g: 0, r: 0 }
    } else if i == 1 {
        Color { b: 0, g: 0, r: 255 }
    } else if i == 2 {
        Color { b: 0, g: 255, r: 0 }
    } else if i == 3 {
        Color { b: 0, g: 255, r: 255 }
    } else if i == 4 {
        Color { b: 255, g: 0, r: 0 }
    } else if i == 5 {
        Color { b: 255, g: 0, r: 255 }
    } else if i == 6 {
        Color { b: 255, g: 255, r: 0 }
    } else {
        Color { b: 255, g: 255, r: 255 }
    }
}

/// The colour of the palette entry `i`.
fn palette(i: u16) -> (c: Color)
    requires
        i <= 7,
    ensures
        c == palette_color(i),
{
    if i == 0 {
        Color::black()
    } else if i == 1 {
        Color::red()
    } else if i == 2 {
        Color::green()
    } else if i == 3 {
        Color::yellow()
    } else if i == 4 {
        Color::blue()
    } else if i == 5 {
        Color::magenta()
    } else if i == 6 {
        Color::cyan()
    } else {
        Color::white()
    }
}

/// What a control sequence does: whether it is handled and clears the
/// screen, and the cursor after it, from the cursor `c`.
pub open spec fn csi_effect(action: char, params: Seq<Seq<u16>>) -> (Option<bool>, spec_fn(TextCursor) -> TextCursor) {
    if params.len() == 1 && params[0].len() == 1 {
        let v = params[0][0];
        if action == 'J' && v == 2 {
            (Some(true), |c: TextCursor| TextCursor { x: 0, y: 0, ..c })
        } else if action == 'H' && v == 0 {
            (Some(false), |c: TextCursor| TextCursor { x: 0, y: 0, ..c })
        } else if action == 'm' && v == 0 {
            (Some(false), |c: TextCursor| TextCursor { fg: palette_color(7), bg: palette_color(0), ..c })
        } else if action == 'm' && 30 <= v <= 37 {
            (Some(false), |c: TextCursor| TextCursor { fg: palette_color((v - 30) as u16), ..c })
        } else if action == 'm' && 40 <= v <= 47 {
            (Some(false), |c: TextCursor| TextCursor { bg: palette_color((v - 40) as u16), ..c })
        } else {
            (None, |c: TextCursor| c)
        }
    } else if params.len() == 2 && params[0].len() == 1 && params[1].len() == 1 && action == 'H' && params[0][0] > 0
        && params[1][0] > 0 {
        (Some(false), |c: TextCursor| TextCursor { x: (params[1][0] - 1) as usize, y: (params[0][0] - 1) as usize, ..c })
    } else {
        (None, |c: TextCursor| c)
    }
}

/// Select graphic rendition with 30 + i (or 40 + i) sets the foreground
/// (or background) to the colour i of the ANSI palette, whose bit 0 turns
/// red on, bit 1 green and bit 2 blue, each channel full or off; 0 resets to
/// white on black.  Nothing else of the cursor changes, and the screen is
/// not cleared.
pub proof fn lemma_sgr_sets_ansi_colours(c: TextCursor, v: u16)
    ensures
        30 <= v <= 37 ==> {
            let after = apply_csi(c, 'm', seq![seq![v]]);
            let i = v - 30;
            &&& csi_effect('m', seq![seq![v]]).0 == Some(false)
            &&& after.fg.r == (if i % 2 == 1 { 255u8 } else { 0u8 })
            &&& after.fg.g == (if (i / 2) % 2 == 1 { 255u8 } else { 0u8 })
            &&& after.fg.b == (if i / 4 == 1 { 255u8 } else { 0u8 })
            &&& after.bg == c.bg && after.x == c.x && after.y == c.y
        },
        40 <= v <= 47 ==> {
            let after = apply_csi(c, 'm', seq![seq![v]]);
            let i = v - 40;
            &&& csi_effect('m', seq![seq![v]]).0 == Some(false)
            &&& after.bg.r == (if i % 2 == 1 { 255u8 } else { 0u8 })
            &&& after.bg.g == (if (i / 2) % 2 == 1 { 255u8 } else { 0u8 })
            &&& after.bg.b == (if i / 4 == 1 { 255u8 } else { 0u8 })
            &&& after.fg == c.fg && after.x == c.x && after.y == c.y
        },
        v == 0 ==> {
            let after = apply_csi(c, 'm', seq![seq![v]]);
            &&& csi_effect('m', seq![seq![v]]).0 == Some(false)
            &&& after.fg.r == 255 && after.fg.g == 255 && after.fg.b == 255
            &&& after.bg.r == 0 && after.bg.g == 0 && after.bg.b == 0
            &&& after.x == c.x && after.y == c.y
        },
{
    let p = seq![seq![v]];
    assert(p.len() == 1 && p[0].len() == 1 && p[0][0] == v);
}

/// The cursor after a handled control sequence.
pub open spec fn apply_csi(c: TextCursor, action: char, params: Seq<Seq<u16>>) -> TextCursor {
    (csi_effect(action, params).1)(c)
}

/// How the character `c` is drawn: a space blank, a full block filled,
/// a printable ASCII character with its glyph; nothing for others, which
/// stop the kernel.
pub fn char_kind(c: char) -> (r: Option<CharKind>)
    ensures
        r == if c == ' ' {
            Some(CharKind::Blank)
        } else if c == '\u{2588}' {
            Some(CharKind::Block)
        } else if 0x21 <= (c as u32) <= 0x7e {
            Some(CharKind::Glyph)
        } else {
            None::<CharKind>
        },
{
    if c == ' ' {
        Some(CharKind::Blank)
    } else if c == '\u{2588}' {
        Some(CharKind::Block)
    } else if 0x21 <= (c as u32) && (c as u32) <= 0x7e {
        Some(CharKind::Glyph)
    } else {
        None
    }
}

/// Where the alpha of pixel (`x`, `y`) of the glyph with index
/// `char_index` (the character minus the space) is in the font image, in
/// pixels: the glyphs are laid out in rows of [`FONT_COLUMNS`].
pub fn glyph_pixel_index(char_index: usize, x: usize, y: usize) -> (r: usize)
    requires
        char_index < 128,
        x < CHAR_WIDTH,
        y < CHAR_HEIGHT,
    ensures
        r == ((char_index / FONT_COLUMNS) * CHAR_HEIGHT + y) * (FONT_COLUMNS * CHAR_WIDTH) + (char_index
            % FONT_COLUMNS) * CHAR_WIDTH + x,
{
    let row = (char_index / FONT_COLUMNS) * CHAR_HEIGHT + y;
    let column = (char_index % FONT_COLUMNS) * CHAR_WIDTH + x;
    assert(row * (FONT_COLUMNS * CHAR_WIDTH) <= 140 * 220) by (nonlinear_arith)
        requires
            row <= 140,
    ;
    row * (FONT_COLUMNS * CHAR_WIDTH) + column
}

/// The colour of a glyph pixel with coverage `alpha`: the foreground
/// blended over the background, or nothing, leaving the pixel, where the
/// coverage is 0.
pub fn glyph_pixel(alpha: u8, fg: Color, bg: Color) -> (r: Option<Color>)
    ensures
        alpha == 0 ==> r is None,
        alpha > 0 ==> (r matches Some(c) && c.r == blend_channel(fg.r, bg.r, alpha) && c.g == blend_channel(
            fg.g,
            bg.g,
            alpha,
        ) && c.b == blend_channel(fg.b, bg.b, alpha)),
{
    if alpha > 0 {
        Some(fg.blend(bg, alpha))
    } else {
        None
    }
}

} // verus!
