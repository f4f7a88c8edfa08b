use vstd::prelude::*;

verus! {

pub const BUFFER_HEIGHT: usize = 25;
pub const BUFFER_WIDTH: usize = 80;

/// Number of cells on the screen.
pub const BUFFER_CELLS: usize = 2000;

/// The sixteen text-mode colours.
#[derive(Debug, Clone, Copy, PartialEq, Eq, Structural)]
pub enum Color {
    Black,
    Blue,
    Green,
    Cyan,
    Red,
    Magenta,
    Brown,
    LightGray,
    DarkGray,
    LightBlue,
    LightGreen,
    LightCyan,
    LightRed,
    Pink,
    Yellow,
    White,
}

/// Default foreground and background.
pub open spec fn default_fg() -> Color {
    Color::LightGray
}

pub open spec fn default_bg() -> Color {
    Color::Black
}

/// The colour an ANSI foreground code selects (30-37, 90-97); any other
/// code falls back to black.
pub open spec fn ansi_color(code: u8) -> Color {
    if code == 31 {
        Color::Red
    } else if code == 32 {
        Color::Green
    } else if code == 33 {
        Color::Brown
    } else if code == 34 {
        Color::Blue
    } else if code == 35 {
        Color::Magenta
    } else if code == 36 {
        Color::Cyan
    } else if code == 37 {
        Color::LightGray
    } else if code == 90 {
        Color::DarkGray
    } else if code == 91 {
        Color::LightRed
    } else if code == 92 {
        Color::LightGreen
    } else if code == 93 {
        Color::Yellow
    } else if code == 94 {
        Color::LightBlue
    } else if code == 95 {
        Color::Pink
    } else if code == 96 {
        Color::LightCyan
    } else if code == 97 {
        Color::White
    } else {
        Color::Black
    }
}

impl Color {
    /// The colour's four-bit hardware code.
    pub open spec fn code(self) -> u8 {
        match self {
            Color::Black => 0,
            Color::Blue => 1,
            Color::Green => 2,
            Color::Cyan => 3,
            Color::Red => 4,
            Color::Magenta => 5,
            Color::Brown => 6,
            Color::LightGray => 7,
            Color::DarkGray => 8,
            Color::LightBlue => 9,
            Color::LightGreen => 10,
            Color::LightCyan => 11,
            Color::LightRed => 12,
            Color::Pink => 13,
            Color::Yellow => 14,
            Color::White => 15,
        }
    }

    pub fn as_u8(self) -> (r: u8)
        ensures
            r == self.code(),
    {
        match self {
            Color::Black => 0,
            Color::Blue => 1,
            Color::Green => 2,
            Color::Cyan => 3,
            Color::Red => 4,
            Color::Magenta => 5,
            Color::Brown => 6,
            Color::LightGray => 7,
            Color::DarkGray => 8,
            Color::LightBlue => 9,
            Color::LightGreen => 10,
            Color::LightCyan => 11,
            Color::LightRed => 12,
            Color::Pink => 13,
            Color::Yellow => 14,
            Color::White => 15,
        }
    }

    pub fn from_ansi(code: u8) -> (r: Color)
        ensures
            r == ansi_color(code),
    {
        match code {
            31 => Color::Red,
            32 => Color::Green,
            33 => Color::Brown,
            34 => Color::Blue,
            35 => Color::Magenta,
            36 => Color::Cyan,
            37 => Color::LightGray,
            90 => Color::DarkGray,
            91 => Color::LightRed,
            92 => Color::LightGreen,
            93 => Color::Yellow,
            94 => Color::LightBlue,
            95 => Color::Pink,
            96 => Color::LightCyan,
            97 => Color::White,
            _ => Color::Black,
        }
    }
}

/// An attribute byte: background in the high nibble, foreground in the low.
#[derive(Debug, Clone, Copy, PartialEq, Eq, Structural)]
pub struct CharColor(pub u8);

impl CharColor {
    pub open spec fn spec_new(foreground: Color, background: Color) -> CharColor {
        CharColor((background.code() * 16 + foreground.code()) as u8)
    }

    pub fn new(foreground: Color, background: Color) -> (r: Self)
        ensures
            r == Self::spec_new(foreground, background),
    {
        CharColor(background.as_u8() * 16 + foreground.as_u8())
    }
}

/// One cell of the text screen.
#[derive(Debug, Clone, Copy, PartialEq, Eq, Structural)]
pub struct ScreenChar {
    pub ascii_character: u8,
    pub color_code: CharColor,
}

impl ScreenChar {
    pub fn new(ascii_character: u8, color_code: CharColor) -> (r: Self)
        ensures
            r == (ScreenChar { ascii_character, color_code }),
    {
        ScreenChar { ascii_character, color_code }
    }
}

/// A space in `color`.
pub open spec fn blank(color: CharColor) -> ScreenChar {
    ScreenChar { ascii_character: 32, color_code: color }
}

/// Index of the cell at `row`, `col` in the row-major cell sequence.
pub open spec fn cell_index(row: int, col: int) -> int {
    row * BUFFER_WIDTH + col
}

/// The screen after scrolling up one line: each row takes the next row's
/// cells and the bottom row is blank in `color`.
pub open spec fn scrolled(cells: Seq<ScreenChar>, color: CharColor) -> Seq<ScreenChar> {
    Seq::new(
        BUFFER_CELLS as nat,
        |i: int|
            if i < BUFFER_CELLS - BUFFER_WIDTH {
                cells[i + BUFFER_WIDTH]
            } else {
                blank(color)
            },
    )
}

/// The text screen's cells, row by row.
pub struct Buffer {
    chars: Vec<ScreenChar>,
}

impl Buffer {
    pub closed spec fn cells(self) -> Seq<ScreenChar> {
        self.chars@
    }

    /// A screen of spaces in `color`.
    pub fn new(color: CharColor) -> (r: Self)
        ensures
            r.cells().len() == BUFFER_CELLS,
            forall|i: int| 0 <= i < BUFFER_CELLS ==> #[trigger] r.cells()[i] == blank(color),
    {
        let mut chars: Vec<ScreenChar> = Vec::new();
        let mut i: usize = 0;
        while i < BUFFER_CELLS
            invariant
                i <= BUFFER_CELLS,
                chars@.len() == i,
                forall|j: int| 0 <= j < i ==> #[trigger] chars@[j] == blank(color),
            decreases BUFFER_CELLS - i,
        {
            chars.push(ScreenChar { ascii_character: 32, color_code: color });
            i = i + 1;
        }
        Buffer { chars }
    }

    pub fn char_at(&self, row: usize, col: usize) -> (r: ScreenChar)
        requires
            self.cells().len() == BUFFER_CELLS,
            row < BUFFER_HEIGHT,
            col < BUFFER_WIDTH,
        ensures
            r == self.cells()[cell_index(row as int, col as int)],
    {
        self.chars[row * BUFFER_WIDTH + col]
    }

    pub fn write(&mut self, row: usize, col: usize, c: ScreenChar)
        requires
            old(self).cells().len() == BUFFER_CELLS,
            row < BUFFER_HEIGHT,
            col < BUFFER_WIDTH,
        ensures
            final(self).cells() == old(self).cells().update(cell_index(row as int, col as int), c),
    {
        self.chars.set(row * BUFFER_WIDTH + col, c);
    }
}

/// Writes `bytes` in `color` from `row`, `col` rightwards, without wrapping.
pub fn write_bytes(buffer: &mut Buffer, row: usize, col: usize, bytes: &Vec<u8>, color: CharColor)
    requires
        old(buffer).cells().len() == BUFFER_CELLS,
        row < BUFFER_HEIGHT,
        col + bytes@.len() <= BUFFER_WIDTH,
    ensures
        final(buffer).cells().len() == BUFFER_CELLS,
        forall|i: int|
            0 <= i < BUFFER_CELLS ==> #[trigger] final(buffer).cells()[i] == if cell_index(
                row as int,
                col as int,
            ) <= i < cell_index(row as int, col as int) + bytes@.len() {
                ScreenChar {
                    ascii_character: bytes@[i - cell_index(row as int, col as int)],
                    color_code: color,
                }
            } else {
                old(buffer).cells()[i]
            },
{
    let mut k: usize = 0;
    while k < bytes.len()
        invariant
            buffer.cells().len() == BUFFER_CELLS,
            row < BUFFER_HEIGHT,
            col + bytes@.len() <= BUFFER_WIDTH,
            k <= bytes@.len(),
            forall|i: int|
                0 <= i < BUFFER_CELLS ==> #[trigger] buffer.cells()[i] == if cell_index(
                    row as int,
                    col as int,
                ) <= i < cell_index(row as int, col as int) + k {
                    ScreenChar {
                        ascii_character: bytes@[i - cell_index(row as int, col as int)],
                        color_code: color,
                    }
                } else {
                    old(buffer).cells()[i]
                },
        decreases bytes@.len() - k,
    {
        buffer.write(row, col + k, ScreenChar::new(bytes[k], color));
        k = k + 1;
    }
}

/// The colours that a "select graphic rendition" sequence with `params`
/// leaves: 0 resets both, 30-37 and 90-97 set the foreground, 40-47 and
/// 100-107 the background; other parameters are ignored.
pub open spec fn sgr_colors(params: Seq<u16>) -> (Color, Color)
    decreases params.len(),
{
    if params.len() == 0 {
        (default_fg(), default_bg())
    } else {
        let (fg, bg) = sgr_colors(params.drop_last());
        let p = params.last();
        if p == 0 {
            (default_fg(), default_bg())
        } else if (30 <= p <= 37) || (90 <= p <= 97) {
            (ansi_color(p as u8), bg)
        } else if (40 <= p <= 47) || (100 <= p <= 107) {
            (fg, ansi_color((p - 10) as u8))
        } else {
            (fg, bg)
        }
    }
}

/// Writes text to the screen buffer at the writer position, wrapping at
/// the right edge and scrolling at the bottom, and keeps the hardware
/// cursor's position.
pub struct Writer {
    /// Column and row of the next character.
    pub writer_position: (usize, usize),
    /// Column and row of the hardware cursor.
    pub cursor_position: (usize, usize),
    pub color_code: CharColor,
    pub buffer: Buffer,
}

impl Writer {
    pub open spec fn cursor(self) -> (usize, usize) {
        self.cursor_position
    }

    pub open spec fn wf(self) -> bool {
        &&& self.buffer.cells().len() == BUFFER_CELLS
        &&& self.writer_position.0 <= BUFFER_WIDTH
        &&& self.writer_position.1 < BUFFER_HEIGHT
    }

    /// A writer at the top left of a blank screen, light gray on black.
    pub fn new() -> (r: Self)
        ensures
            r.wf(),
            r.writer_position == (0usize, 0usize),
            r.cursor() == (0usize, 0usize),
            r.color_code == CharColor::spec_new(default_fg(), default_bg()),
            forall|i: int| 0 <= i < BUFFER_CELLS ==> #[trigger] r.buffer.cells()[i] == blank(r.color_code),
    {
        let color = CharColor::new(Color::LightGray, Color::Black);
        Writer {
            writer_position: (0, 0),
            cursor_position: (0, 0),
            color_code: color,
            buffer: Buffer::new(color),
        }
    }

    /// Writes one byte: a newline moves to the next line, 0x08 erases the
    /// character before the writer position, any other byte is put at the
    /// writer position, after wrapping to a new line at the right edge.
    pub fn write_byte(&mut self, byte: u8)
        requires
            old(self).wf(),
        ensures
            final(self).wf(),
            final(self).color_code == old(self).color_code,
            byte == 10 ==> new_line_step(*old(self), *final(self)),
            byte == 8 ==> {
                let (col, row) = old(self).writer_position;
                if col > 0 {
                    &&& final(self).writer_position == ((col - 1) as usize, row)
                    &&& final(self).buffer.cells() == old(self).buffer.cells().update(
                        cell_index(row as int, col - 1),
                        blank(old(self).color_code),
                    )
                    &&& final(self).cursor() == old(self).cursor()
                } else {
                    *final(self) == *old(self)
                }
            },
            byte != 10 && byte != 8 ==> exists|w: Writer|
                {
                    &&& #[trigger] wrap_step(*old(self), w)
                    &&& w.writer_position.0 < BUFFER_WIDTH
                    &&& final(self).writer_position == ((w.writer_position.0 + 1) as usize, w.writer_position.1)
                    &&& final(self).cursor() == w.cursor()
                    &&& final(self).buffer.cells() == w.buffer.cells().update(
                        cell_index(w.writer_position.1 as int, w.writer_position.0 as int),
                        ScreenChar { ascii_character: byte, color_code: old(self).color_code },
                    )
                },
    {
        if byte == 10 {
            self.new_line();
        } else if byte == 8 {
            if self.writer_position.0 > 0 {
                let c = ScreenChar { ascii_character: 32, color_code: self.color_code };
                self.writer_position.0 = self.writer_position.0 - 1;
                let (col, row) = self.writer_position;
                self.buffer.write(row, col, c);
            }
        } else {
            if self.writer_position.0 >= BUFFER_WIDTH {
                self.new_line();
            }
            let ghost w = *self;
            let (col, row) = self.writer_position;
            let c = ScreenChar::new(byte, self.color_code);
            self.buffer.write(row, col, c);
            self.writer_position.0 = col + 1;
            assert(wrap_step(*old(self), w));
        }
    }

    /// Moves to the start of the next line, scrolling the screen up when
    /// the writer is on the bottom row; the cursor follows the writer.
    pub fn new_line(&mut self)
        requires
            old(self).wf(),
        ensures
            new_line_step(*old(self), *final(self)),
    {
        if self.writer_position.1 < BUFFER_HEIGHT - 1 {
            self.writer_position.1 = self.writer_position.1 + 1;
        } else {
            let ghost before = self.buffer.cells();
            let mut i: usize = BUFFER_WIDTH;
            while i < BUFFER_CELLS
                invariant
                    self.wf(),
                    self.writer_position == old(self).writer_position,
                    self.color_code == old(self).color_code,
                    self.cursor_position == old(self).cursor_position,
                    before == old(self).buffer.cells(),
                    BUFFER_WIDTH <= i <= BUFFER_CELLS,
                    forall|j: int|
                        0 <= j < i - BUFFER_WIDTH ==> #[trigger] self.buffer.cells()[j] == before[j
                            + BUFFER_WIDTH],
                    forall|j: int|
                        i - BUFFER_WIDTH <= j < BUFFER_CELLS ==> #[trigger] self.buffer.cells()[j]
                            == before[j],
                decreases BUFFER_CELLS - i,
            {
                let c = self.buffer.chars[i];
                self.buffer.chars.set(i - BUFFER_WIDTH, c);
                i = i + 1;
            }
            let row = self.writer_position.1;
            self.clear_row(row);
            assert(self.buffer.cells() =~= scrolled(before, self.color_code));
        }
        self.writer_position.0 = 0;
        self.cursor_at_writer();
    }

    /// Fills `row` with spaces in the current colour.
    pub fn clear_row(&mut self, row: usize)
        requires
            old(self).wf(),
            row < BUFFER_HEIGHT,
        ensures
            final(self).wf(),
            final(self).writer_position == old(self).writer_position,
            final(self).cursor() == old(self).cursor(),
            final(self).color_code == old(self).color_code,
            forall|i: int|
                0 <= i < BUFFER_CELLS ==> #[trigger] final(self).buffer.cells()[i] == if cell_index(
                    row as int,
                    0,
                ) <= i < cell_index(row as int, BUFFER_WIDTH as int) {
                    blank(old(self).color_code)
                } else {
                    old(self).buffer.cells()[i]
                },
    {
        let blank = ScreenChar { ascii_character: 32, color_code: self.color_code };
        let mut col: usize = 0;
        while col < BUFFER_WIDTH
            invariant
                self.wf(),
                self.writer_position == old(self).writer_position,
                self.cursor_position == old(self).cursor_position,
                self.color_code == old(self).color_code,
                blank == (ScreenChar { ascii_character: 32, color_code: self.color_code }),
                row < BUFFER_HEIGHT,
                col <= BUFFER_WIDTH,
                forall|i: int|
                    0 <= i < BUFFER_CELLS ==> #[trigger] self.buffer.cells()[i] == if cell_index(
                        row as int,
                        0,
                    ) <= i < cell_index(row as int, col as int) {
                        blank
                    } else {
                        old(self).buffer.cells()[i]
                    },
            decreases BUFFER_WIDTH - col,
        {
            self.buffer.write(row, col, blank);
            col = col + 1;
        }
    }

    /// Fills the whole screen with spaces in the current colour.
    pub fn clear_screen(&mut self)
        requires
            old(self).wf(),
        ensures
            final(self).wf(),
            final(self).writer_position == old(self).writer_position,
            final(self).cursor() == old(self).cursor(),
            final(self).color_code == old(self).color_code,
            forall|i: int|
                0 <= i < BUFFER_CELLS ==> #[trigger] final(self).buffer.cells()[i] == blank(
                    old(self).color_code,
                ),
    {
        let mut row: usize = 0;
        while row < BUFFER_HEIGHT
            invariant
                self.wf(),
                self.writer_position == old(self).writer_position,
                self.cursor_position == old(self).cursor_position,
                self.color_code == old(self).color_code,
                row <= BUFFER_HEIGHT,
                forall|i: int|
                    0 <= i < cell_index(row as int, 0) ==> #[trigger] self.buffer.cells()[i]
                        == blank(old(self).color_code),
            decreases BUFFER_HEIGHT - row,
        {
            self.clear_row(row);
            row = row + 1;
        }
    }

    pub fn set_color(&mut self, color: CharColor)
        ensures
            *final(self) == (Writer { color_code: color, ..*old(self) }),
    {
        self.color_code = color;
    }

    pub fn set_cursor_position(&mut self, x: usize, y: usize)
        ensures
            final(self).cursor() == (x, y),
            final(self).writer_position == old(self).writer_position,
            final(self).color_code == old(self).color_code,
            final(self).buffer == old(self).buffer,
    {
        self.cursor_position = (x, y);
    }

    /// Moves the cursor to the writer position.
    pub fn cursor_at_writer(&mut self)
        ensures
            final(self).cursor() == old(self).writer_position,
            final(self).writer_position == old(self).writer_position,
            final(self).color_code == old(self).color_code,
            final(self).buffer == old(self).buffer,
    {
        let (x, y) = self.writer_position;
        self.set_cursor_position(x, y);
    }

    /// The cursor's cell index as the display controller takes it, in 16
    /// bits.
    pub fn cursor_offset(&self) -> (r: u16)
        ensures
            r == (self.cursor().1 as nat * BUFFER_WIDTH as nat + self.cursor().0 as nat) % 65536,
    {
        let (x, y) = self.cursor_position;
        let yy = y as u128;
        assert(yy * 80 <= 0xffff_ffff_ffff_ffffu128 * 80) by (nonlinear_arith)
            requires
                yy <= 0xffff_ffff_ffff_ffffu128,
        {}
        let pos: u128 = yy * 80 + x as u128;
        (pos % 65536) as u16
    }

    /// Applies a control sequence that ends in `c` with the first value of
    /// each of its parameters; only "select graphic rendition" (`m`) acts.
    pub fn csi_dispatch(&mut self, params: &Vec<u16>, c: char)
        ensures
            c == 'm' ==> ({
                let (fg, bg) = sgr_colors(params@);
                *final(self) == (Writer { color_code: CharColor::spec_new(fg, bg), ..*old(self) })
            }),
            c != 'm' ==> *final(self) == *old(self),
    {
        if c == 'm' {
            let mut fg = Color::LightGray;
            let mut bg = Color::Black;
            let mut k: usize = 0;
            while k < params.len()
                invariant
                    k <= params@.len(),
                    (fg, bg) == sgr_colors(params@.take(k as int)),
                decreases params@.len() - k,
            {
                let p = params[k];
                assert(params@.take(k as int + 1).drop_last() == params@.take(k as int));
                if p == 0 {
                    fg = Color::LightGray;
                    bg = Color::Black;
                } else if (30 <= p && p <= 37) || (90 <= p && p <= 97) {
                    fg = Color::from_ansi(p as u8);
                } else if (40 <= p && p <= 47) || (100 <= p && p <= 107) {
                    bg = Color::from_ansi((p - 10) as u8);
                }
                k = k + 1;
            }
            assert(params@.take(params@.len() as int) == params@);
            self.set_color(CharColor::new(fg, bg));
        }
    }
}

/// Before a character is put: a new line when the writer is past the
/// right edge, else nothing.
pub open spec fn wrap_step(before: Writer, after: Writer) -> bool {
    if before.writer_position.0 >= BUFFER_WIDTH {
        new_line_step(before, after)
    } else {
        after == before
    }
}

/// What `new_line` does: the writer moves to column 0 of the next row, or
/// stays on the bottom row while the screen scrolls up; the cursor follows.
pub open spec fn new_line_step(before: Writer, after: Writer) -> bool {
    let row = before.writer_position.1;
    &&& after.wf()
    &&& after.color_code == before.color_code
    &&& after.writer_position == (0usize, if row < BUFFER_HEIGHT - 1 {
        (row + 1) as usize
    } else {
        row
    })
    &&& after.cursor() == after.writer_position
    &&& after.buffer.cells() == if row < BUFFER_HEIGHT - 1 {
        before.buffer.cells()
    } else {
        scrolled(before.buffer.cells(), before.color_code)
    }
}

/// A font in the DOS F16 format: 256 glyphs of 16 rows of one byte.
pub struct Font {
    pub size: u16,
    pub height: u8,
    pub data: Vec<u8>,
}

impl Font {
    pub fn from_dos_f16(data: Vec<u8>) -> (r: Self)
        ensures
            r.size == 256,
            r.height == 16,
            r.data@ == data@,
    {
        Font { size: 256, height: 16, data }
    }
}

} // verus!
