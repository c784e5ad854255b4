//! The 80x25 text screen as a grid of cells: where text lands, how the
//! screen scrolls, and which colors it is drawn in. Copying the grid to the
//! display memory is left to the caller.
use vstd::prelude::*;
use vstd::string::StringSliceAdditionalSpecFns;

verus! {

/// Columns of the text screen.
pub const WIDTH: usize = 80;

/// Rows of the text screen.
pub const HEIGHT: usize = 25;

/// Number of cells on the screen.
pub const CELLS: usize = 2000;

/// The sixteen text-mode colors.
#[derive(Debug, Clone, Copy, PartialEq, Eq, Structural)]
pub enum Color {
    Black,
    Blue,
    Green,
    Cyan,
    Red,
    Magenta,
    Brown,
    LightGray,
    DarkGray,
    LightBlue,
    LightGreen,
    LightCyan,
    LightRed,
    Pink,
    Yellow,
    White,
}

/// The hardware number of each color.
pub open spec fn color_index(c: Color) -> u8 {
    match c {
        Color::Black => 0,
        Color::Blue => 1,
        Color::Green => 2,
        Color::Cyan => 3,
        Color::Red => 4,
        Color::Magenta => 5,
        Color::Brown => 6,
        Color::LightGray => 7,
        Color::DarkGray => 8,
        Color::LightBlue => 9,
        Color::LightGreen => 10,
        Color::LightCyan => 11,
        Color::LightRed => 12,
        Color::Pink => 13,
        Color::Yellow => 14,
        Color::White => 15,
    }
}

/// The color with hardware number `n`; numbers from 16 up name none and
/// give black here.
pub open spec fn color_of(n: u8) -> Color {
    if n == 1 { Color::Blue }
    else if n == 2 { Color::Green }
    else if n == 3 { Color::Cyan }
    else if n == 4 { Color::Red }
    else if n == 5 { Color::Magenta }
    else if n == 6 { Color::Brown }
    else if n == 7 { Color::LightGray }
    else if n == 8 { Color::DarkGray }
    else if n == 9 { Color::LightBlue }
    else if n == 10 { Color::LightGreen }
    else if n == 11 { Color::LightCyan }
    else if n == 12 { Color::LightRed }
    else if n == 13 { Color::Pink }
    else if n == 14 { Color::Yellow }
    else if n == 15 { Color::White }
    else { Color::Black }
}

impl Color {
    /// The hardware number of this color, 0 to 15.
    pub fn index(self) -> (r: u8)
        ensures
            r == color_index(self),
            r < 16,
    {
        match self {
            Color::Black => 0,
            Color::Blue => 1,
            Color::Green => 2,
            Color::Cyan => 3,
            Color::Red => 4,
            Color::Magenta => 5,
            Color::Brown => 6,
            Color::LightGray => 7,
            Color::DarkGray => 8,
            Color::LightBlue => 9,
            Color::LightGreen => 10,
            Color::LightCyan => 11,
            Color::LightRed => 12,
            Color::Pink => 13,
            Color::Yellow => 14,
            Color::White => 15,
        }
    }

    /// The color with hardware number `n`; `None` when `n` is not below 16.
    pub fn from_index(n: u8) -> (r: Option<Color>)
        ensures
            r == (if n < 16 {
                Some(color_of(n))
            } else {
                None
            }),
            r matches Some(c) ==> color_index(c) == n,
    {
        match n {
            0 => Some(Color::Black),
            1 => Some(Color::Blue),
            2 => Some(Color::Green),
            3 => Some(Color::Cyan),
            4 => Some(Color::Red),
            5 => Some(Color::Magenta),
            6 => Some(Color::Brown),
            7 => Some(Color::LightGray),
            8 => Some(Color::DarkGray),
            9 => Some(Color::LightBlue),
            10 => Some(Color::LightGreen),
            11 => Some(Color::LightCyan),
            12 => Some(Color::LightRed),
            13 => Some(Color::Pink),
            14 => Some(Color::Yellow),
            15 => Some(Color::White),
            _ => None,
        }
    }
}

/// A foreground and background color packed into one attribute byte.
#[derive(Debug, Clone, Copy, PartialEq, Eq, Structural)]
pub struct ColorCode(pub u8);

/// The attribute byte: background in the high nibble, foreground in the low.
pub open spec fn color_code(foreground: Color, background: Color) -> u8 {
    (color_index(background) * 16 + color_index(foreground)) as u8
}

impl ColorCode {
    pub fn new(foreground: Color, background: Color) -> (r: ColorCode)
        ensures
            r.0 == color_code(foreground, background),
    {
        ColorCode(background.index() * 16 + foreground.index())
    }
}

/// One cell of the screen: a byte of text and its attribute byte.
#[derive(Debug, Clone, Copy, PartialEq, Eq, Structural)]
pub struct ScreenChar {
    pub ascii: u8,
    pub color: u8,
}

/// What a writer shows: the column of the cursor on the bottom row, the
/// current attribute byte, and every cell, row by row.
pub struct ScreenView {
    pub col: nat,
    pub color: u8,
    pub cells: Seq<ScreenChar>,
}

/// An empty cell in the given attribute.
pub open spec fn blank(color: u8) -> ScreenChar {
    ScreenChar { ascii: 32, color }
}

/// Everything moves up a row, the bottom row is cleared, and the cursor
/// returns to the left edge.
pub open spec fn scroll(v: ScreenView) -> ScreenView {
    ScreenView {
        col: 0,
        color: v.color,
        cells: Seq::new(
            2000,
            |i: int|
                if i < 1920 {
                    v.cells[i + 80]
                } else {
                    blank(v.color)
                },
        ),
    }
}

/// Writing one byte: a newline scrolls; any other byte is placed at the
/// cursor on the bottom row, after scrolling first when the row is full.
pub open spec fn put_byte(v: ScreenView, b: u8) -> ScreenView {
    if b == 10 {
        scroll(v)
    } else {
        let w = if v.col >= 80 {
            scroll(v)
        } else {
            v
        };
        ScreenView {
            col: w.col + 1,
            color: w.color,
            cells: w.cells.update(1920 + w.col as int, ScreenChar { ascii: b, color: w.color }),
        }
    }
}

/// The byte that stands on screen for `b`: printable ASCII and newline as
/// they are, anything else as a filled square.
pub open spec fn shown(b: u8) -> u8 {
    if (0x20 <= b && b <= 0x7e) || b == 10 {
        b
    } else {
        0xfe
    }
}

/// Writing a sequence of bytes, each as it is shown.
pub open spec fn put_bytes(v: ScreenView, bs: Seq<u8>) -> ScreenView
    decreases bs.len(),
{
    if bs.len() == 0 {
        v
    } else {
        put_byte(put_bytes(v, bs.drop_last()), shown(bs.last()))
    }
}

/// The text screen.
pub struct Writer {
    col: usize,
    color: ColorCode,
    cells: [ScreenChar; CELLS],
}

impl View for Writer {
    type V = ScreenView;

    closed spec fn view(&self) -> ScreenView {
        ScreenView { col: self.col as nat, color: self.color.0, cells: self.cells@ }
    }
}

impl Writer {
    pub closed spec fn wf(&self) -> bool {
        &&& self.cells@.len() == 2000
        &&& self.col <= 80
    }

    /// A blank screen drawn in light gray on black, cursor at the left.
    pub fn new() -> (w: Writer)
        ensures
            w.wf(),
            w@.col == 0,
            w@.color == 0x07,
            w@.cells == Seq::new(2000, |i: int| blank(0x07)),
    {
        let cells = [ScreenChar { ascii: 0x20, color: 0x07 }; CELLS];
        let w = Writer { col: 0, color: ColorCode(0x07), cells };
        assert(w@.cells =~= Seq::new(2000, |i: int| blank(0x07)));
        w
    }

    /// The cell at `row`, `col`.
    pub fn cell(&self, row: usize, col: usize) -> (r: ScreenChar)
        requires
            self.wf(),
            row < HEIGHT,
            col < WIDTH,
        ensures
            r == self@.cells[row * 80 + col],
    {
        self.cells[row * WIDTH + col]
    }

    /// The cursor's column on the bottom row.
    pub fn column(&self) -> (r: usize)
        ensures
            r == self@.col,
    {
        self.col
    }

    /// The attribute byte new text is drawn in.
    pub fn color(&self) -> (r: ColorCode)
        ensures
            r.0 == self@.color,
    {
        self.color
    }

    pub fn set_colors(&mut self, foreground: Color, background: Color)
        ensures
            final(self)@.color == color_code(foreground, background),
            final(self)@.col == old(self)@.col,
            final(self)@.cells == old(self)@.cells,
            final(self).wf() == old(self).wf(),
    {
        self.color = ColorCode::new(foreground, background);
    }

    /// Blanks one row in the current attribute.
    pub fn clear_row(&mut self, row: usize)
        requires
            old(self).wf(),
            row < HEIGHT,
        ensures
            final(self).wf(),
            final(self)@.col == old(self)@.col,
            final(self)@.color == old(self)@.color,
            final(self)@.cells == Seq::new(
                2000,
                |i: int|
                    if row * 80 <= i < row * 80 + 80 {
                        blank(old(self)@.color)
                    } else {
                        old(self)@.cells[i]
                    },
            ),
    {
        let blank = ScreenChar { ascii: 0x20, color: self.color.0 };
        let base = row * WIDTH;
        let mut c: usize = 0;
        while c < WIDTH
            invariant
                self.wf(),
                self.col == old(self).col,
                self.color == old(self).color,
                base == row * 80,
                row < 25,
                blank == crate::vga::blank(self.color.0),
                0 <= c <= 80,
                forall|i: int|
                    0 <= i < 2000 ==> #[trigger] self.cells@[i] == if base <= i < base + c {
                        blank
                    } else {
                        old(self).cells@[i]
                    },
            decreases WIDTH - c,
        {
            self.cells[base + c] = blank;
            c += 1;
        }
        assert(self@.cells =~= Seq::new(
            2000,
            |i: int|
                if row * 80 <= i < row * 80 + 80 {
                    crate::vga::blank(old(self)@.color)
                } else {
                    old(self)@.cells[i]
                },
        ));
    }

    /// Moves every row up by one and starts a blank bottom row.
    fn newline(&mut self)
        requires
            old(self).wf(),
        ensures
            final(self).wf(),
            final(self)@ == scroll(old(self)@),
    {
        let mut i: usize = 0;
        while i < CELLS - WIDTH
            invariant
                self.wf(),
                self.col == old(self).col,
                self.color == old(self).color,
                0 <= i <= 1920,
                forall|k: int| 0 <= k < i ==> #[trigger] self.cells@[k] == old(self).cells@[k + 80],
                forall|k: int| i <= k < 2000 ==> #[trigger] self.cells@[k] == old(self).cells@[k],
            decreases CELLS - WIDTH - i,
        {
            let c = self.cells[i + WIDTH];
            self.cells[i] = c;
            i += 1;
        }
        self.clear_row(HEIGHT - 1);
        self.col = 0;
        assert(self@.cells =~= scroll(old(self)@).cells);
    }

    /// Writes one byte at the cursor.
    fn write_byte(&mut self, byte: u8)
        requires
            old(self).wf(),
        ensures
            final(self).wf(),
            final(self)@ == put_byte(old(self)@, byte),
    {
        if byte == 0x0a {
            self.newline();
        } else {
            if self.col >= WIDTH {
                self.newline();
            }
            let row = HEIGHT - 1;
            let color = self.color.0;
            self.cells[row * WIDTH + self.col] = ScreenChar { ascii: byte, color };
            self.col += 1;
            assert(self@.cells =~= put_byte(old(self)@, byte).cells);
        }
    }

    /// Writes the bytes of `s`; bytes that are neither printable ASCII nor a
    /// newline appear as a filled square.
    pub fn write_str(&mut self, s: &str)
        requires
            old(self).wf(),
        ensures
            final(self).wf(),
            final(self)@ == put_bytes(old(self)@, s.spec_bytes()),
    {
        let bytes = s.as_bytes();
        let mut i: usize = 0;
        while i < bytes.len()
            invariant
                self.wf(),
                bytes@ == s.spec_bytes(),
                0 <= i <= bytes@.len(),
                self@ == put_bytes(old(self)@, bytes@.take(i as int)),
            decreases bytes.len() - i,
        {
            let b = bytes[i];
            if (0x20 <= b && b <= 0x7e) || b == 0x0a {
                self.write_byte(b);
            } else {
                self.write_byte(0xfe);
            }
            assert(bytes@.take(i + 1).drop_last() =~= bytes@.take(i as int));
            i += 1;
        }
        assert(bytes@.take(i as int) =~= bytes@);
    }
}

/// Resets the screen: light gray on black, cursor at the left, every row
/// blank.
pub fn init(writer: &mut Writer)
    requires
        old(writer).wf(),
    ensures
        final(writer).wf(),
        final(writer)@.col == 0,
        final(writer)@.color == 0x07,
        final(writer)@.cells == Seq::new(2000, |i: int| blank(0x07)),
{
    writer.set_colors(Color::LightGray, Color::Black);
    writer.col = 0;
    let mut r: usize = 0;
    while r < HEIGHT
        invariant
            writer.wf(),
            writer.col == 0,
            writer.color.0 == 0x07,
            0 <= r <= 25,
            forall|i: int| 0 <= i < r * 80 ==> #[trigger] writer.cells@[i] == blank(0x07),
        decreases HEIGHT - r,
    {
        writer.clear_row(r);
        r += 1;
    }
    assert(writer@.cells =~= Seq::new(2000, |i: int| blank(0x07)));
}

/// Changes the colors new text is drawn in.
pub fn set_colors(writer: &mut Writer, foreground: Color, background: Color)
    ensures
        final(writer)@.color == color_code(foreground, background),
        final(writer)@.col == old(writer)@.col,
        final(writer)@.cells == old(writer)@.cells,
        final(writer).wf() == old(writer).wf(),
{
    writer.set_colors(foreground, background);
}

} // verus!
