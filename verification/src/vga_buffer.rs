pub mod cursor;

use vstd::prelude::*;

verus! {

use vstd::pervasive::VecAdditionalExecFns;
use vstd::string::StrSliceExecFns;
use vstd::string::StringExecFns;
use vstd::string::StringSliceAdditionalSpecFns;

/// Number of text rows in the display grid.
pub const BUFFER_HEIGHT: usize = 25;

/// Number of text columns in the display grid.
pub const BUFFER_WIDTH: usize = 80;

/// The sixteen colors of the text-mode palette.
#[derive(Debug, Clone, Copy, PartialEq, Eq, Structural)]
pub enum Color {
    Black,
    Blue,
    Green,
    Cyan,
    Red,
    Magenta,
    Brown,
    LightGray,
    DarkGray,
    LightBlue,
    LightGreen,
    LightCyan,
    LightRed,
    Pink,
    Yellow,
    White,
}

impl Color {
    /// The 4-bit palette index of this color.
    pub open spec fn spec_code(self) -> u8 {
        match self {
            Color::Black => 0,
            Color::Blue => 1,
            Color::Green => 2,
            Color::Cyan => 3,
            Color::Red => 4,
            Color::Magenta => 5,
            Color::Brown => 6,
            Color::LightGray => 7,
            Color::DarkGray => 8,
            Color::LightBlue => 9,
            Color::LightGreen => 10,
            Color::LightCyan => 11,
            Color::LightRed => 12,
            Color::Pink => 13,
            Color::Yellow => 14,
            Color::White => 15,
        }
    }

    pub fn code(self) -> (c: u8)
        ensures
            c == self.spec_code(),
            c < 16,
    {
        match self {
            Color::Black => 0,
            Color::Blue => 1,
            Color::Green => 2,
            Color::Cyan => 3,
            Color::Red => 4,
            Color::Magenta => 5,
            Color::Brown => 6,
            Color::LightGray => 7,
            Color::DarkGray => 8,
            Color::LightBlue => 9,
            Color::LightGreen => 10,
            Color::LightCyan => 11,
            Color::LightRed => 12,
            Color::Pink => 13,
            Color::Yellow => 14,
            Color::White => 15,
        }
    }
}

/// One attribute byte: a 4-bit foreground index in the low nibble and a
/// 4-bit background index in the high nibble.
#[derive(Debug, Clone, Copy, PartialEq, Eq, Structural)]
pub struct ColorCode {
    pub code: u8,
}

impl ColorCode {
    pub fn new(foreground: Color, background: Color) -> (c: ColorCode)
        ensures
            c.code == background.spec_code() * 16 + foreground.spec_code(),
    {
        ColorCode { code: background.code() * 16 + foreground.code() }
    }
}

/// One cell of the grid: a glyph and the attribute it is drawn with.
#[derive(Debug, Clone, Copy, PartialEq, Eq, Structural)]
pub struct ScreenChar {
    pub ascii_character: u8,
    pub color_code: ColorCode,
}

/// The mathematical state of the display: the flat row-major grid of cells,
/// the cursor position, and the attribute applied to subsequent writes.
#[verifier::ext_equal]
pub struct BufferView {
    pub grid: Seq<ScreenChar>,
    pub row: int,
    pub column: int,
    pub color: ColorCode,
}

/// The number of cells in the grid.
pub open spec fn grid_size() -> nat {
    (BUFFER_HEIGHT * BUFFER_WIDTH) as nat
}

/// The linear index of the cell at `(row, column)`.
pub open spec fn idx(row: int, column: int) -> int {
    row * (BUFFER_WIDTH as int) + column
}

/// A blank cell: a space glyph drawn with the given attribute.
pub open spec fn blank_char(color: ColorCode) -> ScreenChar {
    ScreenChar { ascii_character: 32, color_code: color }
}

impl BufferView {
    /// Well-formedness: the grid has exactly one cell per position and the
    /// cursor is inside the grid, allowing the transient `column == C` state.
    pub open spec fn wf(self) -> bool {
        &&& self.grid.len() == (BUFFER_HEIGHT as int) * (BUFFER_WIDTH as int)
        &&& 0 <= self.row < (BUFFER_HEIGHT as int)
        &&& 0 <= self.column <= (BUFFER_WIDTH as int)
    }
}

/// Places `byte` at the cursor with the active attribute and advances the
/// column by one. Meaningful only when `column < C`.
pub open spec fn spec_put(v: BufferView, byte: u8) -> BufferView {
    BufferView {
        grid: v.grid.update(idx(v.row, v.column), ScreenChar { ascii_character: byte, color_code: v.color }),
        column: v.column + 1,
        ..v
    }
}

/// The scroll-or-advance step: on the last row, every row moves up by one
/// (row 0 is discarded) and the last row becomes blank; otherwise the row
/// advances. Either way the column returns to the line start.
pub open spec fn spec_line_feed(v: BufferView) -> BufferView {
    if v.row >= (BUFFER_HEIGHT as int) - 1 {
        BufferView {
            grid: Seq::new(
                grid_size(),
                |i: int| if i < ((BUFFER_HEIGHT as int) - 1) * (BUFFER_WIDTH as int) {
                    v.grid[i + (BUFFER_WIDTH as int)]
                } else {
                    blank_char(v.color)
                },
            ),
            row: (BUFFER_HEIGHT as int) - 1,
            column: 0,
            color: v.color,
        }
    } else {
        BufferView { row: v.row + 1, column: 0, ..v }
    }
}

/// A new line: scroll-or-advance, then re-emit the three-byte prompt marker
/// so every line begins with one; the cursor ends just right of the prompt.
pub open spec fn spec_new_line(v: BufferView) -> BufferView {
    spec_put(spec_put(spec_put(spec_line_feed(v), 32), 36), 32)
}

/// The glyph actually stored for a written byte: printable bytes stand for
/// themselves, anything else is replaced by the replacement glyph 0xFE.
pub open spec fn glyph_of(byte: u8) -> u8 {
    if 0x20 <= byte <= 0x7e {
        byte
    } else {
        0xfe
    }
}

/// Writing one byte: a newline byte triggers the new-line step; otherwise,
/// wrapping first if the column is past the last cell, the byte's glyph is
/// placed at the cursor.
pub open spec fn spec_write_byte(v: BufferView, byte: u8) -> BufferView {
    if byte == 10 {
        spec_new_line(v)
    } else if v.column == (BUFFER_WIDTH as int) {
        spec_put(spec_new_line(v), glyph_of(byte))
    } else {
        spec_put(v, glyph_of(byte))
    }
}

/// Writing a byte sequence is writing each byte in order.
pub open spec fn spec_write_bytes(v: BufferView, s: Seq<u8>) -> BufferView
    decreases s.len(),
{
    if s.len() == 0 {
        v
    } else {
        spec_write_bytes(spec_write_byte(v, s[0]), s.drop_first())
    }
}

/// Blanking one row; the cursor returns to that row's start.
pub open spec fn spec_clear_row(v: BufferView, row: int) -> BufferView {
    BufferView {
        grid: Seq::new(
            grid_size(),
            |i: int| if idx(row, 0) <= i < idx(row + 1, 0) {
                blank_char(v.color)
            } else {
                v.grid[i]
            },
        ),
        row: row,
        column: 0,
        color: v.color,
    }
}

/// Clearing the display: every cell blank, the cursor at the origin, and the
/// prompt re-emitted.
pub open spec fn spec_clear(v: BufferView) -> BufferView {
    spec_put(spec_put(spec_put(
        BufferView {
            grid: Seq::new(
                grid_size(),
                |i: int| blank_char(v.color),
            ),
            row: 0,
            column: 0,
            color: v.color,
        },
        32), 36), 32)
}

/// Deleting one byte: strictly right of the prompt marker the cursor steps
/// left and that cell is blanked; at or left of it nothing happens, so the
/// prompt itself can never be erased.
pub open spec fn spec_delete(v: BufferView) -> BufferView {
    if v.column > 3 {
        BufferView {
            grid: v.grid.update(idx(v.row, v.column - 1), blank_char(v.color)),
            column: v.column - 1,
            ..v
        }
    } else {
        v
    }
}

/// The display grid and the state needed to write to it.
pub struct Buffer {
    pub cursor: cursor::Cursor,
    chars: Vec<ScreenChar>,
    color_code: ColorCode,
}

impl View for Buffer {
    type V = BufferView;

    closed spec fn view(&self) -> BufferView {
        BufferView {
            grid: self.chars@,
            row: self.cursor.row as int,
            column: self.cursor.column as int,
            color: self.color_code,
        }
    }
}

/// The operations every text display of this design offers.
pub trait VGABuffer {
    /// The mathematical state of the display.
    spec fn buf(&self) -> BufferView;

    /// The display invariant.
    spec fn inv(&self) -> bool;

    /// Blanks every cell, resets the cursor to the origin and emits the prompt.
    fn clear(&mut self)
        requires
            old(self).inv(),
        ensures
            final(self).inv(),
            final(self).buf() == spec_clear(old(self).buf()),
    ;

    /// Blanks one row and puts the cursor at that row's start.
    fn clear_row(&mut self, row: usize)
        requires
            old(self).inv(),
            row < BUFFER_HEIGHT,
        ensures
            final(self).inv(),
            final(self).buf() == spec_clear_row(old(self).buf(), row as int),
    ;

    /// Writes one byte at the cursor with the active attribute.
    fn write_byte(&mut self, byte: u8)
        requires
            old(self).inv(),
        ensures
            final(self).inv(),
            final(self).buf() == spec_write_byte(old(self).buf(), byte),
    ;

    /// Writes every byte of `s` in order, wrapping lines as needed.
    fn write_string(&mut self, s: &str)
        requires
            old(self).inv(),
        ensures
            final(self).inv(),
            final(self).buf() == spec_write_bytes(old(self).buf(), s.spec_bytes()),
    ;

    /// Moves to a fresh line, scrolling when the grid is full.
    fn new_line(&mut self)
        requires
            old(self).inv(),
        ensures
            final(self).inv(),
            final(self).buf() == spec_new_line(old(self).buf()),
    ;

    /// Changes the attribute applied to subsequent writes; existing cells
    /// keep their attribute.
    fn set_color(&mut self, color_code: ColorCode)
        requires
            old(self).inv(),
        ensures
            final(self).inv(),
            final(self).buf() == (BufferView { color: color_code, ..old(self).buf() }),
    ;

    /// The cursor position as `(row, column)`.
    fn get_cursor(&self) -> (pos: (usize, usize))
        requires
            self.inv(),
        ensures
            pos.0 == self.buf().row,
            pos.1 == self.buf().column,
    ;

    /// Moves the cursor.
    fn set_cursor(&mut self, row: usize, column: usize)
        requires
            old(self).inv(),
            row < BUFFER_HEIGHT,
            column <= BUFFER_WIDTH,
        ensures
            final(self).inv(),
            final(self).buf() == (BufferView { row: row as int, column: column as int, ..old(self).buf() }),
    ;
}

impl Buffer {
    /// A fresh display: every cell blank under the default attribute,
    /// cursor at the origin.
    pub fn new() -> (b: Buffer)
        ensures
            b@.wf(),
            b@.row == 0,
            b@.column == 0,
            b@.color.code == 10,
            b@.grid == Seq::new(grid_size(), |i: int| blank_char(b@.color)),
    {
        let color_code = ColorCode::new(Color::LightGreen, Color::Black);
        let chars: Vec<ScreenChar> = vec![ScreenChar { ascii_character: 32, color_code }; BUFFER_HEIGHT * BUFFER_WIDTH];
        let b = Buffer { cursor: cursor::Cursor { row: 0, column: 0 }, chars, color_code };
        proof {
            assert(b@.grid =~= Seq::new(grid_size(), |i: int| blank_char(b@.color)));
        }
        b
    }

    /// The glyph stored at `(row, column)`.
    pub fn char_at(&self, row: usize, column: usize) -> (byte: u8)
        requires
            self@.wf(),
            row < BUFFER_HEIGHT,
            column < BUFFER_WIDTH,
        ensures
            byte == self@.grid[idx(row as int, column as int)].ascii_character,
    {
        self.chars[row * BUFFER_WIDTH + column].ascii_character
    }

    /// Writes every byte of `bytes` in order, as `write_byte` would.
    pub fn write_bytes(&mut self, bytes: &Vec<u8>)
        requires
            old(self)@.wf(),
        ensures
            final(self)@.wf(),
            final(self)@ == spec_write_bytes(old(self)@, bytes@),
    {
        let n = bytes.len();
        let mut k: usize = 0;
        while k < n
            invariant
                self@.wf(),
                k <= n,
                n == bytes@.len(),
                self@ == spec_write_bytes(old(self)@, bytes@.take(k as int)),
            decreases n - k,
        {
            let b = bytes[k];
            self.write_byte(b);
            proof {
                lemma_write_bytes_snoc(old(self)@, bytes@.take(k as int), b);
                assert(bytes@.take(k as int).push(b) =~= bytes@.take(k as int + 1));
            }
            k = k + 1;
        }
        proof {
            assert(bytes@.take(n as int) =~= bytes@);
        }
    }

    /// Places one glyph at the cursor and advances the column.
    fn put_char(&mut self, byte: u8)
        requires
            old(self)@.wf(),
            old(self)@.column < BUFFER_WIDTH,
        ensures
            final(self)@.wf(),
            final(self)@ == spec_put(old(self)@, byte),
    {
        let i = self.cursor.row * BUFFER_WIDTH + self.cursor.column;
        self.chars.set(i, ScreenChar { ascii_character: byte, color_code: self.color_code });
        self.cursor.column = self.cursor.column + 1;
        proof {
            assert(self@ =~= spec_put(old(self)@, byte));
        }
    }
}

impl Buffer {
    /// Steps the cursor one cell left and blanks that cell, unless the
    /// cursor is already at (or left of) the prompt boundary.
    pub fn delete_byte(&mut self)
        requires
            old(self)@.wf(),
        ensures
            final(self)@.wf(),
            final(self)@ == spec_delete(old(self)@),
    {
        if self.cursor.column > 3 {
            let c = self.cursor.column - 1;
            self.chars.set(
                self.cursor.row * BUFFER_WIDTH + c,
                ScreenChar { ascii_character: 32, color_code: self.color_code },
            );
            self.cursor.column = c;
            proof {
                assert(self@ =~= spec_delete(old(self)@));
            }
        }
    }
}

/// `s` without its leading spaces.
pub open spec fn drop_spaces(s: Seq<u8>) -> Seq<u8>
    decreases s.len(),
{
    if s.len() > 0 && s[0] == 32 {
        drop_spaces(s.drop_first())
    } else {
        s
    }
}

/// The longest space-free prefix of `s`.
pub open spec fn take_until_space(s: Seq<u8>) -> Seq<u8>
    decreases s.len(),
{
    if s.len() == 0 || s[0] == 32 {
        Seq::empty()
    } else {
        seq![s[0]] + take_until_space(s.drop_first())
    }
}

/// The first space-separated token of `s`, empty if there is none.
pub open spec fn spec_first_token(s: Seq<u8>) -> Seq<u8> {
    take_until_space(drop_spaces(s))
}

pub proof fn lemma_take_until_space_len(s: Seq<u8>)
    ensures
        take_until_space(s).len() <= s.len(),
    decreases s.len(),
{
    if !(s.len() == 0 || s[0] == 32) {
        lemma_take_until_space_len(s.drop_first());
    }
}

pub proof fn lemma_drop_spaces_len(s: Seq<u8>)
    ensures
        drop_spaces(s).len() <= s.len(),
    decreases s.len(),
{
    if s.len() > 0 && s[0] == 32 {
        lemma_drop_spaces_len(s.drop_first());
    }
}

/// The bytes of the command name the display's own dispatch recognises.
pub open spec fn echo_token() -> Seq<u8> {
    seq![101u8, 99u8, 104u8, 111u8]
}

/// The text written when the display's own dispatch recognises nothing.
pub open spec fn incorrect_command_text() -> Seq<u8> {
    "Incorrect Command".spec_bytes()
}

/// The display's own single-command dispatch: when the line's first token is
/// `echo`, everything past the first four bytes is echoed on a fresh line;
/// otherwise a fixed complaint is written at the cursor.
pub open spec fn spec_command(v: BufferView, s: Seq<u8>) -> BufferView {
    if spec_first_token(s) == echo_token() {
        spec_new_line(spec_write_bytes(spec_new_line(v), s.skip(4)))
    } else {
        spec_write_bytes(v, incorrect_command_text())
    }
}

/// The glyphs of the current row right of the prompt text.
pub open spec fn spec_row_tail(v: BufferView) -> Seq<u8> {
    Seq::new((BUFFER_WIDTH - 3) as nat, |k: int| v.grid[idx(v.row, 3 + k)].ascii_character)
}

impl Buffer {
    /// Runs the display's own dispatch on the text of the current row, taken from
    /// just right of the prompt text to the row's end.
    pub fn run_command(&mut self)
        requires
            old(self)@.wf(),
        ensures
            final(self)@.wf(),
            final(self)@ == spec_command(old(self)@, spec_row_tail(old(self)@)),
    {
        let mut row: Vec<u8> = Vec::new();
        let mut c: usize = 3;
        while c < BUFFER_WIDTH
            invariant
                self@.wf(),
                self@ == old(self)@,
                3 <= c <= BUFFER_WIDTH,
                row@ =~= spec_row_tail(self@).take(c - 3),
            decreases BUFFER_WIDTH - c,
        {
            let byte = self.char_at(self.cursor.row, c);
            row.push(byte);
            proof {
                assert(row@ =~= spec_row_tail(self@).take(c - 3 + 1));
            }
            c = c + 1;
        }
        proof {
            assert(row@ =~= spec_row_tail(self@));
        }
        self.command(row);
    }

    /// The dispatch itself: echoes the rest of an `echo` line on a
    /// fresh line, or complains.
    fn command(&mut self, s: Vec<u8>)
        requires
            old(self)@.wf(),
        ensures
            final(self)@.wf(),
            final(self)@ == spec_command(old(self)@, s@),
    {
        let token = first_token(&s);
        let is_echo = token.len() == 4 && token[0] == 101 && token[1] == 99
            && token[2] == 104 && token[3] == 111;
        if is_echo {
            proof {
                assert(token@ =~= echo_token());
                lemma_take_until_space_len(drop_spaces(s@));
                lemma_drop_spaces_len(s@);
            }
            self.new_line();
            let mut rest: Vec<u8> = Vec::new();
            let mut i: usize = 4;
            while i < s.len()
                invariant
                    4 <= i <= s@.len(),
                    rest@ =~= s@.subrange(4, i as int),
                decreases s@.len() - i,
            {
                rest.push(s[i]);
                proof {
                    assert(rest@ =~= s@.subrange(4, i + 1));
                }
                i = i + 1;
            }
            proof {
                assert(rest@ =~= s@.skip(4));
            }
            self.write_bytes(&rest);
            self.new_line();
        } else {
            proof {
                if token@ == echo_token() {
                    assert(token@[0] == 101 && token@[1] == 99 && token@[2] == 104 && token@[3] == 111);
                }
            }
            self.write_string("Incorrect Command");
        }
    }
}

/// The error value the display's own dispatch describes its complaint with.
#[derive(Debug)]
pub struct InvalidCommandError {
    message: String,
}

impl InvalidCommandError {
    /// The complaint's text.
    pub closed spec fn msg(self) -> Seq<char> {
        self.message@
    }

    pub fn new(message: &str) -> (e: InvalidCommandError)
        ensures
            e.msg() == message@,
    {
        InvalidCommandError { message: String::from_str(message) }
    }

    /// The complaint's text, for callers that surface it.
    pub fn message(&self) -> (m: &String)
        ensures
            m@ == self.msg(),
    {
        &self.message
    }
}

/// `n` deletions in a row.
pub open spec fn spec_delete_n(v: BufferView, n: nat) -> BufferView
    decreases n,
{
    if n == 0 {
        v
    } else {
        spec_delete(spec_delete_n(v, (n - 1) as nat))
    }
}

/// Deleting, however often, from at or right of the prompt column never
/// moves the cursor left of that column and never leaves the row; exactly
/// at the prompt column a delete changes nothing.
pub proof fn lemma_delete_never_erases_prompt(v: BufferView, n: nat)
    requires
        v.column >= 3,
    ensures
        spec_delete_n(v, n).column >= 3,
        spec_delete_n(v, n).row == v.row,
        v.column == 3 ==> spec_delete(v) == v,
    decreases n,
{
    if n > 0 {
        lemma_delete_never_erases_prompt(v, (n - 1) as nat);
    }
}

/// A sequence of printable bytes: every byte has a glyph of its own.
pub open spec fn printable(s: Seq<u8>) -> bool {
    forall|i: int| 0 <= i < s.len() ==> 0x20 <= #[trigger] s[i] <= 0x7e
}

/// Writing a printable string that fits on the current line reproduces it,
/// byte for byte with the active attribute, in the cells from the write
/// start position on; every other cell keeps its content, and the cursor
/// ends just past the written text.
pub proof fn lemma_write_string_readback(v: BufferView, s: Seq<u8>)
    requires
        v.wf(),
        printable(s),
        v.column + s.len() <= BUFFER_WIDTH,
    ensures
        ({
            let w = spec_write_bytes(v, s);
            &&& w.row == v.row
            &&& w.column == v.column + s.len()
            &&& w.color == v.color
            &&& w.grid.len() == v.grid.len()
            &&& forall|k: int| 0 <= k < s.len()
                ==> #[trigger] w.grid[idx(v.row, v.column + k)]
                    == (ScreenChar { ascii_character: s[k], color_code: v.color })
            &&& forall|i: int| 0 <= i < v.grid.len()
                && !(idx(v.row, v.column) <= i < idx(v.row, v.column) + s.len())
                ==> #[trigger] w.grid[i] == v.grid[i]
        }),
    decreases s.len(),
{
    if s.len() > 0 {
        let v1 = spec_write_byte(v, s[0]);
        assert(v1 == spec_put(v, s[0]));
        lemma_write_string_readback(v1, s.drop_first());
        let w = spec_write_bytes(v, s);
        assert(w == spec_write_bytes(v1, s.drop_first()));
        assert forall|k: int| 0 <= k < s.len() implies #[trigger] w.grid[idx(v.row, v.column + k)]
            == (ScreenChar { ascii_character: s[k], color_code: v.color }) by {
            if k == 0 {
                assert(w.grid[idx(v.row, v.column)] == v1.grid[idx(v.row, v.column)]);
            } else {
                assert(w.grid[idx(v1.row, v1.column + (k - 1))]
                    == (ScreenChar { ascii_character: s.drop_first()[k - 1], color_code: v1.color }));
            }
        }
    }
}

/// Once the grid is full, each new line shifts the content up by exactly one
/// row: rows 1..R of the old grid become rows 0..R-1, the old top row is
/// overwritten, and the freed last row holds the prompt marker on an
/// otherwise blank line, with the cursor just right of it.
pub proof fn lemma_full_grid_scroll(v: BufferView)
    requires
        v.wf(),
        v.row == (BUFFER_HEIGHT as int) - 1,
    ensures
        ({
            let w = spec_new_line(v);
            &&& w.row == (BUFFER_HEIGHT as int) - 1
            &&& w.column == 3
            &&& w.color == v.color
            &&& w.grid.len() == v.grid.len()
            &&& forall|r: int, c: int|
                0 <= r < (BUFFER_HEIGHT as int) - 1 && 0 <= c < (BUFFER_WIDTH as int)
                ==> #[trigger] w.grid[idx(r, c)] == v.grid[idx(r + 1, c)]
            &&& w.grid[idx((BUFFER_HEIGHT as int) - 1, 0)] == (ScreenChar { ascii_character: 32, color_code: v.color })
            &&& w.grid[idx((BUFFER_HEIGHT as int) - 1, 1)] == (ScreenChar { ascii_character: 36, color_code: v.color })
            &&& w.grid[idx((BUFFER_HEIGHT as int) - 1, 2)] == (ScreenChar { ascii_character: 32, color_code: v.color })
            &&& forall|c: int| 3 <= c < (BUFFER_WIDTH as int)
                ==> #[trigger] w.grid[idx((BUFFER_HEIGHT as int) - 1, c)] == blank_char(v.color)
        }),
{
    let lf = spec_line_feed(v);
    let w = spec_new_line(v);
    assert forall|r: int, c: int|
        0 <= r < (BUFFER_HEIGHT as int) - 1 && 0 <= c < (BUFFER_WIDTH as int)
        implies #[trigger] w.grid[idx(r, c)] == v.grid[idx(r + 1, c)] by {
        assert(idx(r, c) < ((BUFFER_HEIGHT as int) - 1) * (BUFFER_WIDTH as int));
        assert(lf.grid[idx(r, c)] == v.grid[idx(r, c) + (BUFFER_WIDTH as int)]);
        assert(idx(r, c) + (BUFFER_WIDTH as int) == idx(r + 1, c));
    }
}

/// The first space-separated token of `s`.
fn first_token(s: &Vec<u8>) -> (t: Vec<u8>)
    ensures
        t@ == spec_first_token(s@),
{
    let n = s.len();
    let mut i: usize = 0;
    proof {
        assert(s@.skip(0) =~= s@);
    }
    while i < n && s[i] == 32
        invariant
            i <= n,
            n == s@.len(),
            drop_spaces(s@) == drop_spaces(s@.skip(i as int)),
        decreases n - i,
    {
        proof {
            assert(s@.skip(i as int).drop_first() =~= s@.skip(i as int + 1));
        }
        i = i + 1;
    }
    proof {
        assert(drop_spaces(s@.skip(i as int)) == s@.skip(i as int));
    }
    let ghost start = i as int;
    let mut t: Vec<u8> = Vec::new();
    while i < n && s[i] != 32
        invariant
            start <= i <= n,
            n == s@.len(),
            take_until_space(s@.skip(start)) == t@ + take_until_space(s@.skip(i as int)),
        decreases n - i,
    {
        proof {
            assert(s@.skip(i as int).drop_first() =~= s@.skip(i as int + 1));
            assert(take_until_space(s@.skip(i as int))
                == seq![s@[i as int]] + take_until_space(s@.skip(i as int + 1)));
        }
        let ghost t0 = t@;
        t.push(s[i]);
        proof {
            assert(t0.push(s@[i as int]) + take_until_space(s@.skip(i as int + 1))
                =~= t0 + (seq![s@[i as int]] + take_until_space(s@.skip(i as int + 1))));
        }
        i = i + 1;
    }
    proof {
        assert(take_until_space(s@.skip(i as int)) =~= Seq::<u8>::empty());
        assert(t@ =~= t@ + Seq::<u8>::empty());
    }
    t
}

/// Writing `s` and then one more byte is the same as writing `s.push(b)`.
pub proof fn lemma_write_bytes_snoc(v: BufferView, s: Seq<u8>, b: u8)
    ensures
        spec_write_bytes(v, s.push(b)) == spec_write_byte(spec_write_bytes(v, s), b),
    decreases s.len(),
{
    if s.len() == 0 {
        assert(s.push(b)[0] == b);
        assert(s.push(b).drop_first() =~= Seq::<u8>::empty());
        assert(spec_write_bytes(spec_write_byte(v, b), Seq::<u8>::empty()) == spec_write_byte(v, b));
        assert(spec_write_bytes(v, s.push(b)) == spec_write_byte(v, b));
    } else {
        assert(s.push(b)[0] == s[0]);
        assert(s.push(b).drop_first() =~= s.drop_first().push(b));
        lemma_write_bytes_snoc(spec_write_byte(v, s[0]), s.drop_first(), b);
        assert(spec_write_bytes(v, s.push(b)) == spec_write_bytes(spec_write_byte(v, s[0]), s.drop_first().push(b)));
    }
}

impl VGABuffer for Buffer {
    open spec fn buf(&self) -> BufferView {
        self@
    }

    open spec fn inv(&self) -> bool {
        self@.wf()
    }

    fn clear(&mut self) {
        let blank = ScreenChar { ascii_character: 32, color_code: self.color_code };
        let mut i: usize = 0;
        while i < BUFFER_HEIGHT * BUFFER_WIDTH
            invariant
                self@.grid.len() == grid_size(),
                i <= BUFFER_HEIGHT * BUFFER_WIDTH,
                blank == blank_char(old(self)@.color),
                self@.color == old(self)@.color,
                self@.row == old(self)@.row,
                self@.column == old(self)@.column,
                forall|j: int| 0 <= j < i ==> self@.grid[j] == blank_char(old(self)@.color),
                forall|j: int| i <= j < grid_size() ==> self@.grid[j] == old(self)@.grid[j],
            decreases BUFFER_HEIGHT * BUFFER_WIDTH - i,
        {
            self.chars.set(i, blank);
            i = i + 1;
        }
        self.cursor.row = 0;
        self.cursor.column = 0;
        proof {
            assert(self@ =~= (BufferView {
                grid: Seq::new(grid_size(), |i: int| blank_char(old(self)@.color)),
                row: 0,
                column: 0,
                color: old(self)@.color,
            }));
        }
        self.put_char(32);
        self.put_char(36);
        self.put_char(32);
    }

    fn clear_row(&mut self, row: usize) {
        let blank = ScreenChar { ascii_character: 32, color_code: self.color_code };
        let mut c: usize = 0;
        while c < BUFFER_WIDTH
            invariant
                self@.grid.len() == grid_size(),
                row < BUFFER_HEIGHT,
                c <= BUFFER_WIDTH,
                blank == blank_char(old(self)@.color),
                self@.color == old(self)@.color,
                self@.row == old(self)@.row,
                self@.column == old(self)@.column,
                forall|j: int| idx(row as int, 0) <= j < idx(row as int, 0) + c ==> self@.grid[j] == blank_char(old(self)@.color),
                forall|j: int| 0 <= j < grid_size() && !(idx(row as int, 0) <= j < idx(row as int, 0) + c) ==> self@.grid[j] == old(self)@.grid[j],
            decreases BUFFER_WIDTH - c,
        {
            self.chars.set(row * BUFFER_WIDTH + c, blank);
            c = c + 1;
        }
        self.cursor.row = row;
        self.cursor.column = 0;
        proof {
            assert(self@ =~= spec_clear_row(old(self)@, row as int));
        }
    }

    fn write_byte(&mut self, byte: u8) {
        if byte == 10 {
            self.new_line();
        } else {
            if self.cursor.column == BUFFER_WIDTH {
                self.new_line();
            }
            let glyph = if 0x20 <= byte && byte <= 0x7e {
                byte
            } else {
                0xfe
            };
            self.put_char(glyph);
        }
    }

    fn write_string(&mut self, s: &str) {
        let bytes = s.as_bytes_vec();
        self.write_bytes(&bytes);
    }

    fn new_line(&mut self) {
        if self.cursor.row >= BUFFER_HEIGHT - 1 {
            let mut i: usize = 0;
            while i < (BUFFER_HEIGHT - 1) * BUFFER_WIDTH
                invariant
                    self@.grid.len() == grid_size(),
                    i <= (BUFFER_HEIGHT - 1) * BUFFER_WIDTH,
                    self@.color == old(self)@.color,
                    self@.row == old(self)@.row,
                    self@.column == old(self)@.column,
                    forall|j: int| 0 <= j < i ==> self@.grid[j] == old(self)@.grid[j + BUFFER_WIDTH],
                    forall|j: int| i <= j < grid_size() ==> self@.grid[j] == old(self)@.grid[j],
                decreases (BUFFER_HEIGHT - 1) * BUFFER_WIDTH - i,
            {
                let moved = self.chars[i + BUFFER_WIDTH];
                self.chars.set(i, moved);
                i = i + 1;
            }
            let blank = ScreenChar { ascii_character: 32, color_code: self.color_code };
            let mut k: usize = (BUFFER_HEIGHT - 1) * BUFFER_WIDTH;
            while k < BUFFER_HEIGHT * BUFFER_WIDTH
                invariant
                    self@.grid.len() == grid_size(),
                    (BUFFER_HEIGHT - 1) * BUFFER_WIDTH <= k <= BUFFER_HEIGHT * BUFFER_WIDTH,
                    blank == blank_char(old(self)@.color),
                    self@.color == old(self)@.color,
                    self@.row == old(self)@.row,
                    self@.column == old(self)@.column,
                    forall|j: int| 0 <= j < (BUFFER_HEIGHT - 1) * BUFFER_WIDTH ==> self@.grid[j] == old(self)@.grid[j + BUFFER_WIDTH],
                    forall|j: int| (BUFFER_HEIGHT - 1) * BUFFER_WIDTH <= j < k ==> self@.grid[j] == blank_char(old(self)@.color),
                    forall|j: int| k <= j < grid_size() ==> self@.grid[j] == old(self)@.grid[j],
                decreases BUFFER_HEIGHT * BUFFER_WIDTH - k,
            {
                self.chars.set(k, blank);
                k = k + 1;
            }
            self.cursor.row = BUFFER_HEIGHT - 1;
            self.cursor.column = 0;
            proof {
                assert(self@ =~= spec_line_feed(old(self)@));
            }
        } else {
            self.cursor.row = self.cursor.row + 1;
            self.cursor.column = 0;
            proof {
                assert(self@ =~= spec_line_feed(old(self)@));
            }
        }
        self.put_char(32);
        self.put_char(36);
        self.put_char(32);
    }

    fn set_color(&mut self, color_code: ColorCode) {
        self.color_code = color_code;
        proof {
            assert(self@ =~= (BufferView { color: color_code, ..old(self)@ }));
        }
    }

    fn get_cursor(&self) -> (pos: (usize, usize)) {
        (self.cursor.row, self.cursor.column)
    }

    fn set_cursor(&mut self, row: usize, column: usize) {
        self.cursor.row = row;
        self.cursor.column = column;
        proof {
            assert(self@ =~= (BufferView { row: row as int, column: column as int, ..old(self)@ }));
        }
    }
}

} // verus!
