use ipp_os::interrupts::{InterruptIndex, KeyInput, KeyboardPipeline, handle_key};
use ipp_os::vga_buffer::cursor::{Cursor, CursorTrait};
use ipp_os::vga_buffer::{Buffer, Color, ColorCode, VGABuffer, BUFFER_HEIGHT, BUFFER_WIDTH};

fn row_string(b: &Buffer, row: usize, from: usize, to: usize) -> String {
    let mut s = String::new();
    for c in from..to {
        s.push(b.char_at(row, c) as char);
    }
    s
}

#[test]
fn write_string_reads_back() {
    let mut b = Buffer::new();
    b.write_string("Hello, world!");
    let s = "Hello, world!";
    for (i, ch) in s.bytes().enumerate() {
        assert_eq!(b.char_at(0, i), ch);
    }
    let (row, col) = b.get_cursor();
    assert_eq!(row, 0);
    assert_eq!(col, s.len());
    // cells before and after the text are untouched blanks
    assert_eq!(b.char_at(0, s.len()), b' ');
    assert_eq!(b.char_at(1, 0), b' ');
}

#[test]
fn write_byte_replaces_unprintable() {
    let mut b = Buffer::new();
    b.write_byte(0x07);
    assert_eq!(b.char_at(0, 0), 0xfe);
    b.write_byte(b'A');
    assert_eq!(b.char_at(0, 1), b'A');
}

#[test]
fn long_line_wraps_with_prompt() {
    let mut b = Buffer::new();
    let long = "x".repeat(BUFFER_WIDTH + 5);
    b.write_string(&long);
    // the first row is full of x up to the last column
    assert_eq!(b.char_at(0, BUFFER_WIDTH - 1), b'x');
    // the wrapped row begins with the prompt marker, then the rest
    assert_eq!(row_string(&b, 1, 0, 8), " $ xxxxx");
    let (row, col) = b.get_cursor();
    assert_eq!(row, 1);
    assert_eq!(col, 8);
}

#[test]
fn delete_byte_stops_at_prompt() {
    let mut b = Buffer::new();
    b.new_line(); // emits " $ " and puts the cursor at column 3
    b.write_string("ab");
    let (_, col) = b.get_cursor();
    assert_eq!(col, 5);
    b.delete_byte();
    b.delete_byte();
    let (_, col) = b.get_cursor();
    assert_eq!(col, 3);
    // at the prompt boundary further deletes are no-ops
    for _ in 0..10 {
        b.delete_byte();
    }
    let (row, col) = b.get_cursor();
    assert_eq!(col, 3);
    // the prompt itself is intact
    assert_eq!(row_string(&b, row, 0, 3), " $ ");
    // the deleted characters are blanked
    assert_eq!(b.char_at(row, 3), b' ');
    assert_eq!(b.char_at(row, 4), b' ');
}

#[test]
fn full_grid_scrolls_one_row_per_newline() {
    let mut b = Buffer::new();
    b.write_string("first");
    // move to the last row without scrolling yet
    for _ in 0..BUFFER_HEIGHT - 1 {
        b.new_line();
    }
    let (row, _) = b.get_cursor();
    assert_eq!(row, BUFFER_HEIGHT - 1);
    assert_eq!(row_string(&b, 0, 0, 5), "first");
    b.write_string("last");
    // the next newline scrolls: everything moves up exactly one row, so
    // the old top row with "first" is overwritten by the old row 1
    b.new_line();
    assert_eq!(row_string(&b, 0, 0, 8), " $      ");
    assert_eq!(
        row_string(&b, BUFFER_HEIGHT - 2, 0, 7),
        " $ last"
    );
    // the top row's prior content is gone, overwritten by the old row 1
    let (row, col) = b.get_cursor();
    assert_eq!(row, BUFFER_HEIGHT - 1);
    assert_eq!(col, 3);
    // one more newline shifts by exactly one row again
    b.new_line();
    assert_eq!(
        row_string(&b, BUFFER_HEIGHT - 3, 0, 7),
        " $ last"
    );
}

#[test]
fn clear_blanks_and_emits_prompt() {
    let mut b = Buffer::new();
    b.write_string("garbage everywhere");
    b.new_line();
    b.clear();
    assert_eq!(row_string(&b, 0, 0, 3), " $ ");
    let (row, col) = b.get_cursor();
    assert_eq!(row, 0);
    assert_eq!(col, 3);
    for c in 3..BUFFER_WIDTH {
        assert_eq!(b.char_at(0, c), b' ');
    }
    assert_eq!(b.char_at(1, 0), b' ');
}

#[test]
fn clear_row_blanks_one_row() {
    let mut b = Buffer::new();
    b.write_string("abc");
    b.clear_row(0);
    assert_eq!(b.char_at(0, 0), b' ');
    assert_eq!(b.char_at(0, 2), b' ');
    let (row, col) = b.get_cursor();
    assert_eq!(row, 0);
    assert_eq!(col, 0);
}

#[test]
fn set_color_applies_to_later_writes_only() {
    let mut b = Buffer::new();
    b.write_byte(b'a');
    b.set_color(ColorCode::new(Color::Red, Color::Blue));
    b.write_byte(b'b');
    // both glyphs are present; the attribute change repainted nothing
    assert_eq!(b.char_at(0, 0), b'a');
    assert_eq!(b.char_at(0, 1), b'b');
}

#[test]
fn color_code_packs_nibbles() {
    let c = ColorCode::new(Color::LightGreen, Color::Black);
    assert_eq!(c.code, 10);
    let c = ColorCode::new(Color::White, Color::Blue);
    assert_eq!(c.code, 16 + 15);
}

#[test]
fn buffer_run_command_echoes() {
    let mut b = Buffer::new();
    b.new_line();
    b.write_string("echo hi");
    b.run_command();
    // the echoed text lands just after the fresh line's prompt; the echo
    // begins with the rest of the row after the fixed name slice
    let (row, _) = b.get_cursor();
    assert_eq!(row_string(&b, row - 1, 0, 7), " $  hi ");
}

#[test]
fn buffer_run_command_rejects_unknown() {
    let mut b = Buffer::new();
    b.new_line();
    b.write_string("bogus");
    let (row, col) = b.get_cursor();
    b.run_command();
    assert_eq!(
        row_string(&b, row, col, col + 17),
        "Incorrect Command"
    );
}

#[test]
fn cursor_update_protocol() {
    let cur = Cursor { row: 3, column: 7 };
    let pos = 3 * BUFFER_WIDTH + 7;
    assert_eq!(cur.get_vga_position(), pos as u16);
    let w = cur.update();
    assert_eq!(w.len(), 4);
    assert_eq!((w[0].port, w[0].value), (0x3D4, 0x0F));
    assert_eq!((w[1].port, w[1].value), (0x3D5, (pos & 0xFF) as u8));
    assert_eq!((w[2].port, w[2].value), (0x3D4, 0x0E));
    assert_eq!((w[3].port, w[3].value), (0x3D5, (pos >> 8) as u8));
}

#[test]
fn cursor_enable_preserves_high_bits() {
    let cur = Cursor { row: 0, column: 0 };
    let w = cur.enable(14, 15, 0xDF, 0xFF);
    assert_eq!(w.len(), 4);
    assert_eq!((w[0].port, w[0].value), (0x3D4, 0x0A));
    assert_eq!(w[1].value, (0xDF & 0xE0) | 14);
    assert_eq!((w[2].port, w[2].value), (0x3D4, 0x0B));
    assert_eq!(w[3].value, (0xFF & 0xE0) | 15);
}

#[test]
fn cursor_disable_protocol() {
    let cur = Cursor { row: 0, column: 0 };
    let w = cur.disable();
    assert_eq!(w.len(), 2);
    assert_eq!((w[0].port, w[0].value), (0x3D4, 0x0A));
    assert_eq!((w[1].port, w[1].value), (0x3D5, 0x20));
}

#[test]
fn interrupt_index_vectors() {
    assert_eq!(InterruptIndex::Timer.as_u8(), 32);
    assert_eq!(InterruptIndex::Keyboard.as_u8(), 33);
    assert_eq!(InterruptIndex::Keyboard.as_usize(), 33);
}

#[test]
fn key_events_drive_the_grid() {
    let mut b = Buffer::new();
    b.new_line();
    handle_key(KeyInput::Unicode('a' as u32), &mut b);
    handle_key(KeyInput::Unicode('b' as u32), &mut b);
    let (row, _) = b.get_cursor();
    assert_eq!(row_string(&b, row, 3, 5), "ab");
    handle_key(KeyInput::Unicode(8), &mut b);
    let (_, col) = b.get_cursor();
    assert_eq!(col, 4);
    assert_eq!(b.char_at(row, 4), b' ');
    // a raw key has no grid effect
    handle_key(KeyInput::Raw, &mut b);
    let (_, col) = b.get_cursor();
    assert_eq!(col, 4);
    // a non-ASCII code point echoes the replacement glyph
    handle_key(KeyInput::Unicode(0x2603), &mut b);
    assert_eq!(b.char_at(row, 4), 0xfe);
}

#[test]
fn scancodes_echo_through_the_decoder() {
    let mut b = Buffer::new();
    b.new_line();
    let mut kb = KeyboardPipeline::new();
    // scancode set 1: 0x1E is the press of the key that types 'a'
    kb.handle_scancode(0x1E, &mut b);
    // its release
    kb.handle_scancode(0x9E, &mut b);
    let (row, col) = b.get_cursor();
    assert_eq!(col, 4);
    assert_eq!(b.char_at(row, 3), b'a');
}
