use aaos::vga::{
    write_bytes, Buffer, CharColor, Color, Font, ScreenChar, Writer, BUFFER_HEIGHT, BUFFER_WIDTH,
};

fn write_str(w: &mut Writer, s: &str) {
    for b in s.bytes() {
        w.write_byte(b);
    }
    w.cursor_at_writer();
}

fn row_text(w: &Writer, row: usize, len: usize) -> String {
    (0..len).map(|c| char::from(w.buffer.char_at(row, c).ascii_character)).collect()
}

#[test]
fn ansi_codes_map_to_colors() {
    assert_eq!(Color::from_ansi(31), Color::Red);
    assert_eq!(Color::from_ansi(97), Color::White);
    assert_eq!(Color::from_ansi(30), Color::Black);
    assert_eq!(Color::from_ansi(200), Color::Black);
}

#[test]
fn char_color_packs_background_high() {
    assert_eq!(CharColor::new(Color::White, Color::LightBlue), CharColor(0x9f));
    assert_eq!(CharColor::new(Color::LightGray, Color::Black), CharColor(0x07));
    let c = ScreenChar::new(b'A', CharColor(0x1e));
    assert_eq!(c.ascii_character, b'A');
    assert_eq!(c.color_code, CharColor(0x1e));
}

#[test]
fn test_println_output() {
    let mut w = Writer::new();
    let s = "Some test string that fits on a single line";
    for _ in 0..BUFFER_HEIGHT {
        write_str(&mut w, "filler\n");
    }
    write_str(&mut w, &format!("\n{}\n", s));
    assert_eq!(row_text(&w, BUFFER_HEIGHT - 2, s.len()), s);
    assert_eq!(w.writer_position, (0, BUFFER_HEIGHT - 1));
    assert_eq!(w.cursor_offset(), ((BUFFER_HEIGHT - 1) * BUFFER_WIDTH) as u16);
}

#[test]
fn long_line_wraps() {
    let mut w = Writer::new();
    let line: String = std::iter::repeat('x').take(BUFFER_WIDTH + 3).collect();
    write_str(&mut w, &line);
    assert_eq!(w.writer_position, (3, 1));
    assert_eq!(row_text(&w, 1, 4), "xxx ");
}

#[test]
fn backspace_erases_previous_character() {
    let mut w = Writer::new();
    write_str(&mut w, "ab\x08");
    assert_eq!(row_text(&w, 0, 2), "a ");
    assert_eq!(w.writer_position, (1, 0));
    let mut w = Writer::new();
    w.write_byte(8);
    assert_eq!(w.writer_position, (0, 0));
}

#[test]
fn scroll_moves_rows_up() {
    let mut w = Writer::new();
    for i in 0..BUFFER_HEIGHT {
        write_str(&mut w, &format!("{}\n", i % 10));
    }
    assert_eq!(row_text(&w, 0, 1), "1");
    assert_eq!(row_text(&w, BUFFER_HEIGHT - 2, 1), "4");
    assert_eq!(row_text(&w, BUFFER_HEIGHT - 1, 1), " ");
}

#[test]
fn sgr_sets_and_resets_colors() {
    let mut w = Writer::new();
    w.csi_dispatch(&vec![31, 44], 'm');
    assert_eq!(w.color_code, CharColor::new(Color::Red, Color::Blue));
    w.csi_dispatch(&vec![92], 'm');
    assert_eq!(w.color_code, CharColor::new(Color::LightGreen, Color::Black));
    w.csi_dispatch(&vec![31, 0], 'm');
    assert_eq!(w.color_code, CharColor(0x07));
    w.csi_dispatch(&vec![31], 'K');
    assert_eq!(w.color_code, CharColor(0x07));
}

#[test]
fn clear_screen_and_cursor() {
    let mut w = Writer::new();
    write_str(&mut w, "hello");
    w.set_color(CharColor(0x4f));
    w.clear_screen();
    assert_eq!(w.buffer.char_at(0, 0), ScreenChar::new(b' ', CharColor(0x4f)));
    w.set_cursor_position(5, 2);
    assert_eq!(w.cursor_offset(), 165);
}

#[test]
fn write_bytes_places_text_without_wrapping() {
    let mut b = Buffer::new(CharColor(0x07));
    write_bytes(&mut b, 12, 35, &b" (x) ".to_vec(), CharColor(0x9f));
    assert_eq!(b.char_at(12, 36), ScreenChar::new(b'(', CharColor(0x9f)));
    assert_eq!(b.char_at(12, 40), ScreenChar::new(b' ', CharColor(0x07)));
}

#[test]
fn font_from_dos_f16() {
    let f = Font::from_dos_f16(vec![0u8; 4096]);
    assert_eq!((f.size, f.height, f.data.len()), (256, 16, 4096));
}
