use kernel_core::vga::{init, set_colors, Color, ColorCode, ScreenChar, Writer};

#[test]
fn color_code_packs_background_high() {
    assert_eq!(ColorCode::new(Color::Yellow, Color::Black), ColorCode(0x0e));
    assert_eq!(ColorCode::new(Color::White, Color::Blue), ColorCode(0x1f));
    assert_eq!(Color::from_index(14), Some(Color::Yellow));
    assert_eq!(Color::from_index(16), None);
    assert_eq!(Color::Pink.index(), 13);
}

#[test]
fn text_lands_on_bottom_row() {
    let mut w = Writer::new();
    w.write_str("hi");
    assert_eq!(w.cell(24, 0), ScreenChar { ascii: b'h', color: 0x07 });
    assert_eq!(w.cell(24, 1), ScreenChar { ascii: b'i', color: 0x07 });
    assert_eq!(w.column(), 2);
}

#[test]
fn newline_scrolls_up() {
    let mut w = Writer::new();
    set_colors(&mut w, Color::Cyan, Color::Black);
    w.write_str("ab\n");
    assert_eq!(w.cell(23, 0), ScreenChar { ascii: b'a', color: 0x03 });
    assert_eq!(w.cell(24, 0), ScreenChar { ascii: b' ', color: 0x03 });
    assert_eq!(w.column(), 0);
}

#[test]
fn full_row_wraps() {
    let mut w = Writer::new();
    let line: String = std::iter::repeat('x').take(81).collect();
    w.write_str(&line);
    assert_eq!(w.cell(23, 79).ascii, b'x');
    assert_eq!(w.cell(24, 0).ascii, b'x');
    assert_eq!(w.cell(24, 1).ascii, b' ');
    assert_eq!(w.column(), 1);
}

#[test]
fn unprintable_bytes_show_as_square() {
    let mut w = Writer::new();
    w.write_str("é\t");
    assert_eq!(w.cell(24, 0).ascii, 0xfe);
    assert_eq!(w.cell(24, 1).ascii, 0xfe);
    assert_eq!(w.cell(24, 2).ascii, 0xfe);
    assert_eq!(w.column(), 3);
}

#[test]
fn init_clears_screen_and_resets_colors() {
    let mut w = Writer::new();
    set_colors(&mut w, Color::Red, Color::White);
    w.write_str("abc");
    init(&mut w);
    assert_eq!(w.color(), ColorCode(0x07));
    assert_eq!(w.column(), 0);
    assert_eq!(w.cell(24, 0), ScreenChar { ascii: b' ', color: 0x07 });
}
