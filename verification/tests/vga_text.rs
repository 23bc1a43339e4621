use kwast::arch::vga_text::{ScreenChar, Writer, DEFAULT_COLOR, VGA_CELLS, VGA_WIDTH};

const BOTTOM: usize = VGA_CELLS - VGA_WIDTH;

fn blank_screen() -> Vec<ScreenChar> {
    vec![ScreenChar::new(b' '); VGA_CELLS]
}

#[test]
fn vga_screen_char_has_default_color() {
    let c = ScreenChar::new(b'a');
    assert_eq!(c, ScreenChar { char: b'a', color: 0x07 });
    assert_eq!(DEFAULT_COLOR, 0x07);
}

#[test]
fn vga_text_goes_on_the_bottom_row() {
    let mut screen = blank_screen();
    let mut w = Writer::new();
    w.write_str(&mut screen, b"hi");
    assert_eq!(w.column(), 2);
    assert_eq!(screen[BOTTOM].char, b'h');
    assert_eq!(screen[BOTTOM + 1].char, b'i');
    assert_eq!(screen[BOTTOM + 2].char, b' ');
    assert_eq!(screen[BOTTOM - 1].char, b' ');
}

#[test]
fn vga_newline_scrolls_up() {
    let mut screen = blank_screen();
    let mut w = Writer::new();
    w.write_str(&mut screen, b"ab\ncd");
    assert_eq!(w.column(), 2);
    // The first line moved up by one row.
    assert_eq!(screen[BOTTOM - VGA_WIDTH].char, b'a');
    assert_eq!(screen[BOTTOM - VGA_WIDTH + 1].char, b'b');
    assert_eq!(screen[BOTTOM].char, b'c');
    assert_eq!(screen[BOTTOM + 1].char, b'd');
    // The top row scrolled out.
    screen[0] = ScreenChar::new(b'x');
    w.write_char(&mut screen, b'\n');
    assert_eq!(screen[0].char, b' ');
    assert_eq!(w.column(), 0);
    assert!(screen[BOTTOM..].iter().all(|c| *c == ScreenChar::new(b' ')));
}

#[test]
fn vga_full_row_wraps_to_a_new_line() {
    let mut screen = blank_screen();
    let mut w = Writer::new();
    let row: Vec<u8> = (0..VGA_WIDTH).map(|i| b'a' + (i % 26) as u8).collect();
    w.write_str(&mut screen, &row);
    assert_eq!(w.column(), VGA_WIDTH);
    assert_eq!(screen[VGA_CELLS - 1].char, b'a' + ((VGA_WIDTH - 1) % 26) as u8);
    w.write_char(&mut screen, b'Z');
    assert_eq!(w.column(), 1);
    assert_eq!(screen[BOTTOM].char, b'Z');
    assert_eq!(screen[BOTTOM - VGA_WIDTH].char, b'a');
    assert_eq!(screen[BOTTOM - 1].char, b'a' + ((VGA_WIDTH - 1) % 26) as u8);
}
