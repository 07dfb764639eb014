use ferrugem::boards::qemu_pc::console::{Console, EscState, update_cursor, serial_rx_ready, serial_tx_ready};
use ferrugem::boards::raspberrypi3::fbconsole::{self, FbAction};
use ferrugem::arch::x86_64::port::PortWrite;

#[test]
fn vga_console_writes_text_and_mirrors_newlines() {
    let mut c = Console::new();
    let (serial, redraw) = c.print_str(b"hi\n");
    assert_eq!(serial, vec![b'h', b'i', b'\r', b'\n']);
    assert!(redraw);
    assert_eq!(c.buf[0], 0x0768);
    assert_eq!(c.buf[1], 0x0769);
    assert_eq!((c.row, c.col), (1, 0));
}

#[test]
fn vga_console_swallows_escape_sequences() {
    let mut c = Console::new();
    c.print_str(b"ab");
    let before = c.buf.clone();
    let (serial, redraw) = c.print_str(b"\x1b[2J\x1b[H");
    // The bytes still go to serial, but the screen text is untouched.
    assert_eq!(serial.len(), 7);
    assert!(!redraw);
    assert_eq!(c.buf, before);
    assert_eq!((c.row, c.col), (0, 2));
    assert_eq!(c.esc, EscState::Normal);
}

#[test]
fn vga_console_backspace_and_wrap() {
    let mut c = Console::new();
    c.print_str(b"x\x08");
    assert_eq!(c.col, 0);
    assert_eq!(c.buf[0], 0x0720);
    let line = [b'a'; 80];
    c.print_str(&line);
    assert_eq!((c.row, c.col), (1, 0));
}

#[test]
fn vga_console_paging_from_tail() {
    let mut c = Console::new();
    for _ in 0..60 {
        c.print_str(b"line\n");
    }
    assert_eq!(c.row, 60);
    c.scroll_view(-1);
    assert_eq!(c.view_offset, 25);
    c.scroll_view(-1);
    // Only 61 - 25 = 36 rows lie behind the screen.
    assert_eq!(c.view_offset, 36);
    let (screen, cursor) = c.render();
    assert_eq!(screen.len(), 2000);
    assert_eq!(cursor, None);
    assert_eq!(screen[0], 0x076C);
    c.scroll_view(1);
    c.scroll_view(1);
    assert_eq!(c.view_offset, 0);
    let (_, cursor) = c.render();
    assert_eq!(cursor, Some(24 * 80));
}

#[test]
fn vga_cursor_and_serial_status() {
    assert_eq!(update_cursor(0x0123), vec![
        PortWrite { port: 0x3D4, value: 0x0F },
        PortWrite { port: 0x3D5, value: 0x23 },
        PortWrite { port: 0x3D4, value: 0x0E },
        PortWrite { port: 0x3D5, value: 0x01 },
    ]);
    assert!(serial_rx_ready(0x61));
    assert!(!serial_rx_ready(0x60));
    assert!(serial_tx_ready(0x20));
    assert!(!serial_tx_ready(0x01));
}

#[test]
fn fb_console_geometry() {
    let c = fbconsole::init(0x3C10_0000, 1024, 768, 4096).unwrap();
    assert_eq!((c.cols, c.rows), (56, 32));
    assert_eq!(c.base, 0x3C10_0000);
    assert!(fbconsole::init(0, 17, 768, 4096).is_none());
    assert!(fbconsole::init(0, 1024, 23, 4096).is_none());
    let wide = fbconsole::init(0, 10_000, 48, 40_000).unwrap();
    assert_eq!((wide.cols, wide.rows), (200, 2));
}

#[test]
fn fb_console_draws_and_scrolls() {
    let mut c = fbconsole::init(0, 36, 48, 144).unwrap();
    assert_eq!((c.cols, c.rows), (2, 2));
    assert_eq!(c.put_byte(b'A'), vec![FbAction::Draw { row: 0, col: 0, ch: b'A' }]);
    // Second glyph fills the line: wrap to the next row.
    assert_eq!(c.put_byte(b'B'), vec![FbAction::Draw { row: 0, col: 1, ch: b'B' }]);
    assert_eq!((c.row, c.col, c.abs_row), (1, 0, 1));
    assert_eq!(c.put_byte(b'C'), vec![FbAction::Draw { row: 1, col: 0, ch: b'C' }]);
    // A newline on the last row scrolls the picture.
    assert_eq!(c.put_byte(b'\n'), vec![FbAction::Scroll]);
    assert_eq!((c.row, c.col, c.abs_row), (1, 0, 2));
    assert_eq!(c.put_byte(0x08), vec![]);
    assert_eq!(c.put_byte(b'\x1b'), vec![]);
    assert_eq!(c.put_byte(b'['), vec![]);
    assert_eq!(c.put_byte(b'H'), vec![]);
    assert_eq!(c.col, 0);
    let grid = c.render();
    assert_eq!(grid, vec![vec![b'C', b' '], vec![b' ', b' ']]);
}

#[test]
fn fb_console_scrollback() {
    let mut c = fbconsole::init(0, 36, 48, 144).unwrap();
    for b in b"ab\ncd\nef\n" {
        c.put_byte(*b);
    }
    assert_eq!(c.abs_row, 6);
    let grid = c.scroll_view(-1);
    assert_eq!(c.view_offset, 2);
    // Rows 3 and 4 of the history: the blank row after the wrap, then "ef".
    assert_eq!(grid, vec![vec![b' ', b' '], vec![b'e', b'f']]);
    // While scrolled back nothing is drawn, but history still records.
    assert_eq!(c.put_byte(b'z'), vec![]);
    let grid = c.scroll_view(1);
    assert_eq!(c.view_offset, 0);
    assert_eq!(c.row, 1);
    assert_eq!(grid, vec![vec![b' ', b' '], vec![b'z', b' ']]);
}
