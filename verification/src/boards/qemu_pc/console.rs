//! VGA text console with scrollback, mirrored to COM1.
//!
//! `Console` keeps every row ever written (the last `HISTORY` of them) as
//! 16-bit VGA cells; `render` picks the `HEIGHT`-row window the viewport
//! selects. A small ANSI CSI recognizer swallows escape sequences instead of
//! drawing them. Port traffic (serial bytes, CRTC cursor writes) is returned
//! to the caller, which performs it.
use vstd::prelude::*;
use crate::arch::x86_64::port::{PortWrite, pw};

verus! {

pub const COM1: u16 = 0x3F8;
pub const WIDTH: usize = 80;
pub const HEIGHT: usize = 25;
/// Rows of scrollback kept; older rows are overwritten.
pub const HISTORY: usize = 1000;
/// Rows scrolled per page-up / page-down.
pub const PAGE_STEP: usize = 25;
/// Light grey on black.
pub const ATTR: u16 = 0x0700;
pub const BLANK: u16 = 0x0720;
pub const CRTC_ADDR: u16 = 0x3D4;
pub const CRTC_DATA: u16 = 0x3D5;
pub const CELLS: usize = 80000;

/// Where the CSI recognizer is.
#[derive(Clone, Copy, PartialEq, Eq, Structural, Debug)]
pub enum EscState {
    Normal,
    SawEsc,
    InCsi,
}

pub struct Console {
    /// `HISTORY` rows of `WIDTH` cells; absolute row `r` lives at row
    /// `r % HISTORY`.
    pub buf: Vec<u16>,
    pub col: usize,
    /// Absolute index of the row being written; only grows (but for a
    /// backspace across a wrap).
    pub row: usize,
    /// Rows back from the live tail that the viewport shows; 0 follows.
    pub view_offset: usize,
    pub esc: EscState,
}

pub open spec fn cell(row: int, col: int) -> int {
    (row % 1000) * 80 + col
}

proof fn lemma_cell(row: int, col: int)
    requires
        0 <= row,
        0 <= col < 80,
    ensures
        0 <= cell(row, col) < 80000,
        cell(row, col) == (row % 1000) * 80 + col,
        forall|c: int| 0 <= c < 80 && c != col ==> cell(row, c) != cell(row, col),
{
    let r = row % 1000;
    assert(0 <= r < 1000);
    assert(0 <= r * 80 + col < 80000) by (nonlinear_arith)
        requires
            0 <= r < 1000,
            0 <= col < 80,
    ;
}

/// `cells` with absolute row `row` blanked.
pub open spec fn blank_row(cells: Seq<u16>, row: int) -> Seq<u16> {
    Seq::new(cells.len(), |i: int| if (row % 1000) * 80 <= i < (row % 1000) * 80 + 80 { BLANK } else { cells[i] })
}

/// Text state after one byte outside an escape sequence: cells, column, row.
pub open spec fn text_step(cells: Seq<u16>, col: int, row: int, b: u8) -> (Seq<u16>, int, int) {
    if b == 0x0A {
        (blank_row(cells, row + 1), 0, row + 1)
    } else if b == 0x0D {
        (cells, 0, row)
    } else if b == 0x08 {
        let (c, r) = if col > 0 {
            (col - 1, row)
        } else if row > 0 {
            (79int, row - 1)
        } else {
            (col, row)
        };
        (cells.update(cell(r, c), BLANK), c, r)
    } else {
        let cells2 = cells.update(cell(row, col), ATTR | (b as u16));
        if col + 1 >= 80 {
            (blank_row(cells2, row + 1), 0, row + 1)
        } else {
            (cells2, col + 1, row)
        }
    }
}

/// The recognizer's next state, and whether byte `b` is text rather than
/// part of an escape sequence.
pub open spec fn esc_step(esc: EscState, b: u8) -> (EscState, bool) {
    match esc {
        EscState::Normal => if b == 0x1B {
            (EscState::SawEsc, false)
        } else {
            (EscState::Normal, true)
        },
        EscState::SawEsc => if b == 0x5B {
            (EscState::InCsi, false)
        } else {
            (EscState::Normal, false)
        },
        EscState::InCsi => if 0x40 <= b <= 0x7E {
            (EscState::Normal, false)
        } else {
            (EscState::InCsi, false)
        },
    }
}

/// First absolute row the viewport shows.
pub open spec fn view_start(row: int, view: int) -> int {
    let total = row + 1;
    let a = if total >= 25 + view { total - (25 + view) } else { 0 };
    let b = if total >= 1000 { total - 1000 } else { 0 };
    if a >= b { a } else { b }
}

/// The 80x25 screen the viewport shows.
pub open spec fn screen(cells: Seq<u16>, row: int, view: int) -> Seq<u16> {
    Seq::new(
        2000,
        |i: int|
            {
                let abs = view_start(row, view) + i / 80;
                if abs < row + 1 {
                    cells[cell(abs, i % 80)]
                } else {
                    BLANK
                }
            },
    )
}

/// The viewport offset one page back (`dir < 0`, never past the oldest
/// row kept) or forward (never past the live tail) from `view`.
pub open spec fn scrolled(view: int, row: int, dir: i8) -> int {
    if dir < 0 {
        let v = view + 25;
        if v <= max_offset(row) { v } else { max_offset(row) }
    } else if view >= 25 {
        view - 25
    } else {
        0
    }
}

/// Largest viewport offset: as far back as history reaches.
pub open spec fn max_offset(row: int) -> int {
    let a = if row + 1 >= 25 { row + 1 - 25 } else { 0 };
    if a <= 975 { a } else { 975 }
}

/// COM1 set-up: interrupts off, 115200 baud, 8N1, FIFO off, RTS/DTR.
pub open spec fn serial_init_sequence() -> Seq<PortWrite> {
    seq![
        pw(0x3F9, 0x00),
        pw(0x3FB, 0x80),
        pw(0x3F8, 0x01),
        pw(0x3F9, 0x00),
        pw(0x3FB, 0x03),
        pw(0x3FA, 0x00),
        pw(0x3FC, 0x0B),
    ]
}

/// Bytes sent to COM1 to mirror `b`: a newline goes out as CR LF.
pub open spec fn serial_bytes(b: u8) -> Seq<u8> {
    if b == 0x0A {
        seq![0x0Du8, 0x0Au8]
    } else {
        seq![b]
    }
}

/// Console state (cells, column, row, recognizer) after one byte.
pub open spec fn step(st: (Seq<u16>, int, int, EscState), b: u8) -> (Seq<u16>, int, int, EscState) {
    let (e2, text) = esc_step(st.3, b);
    if text {
        let (cells, col, row) = text_step(st.0, st.1, st.2, b);
        (cells, col, row, e2)
    } else {
        (st.0, st.1, st.2, e2)
    }
}

/// Console state after a string of bytes.
pub open spec fn run(st: (Seq<u16>, int, int, EscState), s: Seq<u8>) -> (Seq<u16>, int, int, EscState)
    decreases s.len(),
{
    if s.len() == 0 {
        st
    } else {
        step(run(st, s.drop_last()), s.last())
    }
}

/// Some byte of `s` was text rather than part of an escape sequence.
pub open spec fn text_seen(st: (Seq<u16>, int, int, EscState), s: Seq<u8>) -> bool
    decreases s.len(),
{
    s.len() > 0 && (text_seen(st, s.drop_last()) || esc_step(run(st, s.drop_last()).3, s.last()).1)
}

/// COM1 bytes mirroring a string.
pub open spec fn serial_of(s: Seq<u8>) -> Seq<u8>
    decreases s.len(),
{
    if s.len() == 0 {
        Seq::empty()
    } else {
        serial_of(s.drop_last()) + serial_bytes(s.last())
    }
}

pub fn serial_init() -> (w: Vec<PortWrite>)
    ensures
        w@ == serial_init_sequence(),
{
    let mut w: Vec<PortWrite> = Vec::new();
    w.push(PortWrite { port: COM1 + 1, value: 0x00 });
    w.push(PortWrite { port: COM1 + 3, value: 0x80 });
    w.push(PortWrite { port: COM1, value: 0x01 });
    w.push(PortWrite { port: COM1 + 1, value: 0x00 });
    w.push(PortWrite { port: COM1 + 3, value: 0x03 });
    w.push(PortWrite { port: COM1 + 2, value: 0x00 });
    w.push(PortWrite { port: COM1 + 4, value: 0x0B });
    w
}

/// A received byte is waiting when bit 0 of the line status register is set.
pub fn serial_rx_ready(lsr: u8) -> (r: bool)
    ensures
        r == (lsr & 1 != 0),
{
    lsr & 1 != 0
}

/// The transmitter takes a byte when bit 5 of the line status register is set.
pub fn serial_tx_ready(lsr: u8) -> (r: bool)
    ensures
        r == (lsr & 0x20 != 0),
{
    lsr & 0x20 != 0
}

/// CRTC writes moving the hardware cursor to cell `pos` of the screen.
pub fn update_cursor(pos: u16) -> (w: Vec<PortWrite>)
    ensures
        w@ == seq![
            pw(CRTC_ADDR, 0x0F),
            pw(CRTC_DATA, (pos & 0xFF) as u8),
            pw(CRTC_ADDR, 0x0E),
            pw(CRTC_DATA, ((pos >> 8u16) & 0xFF) as u8),
        ],
{
    let mut w: Vec<PortWrite> = Vec::new();
    w.push(PortWrite { port: CRTC_ADDR, value: 0x0F });
    w.push(PortWrite { port: CRTC_DATA, value: (pos & 0xFF) as u8 });
    w.push(PortWrite { port: CRTC_ADDR, value: 0x0E });
    w.push(PortWrite { port: CRTC_DATA, value: ((pos >> 8u16) & 0xFF) as u8 });
    w
}

impl Console {
    pub open spec fn wf(&self) -> bool {
        &&& self.buf@.len() == 80000
        &&& self.col < 80
        &&& self.view_offset <= 975
    }

    /// A console with all history blank, cursor home, viewport following.
    pub fn new() -> (c: Console)
        ensures
            c.wf(),
            c.buf@ == Seq::new(80000, |i: int| BLANK),
            c.col == 0 && c.row == 0 && c.view_offset == 0,
            c.esc == EscState::Normal,
    {
        let mut buf: Vec<u16> = Vec::new();
        let mut i: usize = 0;
        while i < CELLS
            invariant
                i <= 80000,
                buf@ == Seq::new(i as nat, |k: int| BLANK),
            decreases 80000 - i,
        {
            buf.push(BLANK);
            i = i + 1;
        }
        Console { buf, col: 0, row: 0, view_offset: 0, esc: EscState::Normal }
    }

    /// Blank all history and home the cursor; the recognizer keeps its state.
    pub fn clear(&mut self)
        requires
            old(self).wf(),
        ensures
            final(self).wf(),
            final(self).buf@ == Seq::new(80000, |i: int| BLANK),
            final(self).col == 0 && final(self).row == 0 && final(self).view_offset == 0,
            final(self).esc == old(self).esc,
    {
        let mut i: usize = 0;
        while i < CELLS
            invariant
                i <= 80000,
                self.buf@.len() == 80000,
                self.esc == old(self).esc,
                forall|k: int| 0 <= k < i ==> #[trigger] self.buf@[k] == BLANK,
            decreases 80000 - i,
        {
            self.buf.set(i, BLANK);
            i = i + 1;
        }
        assert(self.buf@ =~= Seq::new(80000, |i: int| BLANK));
        self.col = 0;
        self.row = 0;
        self.view_offset = 0;
    }

    fn newline(&mut self)
        requires
            old(self).buf@.len() == 80000,
            old(self).view_offset <= 975,
            old(self).row + 1 < usize::MAX,
        ensures
            final(self).wf(),
            final(self).buf@ == blank_row(old(self).buf@, old(self).row + 1),
            final(self).col == 0,
            final(self).row == old(self).row + 1,
            final(self).view_offset == old(self).view_offset,
            final(self).esc == old(self).esc,
    {
        self.col = 0;
        self.row = self.row + 1;
        let base = (self.row % HISTORY) * WIDTH;
        proof {
            lemma_cell(self.row as int, 0);
        }
        let mut c: usize = 0;
        while c < WIDTH
            invariant
                base == (self.row % 1000) * 80,
                base + 80 <= 80000,
                c <= 80,
                self.buf@.len() == 80000,
                old(self).buf@.len() == 80000,
                self.col == 0,
                self.row == old(self).row + 1,
                self.view_offset == old(self).view_offset,
                self.view_offset <= 975,
                self.esc == old(self).esc,
                forall|k: int| 0 <= k < 80000 ==> #[trigger] self.buf@[k] == if base <= k < base + c {
                    BLANK
                } else {
                    old(self).buf@[k]
                },
            decreases 80 - c,
        {
            self.buf.set(base + c, BLANK);
            c = c + 1;
        }
        assert(self.buf@ =~= blank_row(old(self).buf@, old(self).row + 1));
    }

    fn backspace(&mut self)
        requires
            old(self).wf(),
        ensures
            final(self).wf(),
            (final(self).buf@, final(self).col as int, final(self).row as int) == text_step(
                old(self).buf@,
                old(self).col as int,
                old(self).row as int,
                0x08,
            ),
            final(self).view_offset == old(self).view_offset,
            final(self).esc == old(self).esc,
    {
        if self.col > 0 {
            self.col = self.col - 1;
        } else if self.row > 0 {
            self.row = self.row - 1;
            self.col = WIDTH - 1;
        }
        proof {
            lemma_cell(self.row as int, self.col as int);
        }
        let i = (self.row % HISTORY) * WIDTH + self.col;
        self.buf.set(i, BLANK);
    }

    /// Draw one byte. Escape sequences are consumed without effect on the
    /// text; otherwise newline, carriage return and backspace move the
    /// cursor and any other byte is written at it, wrapping at the right
    /// edge. Returns whether the viewport must be redrawn: after text while
    /// following the tail.
    pub fn put_byte(&mut self, b: u8) -> (redraw: bool)
        requires
            old(self).wf(),
            old(self).row + 2 < usize::MAX,
        ensures
            final(self).wf(),
            final(self).esc == esc_step(old(self).esc, b).0,
            final(self).view_offset == old(self).view_offset,
            esc_step(old(self).esc, b).1 ==> (final(self).buf@, final(self).col as int, final(self).row as int)
                == text_step(old(self).buf@, old(self).col as int, old(self).row as int, b),
            !esc_step(old(self).esc, b).1 ==> final(self).buf@ == old(self).buf@ && final(self).col == old(self).col
                && final(self).row == old(self).row,
            redraw == (esc_step(old(self).esc, b).1 && old(self).view_offset == 0),
    {
        match self.esc {
            EscState::Normal => {
                if b == 0x1B {
                    self.esc = EscState::SawEsc;
                    return false;
                }
            },
            EscState::SawEsc => {
                self.esc = if b == 0x5B { EscState::InCsi } else { EscState::Normal };
                return false;
            },
            EscState::InCsi => {
                if 0x40 <= b && b <= 0x7E {
                    self.esc = EscState::Normal;
                }
                return false;
            },
        }
        if b == 0x0A {
            self.newline();
        } else if b == 0x0D {
            self.col = 0;
        } else if b == 0x08 {
            self.backspace();
        } else {
            proof {
                lemma_cell(self.row as int, self.col as int);
            }
            let i = (self.row % HISTORY) * WIDTH + self.col;
            self.buf.set(i, ATTR | (b as u16));
            self.col = self.col + 1;
            if self.col >= WIDTH {
                self.newline();
            }
        }
        self.view_offset == 0
    }

    /// Mirror `b` to serial and draw it: returns the bytes for COM1 and
    /// whether to redraw.
    pub fn print_byte(&mut self, b: u8) -> (r: (Vec<u8>, bool))
        requires
            old(self).wf(),
            old(self).row + 2 < usize::MAX,
        ensures
            final(self).wf(),
            r.0@ == serial_bytes(b),
            final(self).esc == esc_step(old(self).esc, b).0,
            final(self).view_offset == old(self).view_offset,
            esc_step(old(self).esc, b).1 ==> (final(self).buf@, final(self).col as int, final(self).row as int)
                == text_step(old(self).buf@, old(self).col as int, old(self).row as int, b),
            !esc_step(old(self).esc, b).1 ==> final(self).buf@ == old(self).buf@ && final(self).col == old(self).col
                && final(self).row == old(self).row,
            r.1 == (esc_step(old(self).esc, b).1 && old(self).view_offset == 0),
    {
        let mut out: Vec<u8> = Vec::new();
        if b == 0x0A {
            out.push(0x0D);
        }
        out.push(b);
        assert(out@ =~= serial_bytes(b));
        let redraw = self.put_byte(b);
        (out, redraw)
    }

    /// Print every byte of `s`: returns the serial bytes, in order, and
    /// whether any byte asked for a redraw.
    pub fn print_str(&mut self, s: &[u8]) -> (r: (Vec<u8>, bool))
        requires
            old(self).wf(),
            old(self).row + 2 * s@.len() + 2 < usize::MAX,
        ensures
            final(self).wf(),
            final(self).view_offset == old(self).view_offset,
            (final(self).buf@, final(self).col as int, final(self).row as int, final(self).esc) == run(
                (old(self).buf@, old(self).col as int, old(self).row as int, old(self).esc),
                s@,
            ),
            r.0@ == serial_of(s@),
            r.1 == (old(self).view_offset == 0 && text_seen(
                (old(self).buf@, old(self).col as int, old(self).row as int, old(self).esc),
                s@,
            )),
    {
        let ghost st0 = (self.buf@, self.col as int, self.row as int, self.esc);
        let mut out: Vec<u8> = Vec::new();
        let mut redraw = false;
        let mut i: usize = 0;
        assert(s@.take(0) =~= Seq::<u8>::empty());
        while i < s.len()
            invariant
                self.wf(),
                i <= s@.len(),
                self.row <= old(self).row + i,
                old(self).row + 2 * s@.len() + 2 < usize::MAX,
                self.view_offset == old(self).view_offset,
                (self.buf@, self.col as int, self.row as int, self.esc) == run(st0, s@.take(i as int)),
                out@ == serial_of(s@.take(i as int)),
                out@.len() <= 2 * i,
                redraw == (old(self).view_offset == 0 && text_seen(st0, s@.take(i as int))),
            decreases s@.len() - i,
        {
            let ghost pre = s@.take(i as int);
            assert(s@.take(i + 1).drop_last() =~= pre);
            assert(s@.take(i + 1).last() == s@[i as int]);
            let (bytes, r) = self.print_byte(s[i]);
            let n0 = out.len();
            let mut k: usize = 0;
            while k < bytes.len()
                invariant
                    k <= bytes@.len(),
                    1 <= bytes@.len() <= 2,
                    n0 <= 2 * i,
                    2 * s@.len() + 2 < usize::MAX,
                    i < s@.len(),
                    out@ == serial_of(pre) + bytes@.take(k as int),
                    n0 == serial_of(pre).len(),
                decreases bytes@.len() - k,
            {
                assert(bytes@.take(k + 1) =~= bytes@.take(k as int).push(bytes@[k as int]));
                out.push(bytes[k]);
                k = k + 1;
            }
            assert(bytes@.take(bytes@.len() as int) =~= bytes@);
            redraw = redraw || r;
            i = i + 1;
        }
        assert(s@.take(s@.len() as int) =~= s@);
        (out, redraw)
    }

    /// Move the viewport one page back into history (`dir < 0`) or toward
    /// the live tail (`dir >= 0`), never past either end.
    pub fn scroll_view(&mut self, dir: i8)
        requires
            old(self).wf(),
            old(self).row + 1 < usize::MAX,
        ensures
            final(self).wf(),
            final(self).buf@ == old(self).buf@,
            final(self).col == old(self).col && final(self).row == old(self).row,
            final(self).esc == old(self).esc,
            final(self).view_offset == scrolled(old(self).view_offset as int, old(self).row as int, dir),
    {
        let total = self.row + 1;
        let a = if total >= HEIGHT { total - HEIGHT } else { 0 };
        let max = if a <= HISTORY - HEIGHT { a } else { HISTORY - HEIGHT };
        if dir < 0 {
            let v = self.view_offset + PAGE_STEP;
            self.view_offset = if v <= max { v } else { max };
        } else {
            self.view_offset = if self.view_offset >= PAGE_STEP { self.view_offset - PAGE_STEP } else { 0 };
        }
    }

    /// The screen the viewport shows, and the cursor cell when following the
    /// tail.
    pub fn render(&self) -> (r: (Vec<u16>, Option<u16>))
        requires
            self.wf(),
            self.row + 1 < usize::MAX,
        ensures
            r.0@ == screen(self.buf@, self.row as int, self.view_offset as int),
            r.1 == if self.view_offset == 0 {
                Some(((self.row - view_start(self.row as int, 0)) * 80 + self.col) as u16)
            } else {
                None::<u16>
            },
            self.view_offset == 0 ==> (self.row - view_start(self.row as int, 0)) * 80 + self.col < 2000,
    {
        let total = self.row + 1;
        let a = if total >= HEIGHT + self.view_offset { total - (HEIGHT + self.view_offset) } else { 0 };
        let b = if total >= HISTORY { total - HISTORY } else { 0 };
        let start = if a >= b { a } else { b };
        let mut out: Vec<u16> = Vec::new();
        let mut r: usize = 0;
        while r < HEIGHT
            invariant
                self.wf(),
                total == self.row + 1,
                start == view_start(self.row as int, self.view_offset as int),
                start <= self.row,
                r <= 25,
                out@.len() == r * 80,
                forall|i: int| 0 <= i < r * 80 ==> #[trigger] out@[i] == screen(
                    self.buf@,
                    self.row as int,
                    self.view_offset as int,
                )[i],
            decreases 25 - r,
        {
            let abs = start + r;
            let mut c: usize = 0;
            while c < WIDTH
                invariant
                    self.wf(),
                    total == self.row + 1,
                    start == view_start(self.row as int, self.view_offset as int),
                    start <= self.row,
                    r < 25,
                    abs == start + r,
                    c <= 80,
                    out@.len() == r * 80 + c,
                    forall|i: int| 0 <= i < r * 80 + c ==> #[trigger] out@[i] == screen(
                        self.buf@,
                        self.row as int,
                        self.view_offset as int,
                    )[i],
                decreases 80 - c,
            {
                proof {
                    lemma_cell(abs as int, c as int);
                    let i = r * 80 + c;
                    assert(i / 80 == r && i % 80 == c) by (nonlinear_arith)
                        requires
                            i == r * 80 + c,
                            0 <= c < 80,
                            0 <= r,
                    ;
                }
                let v = if abs < total { self.buf[(abs % HISTORY) * WIDTH + c] } else { BLANK };
                out.push(v);
                c = c + 1;
            }
            proof {
                assert((r + 1) * 80 == r * 80 + 80) by (nonlinear_arith);
            }
            r = r + 1;
        }
        assert(out@ =~= screen(self.buf@, self.row as int, self.view_offset as int));
        let cursor = if self.view_offset == 0 {
            proof {
                assert((self.row - start) < 25);
                assert((self.row - start) * 80 + self.col < 2000) by (nonlinear_arith)
                    requires
                        self.row - start < 25,
                        self.col < 80,
                        start <= self.row,
                ;
            }
            Some(((self.row - start) * WIDTH + self.col) as u16)
        } else {
            None
        };
        (out, cursor)
    }
}

/// Board console bring-up: the COM1 set-up writes and a cleared console.
pub fn init() -> (r: (Vec<PortWrite>, Console))
    ensures
        r.0@ == serial_init_sequence(),
        r.1.wf(),
        r.1.buf@ == Seq::new(80000, |i: int| BLANK),
        r.1.col == 0 && r.1.row == 0 && r.1.view_offset == 0,
        r.1.esc == EscState::Normal,
{
    (serial_init(), Console::new())
}

/// Bytes of an escape sequence are consumed one by one without touching the
/// text: after ESC '[' and any bytes outside 0x40-0x7E, the recognizer is
/// inside the sequence and the text is as it was.
proof fn lemma_csi_prefix(st: (Seq<u16>, int, int, EscState), params: Seq<u8>)
    requires
        st.3 == EscState::Normal,
        forall|i: int| 0 <= i < params.len() ==> !(0x40 <= #[trigger] params[i] <= 0x7E),
    ensures
        run(st, seq![0x1Bu8, 0x5Bu8] + params) == (st.0, st.1, st.2, EscState::InCsi),
        !text_seen(st, seq![0x1Bu8, 0x5Bu8] + params),
    decreases params.len(),
{
    let pre = seq![0x1Bu8, 0x5Bu8];
    if params.len() == 0 {
        assert(pre + params =~= pre);
        assert(pre.drop_last() =~= seq![0x1Bu8]);
        assert(seq![0x1Bu8].drop_last() =~= Seq::<u8>::empty());
        assert(run(st, Seq::<u8>::empty()) == st);
        assert(!text_seen(st, Seq::<u8>::empty()));
        assert(run(st, seq![0x1Bu8]) == (st.0, st.1, st.2, EscState::SawEsc));
        assert(!text_seen(st, seq![0x1Bu8]));
        assert(run(st, pre) == (st.0, st.1, st.2, EscState::InCsi));
        assert(!text_seen(st, pre));
    } else {
        let p2 = params.drop_last();
        assert forall|i: int| 0 <= i < p2.len() implies !(0x40 <= #[trigger] p2[i] <= 0x7E) by {
            assert(p2[i] == params[i]);
        }
        lemma_csi_prefix(st, p2);
        assert((pre + params).drop_last() =~= pre + p2);
        assert((pre + params).last() == params.last());
        assert(!(0x40 <= params[params.len() - 1] <= 0x7E));
    }
}

/// An ANSI CSI sequence (ESC, '[', parameter bytes, then a final byte in
/// 0x40-0x7E) is swallowed: the console is exactly as before it (cells,
/// cursor, and the recognizer back to normal), and no byte of it counts as
/// text, so printing it asks for no redraw (`print_str` also keeps the
/// viewport offset).
pub proof fn csi_sequence_leaves_console(st: (Seq<u16>, int, int, EscState), params: Seq<u8>, fin: u8)
    requires
        st.3 == EscState::Normal,
        forall|i: int| 0 <= i < params.len() ==> !(0x40 <= #[trigger] params[i] <= 0x7E),
        0x40 <= fin <= 0x7E,
    ensures
        run(st, seq![0x1Bu8, 0x5Bu8] + params + seq![fin]) == st,
        !text_seen(st, seq![0x1Bu8, 0x5Bu8] + params + seq![fin]),
{
    lemma_csi_prefix(st, params);
    let s = seq![0x1Bu8, 0x5Bu8] + params + seq![fin];
    assert(s.drop_last() =~= seq![0x1Bu8, 0x5Bu8] + params);
    assert(s.last() == fin);
}

/// The recognizer's state after `put_byte` has taken the bytes `s` one by
/// one, starting in state `esc`.
pub open spec fn esc_after(esc: EscState, s: Seq<u8>) -> EscState
    decreases s.len(),
{
    if s.len() == 0 {
        esc
    } else {
        esc_step(esc_after(esc, s.drop_last()), s.last()).0
    }
}

/// Some byte of `s`, taken by `put_byte` one by one from state `esc`, is
/// text (and so changes the cells or the cursor, or asks for a redraw).
pub open spec fn any_text(esc: EscState, s: Seq<u8>) -> bool
    decreases s.len(),
{
    s.len() > 0 && (any_text(esc, s.drop_last()) || esc_step(esc_after(esc, s.drop_last()), s.last()).1)
}

proof fn lemma_run_esc(st: (Seq<u16>, int, int, EscState), s: Seq<u8>)
    ensures
        run(st, s).3 == esc_after(st.3, s),
        text_seen(st, s) == any_text(st.3, s),
    decreases s.len(),
{
    if s.len() > 0 {
        lemma_run_esc(st, s.drop_last());
    }
}

/// Byte by byte through `put_byte`, an ANSI CSI sequence (ESC, '[',
/// parameter bytes, a final byte in 0x40-0x7E) is never text: by
/// `put_byte`'s contract each byte leaves the cells, the cursor and the
/// viewport offset as they were and asks for no redraw, and the recognizer
/// ends back in its normal state.
pub proof fn put_byte_swallows_csi(params: Seq<u8>, fin: u8)
    requires
        forall|i: int| 0 <= i < params.len() ==> !(0x40 <= #[trigger] params[i] <= 0x7E),
        0x40 <= fin <= 0x7E,
    ensures
        !any_text(EscState::Normal, seq![0x1Bu8, 0x5Bu8] + params + seq![fin]),
        esc_after(EscState::Normal, seq![0x1Bu8, 0x5Bu8] + params + seq![fin]) == EscState::Normal,
{
    let st = (Seq::<u16>::empty(), 0int, 0int, EscState::Normal);
    let s = seq![0x1Bu8, 0x5Bu8] + params + seq![fin];
    csi_sequence_leaves_console(st, params, fin);
    lemma_run_esc(st, s);
}

/// Outside an escape sequence a carriage return only sends the cursor to
/// column 0: the cells and the row stay as they were. So CR LF leaves the
/// console exactly as LF alone does (no blank line in between).
pub proof fn carriage_return_homes_column(st: (Seq<u16>, int, int, EscState))
    requires
        st.3 == EscState::Normal,
    ensures
        esc_step(st.3, 0x0D) == (EscState::Normal, true),
        run(st, seq![0x0Du8]) == (st.0, 0int, st.2, EscState::Normal),
        run(st, seq![0x0Du8, 0x0Au8]) == run(st, seq![0x0Au8]),
{
    assert(seq![0x0Du8].drop_last() =~= Seq::<u8>::empty());
    assert(seq![0x0Au8].drop_last() =~= Seq::<u8>::empty());
    assert(seq![0x0Du8, 0x0Au8].drop_last() =~= seq![0x0Du8]);
    assert(run(st, Seq::<u8>::empty()) == st);
    let cr = (st.0, 0int, st.2, EscState::Normal);
    assert(run(st, seq![0x0Du8]) == cr);
    assert(run(st, seq![0x0Du8, 0x0Au8]) == step(cr, 0x0Au8));
    assert(run(st, seq![0x0Au8]) == step(st, 0x0Au8));
    assert(text_step(cr.0, cr.1, cr.2, 0x0Au8) == text_step(st.0, st.1, st.2, 0x0Au8));
}

/// From the live tail, one page back then one page forward returns to the
/// tail; paging forward never goes past the tail, paging back never past
/// the oldest row kept.
pub proof fn paging_stays_in_history(view: int, row: int)
    requires
        0 <= view <= max_offset(row),
        0 <= row,
    ensures
        scrolled(scrolled(0, row, -1i8), row, 1i8) == 0,
        0 <= scrolled(view, row, 1i8) <= view,
        view <= scrolled(view, row, -1i8) <= max_offset(row),
{
}

} // verus!
