//! Framebuffer text console: a mirror of the UART console drawn as glyph
//! cells into the VideoCore framebuffer, with a scrollback history behind
//! the visible viewport. The glyph drawing itself (pixels) is the caller's;
//! this module decides what goes in which cell, when the screen scrolls,
//! and what a scrolled-back viewport shows.
use vstd::prelude::*;
use crate::boards::qemu_pc::console::{EscState, esc_step};

verus! {

/// Glyph scale factor: a 5x7 glyph becomes 15x21 pixels.
pub const SCALE: usize = 3;
/// A cell is the scaled glyph plus one scaled pixel of spacing each way.
pub const CELL_W: u32 = 18;
pub const CELL_H: u32 = 24;
/// Widest line kept, whatever the framebuffer.
pub const MAX_COLS: usize = 200;
/// Rows of scrollback kept; older rows are overwritten.
pub const HISTORY: usize = 500;
pub const BUF_LEN: usize = 100000;
pub const SPACE: u8 = 0x20;

/// What the caller does to the framebuffer: draw glyph `ch` in viewport
/// cell (`row`, `col`), or move the whole picture up one text row and
/// blank the bottom row.
#[derive(Clone, Copy, Debug, PartialEq, Eq, Structural)]
pub enum FbAction {
    Draw { row: usize, col: usize, ch: u8 },
    Scroll,
}

pub struct FbConsole {
    /// Framebuffer geometry, for the caller's pixel work.
    pub base: u64,
    pub width: u32,
    pub height: u32,
    pub pitch: u32,
    pub cols: usize,
    pub rows: usize,
    /// `HISTORY` rows of `MAX_COLS` bytes; absolute row `r` is at
    /// `(r % HISTORY) * MAX_COLS`.
    pub buf: Vec<u8>,
    pub col: usize,
    /// Viewport row the live output is at.
    pub row: usize,
    /// Absolute row count; only grows.
    pub abs_row: usize,
    /// Rows back from the live tail the viewport shows; 0 follows the tail.
    pub view_offset: usize,
    pub esc: EscState,
}

/// Index of absolute row `abs`, column `col` in the history.
pub open spec fn fcell(abs: int, col: int) -> int {
    (abs % 500) * 200 + col
}

proof fn lemma_fcell(abs: int, col: int)
    requires
        0 <= abs,
        0 <= col < 200,
    ensures
        0 <= fcell(abs, col) < 100000,
{
    let r = abs % 500;
    assert(0 <= r * 200 + col < 100000) by (nonlinear_arith)
        requires
            0 <= r < 500,
            0 <= col < 200,
    ;
}

/// `buf` with absolute row `abs` blank.
pub open spec fn blank_row(buf: Seq<u8>, abs: int) -> Seq<u8> {
    Seq::new(buf.len(), |i: int| if (abs % 500) * 200 <= i < (abs % 500) * 200 + 200 { SPACE } else { buf[i] })
}

/// The text state: history, column, viewport row, absolute row.
pub type FbText = (Seq<u8>, int, int, int);

/// Start a new absolute row (blank in the history); the viewport row
/// follows only while live.
pub open spec fn advance(t: FbText, live: bool) -> FbText {
    (blank_row(t.0, t.3 + 1), t.1, if live { t.2 + 1 } else { t.2 }, t.3 + 1)
}

/// One text byte on a console of `cols` columns and `rows` rows: newline,
/// carriage return, backspace (within the line), or a glyph written at the
/// cursor with a wrap at the right edge. While live (`live`), cells drawn
/// are reported, and a row past the bottom scrolls the picture up.
pub open spec fn fb_text_step(t: FbText, cols: int, rows: int, live: bool, b: u8) -> (FbText, Seq<FbAction>) {
    let (buf, col, row, abs) = t;
    let (t2, acts) = if b == 0x0A {
        (advance((buf, 0, row, abs), live), Seq::<FbAction>::empty())
    } else if b == 0x0D {
        ((buf, 0, row, abs), Seq::<FbAction>::empty())
    } else if b == 0x08 {
        if col > 0 {
            (
                (buf.update(fcell(abs, col - 1), SPACE), col - 1, row, abs),
                if live {
                    seq![FbAction::Draw { row: row as usize, col: (col - 1) as usize, ch: SPACE }]
                } else {
                    Seq::<FbAction>::empty()
                },
            )
        } else {
            (t, Seq::<FbAction>::empty())
        }
    } else {
        let buf2 = buf.update(fcell(abs, col), b);
        let acts = if live {
            seq![FbAction::Draw { row: row as usize, col: col as usize, ch: b }]
        } else {
            Seq::<FbAction>::empty()
        };
        if col + 1 >= cols {
            (advance((buf2, 0, row, abs), live), acts)
        } else {
            ((buf2, col + 1, row, abs), acts)
        }
    };
    if live && t2.2 >= rows {
        ((t2.0, t2.1, rows - 1, t2.3), acts.push(FbAction::Scroll))
    } else {
        (t2, acts)
    }
}

/// A carriage return only sends the cursor to column 0: history, viewport
/// row and absolute row stay, and nothing is drawn. So CR LF does exactly
/// what LF alone does (no blank line in between).
pub proof fn fb_carriage_return_homes_column(t: FbText, cols: int, rows: int, live: bool)
    requires
        0 <= t.2 < rows,
    ensures
        fb_text_step(t, cols, rows, live, 0x0D) == ((t.0, 0int, t.2, t.3), Seq::<FbAction>::empty()),
        fb_text_step(fb_text_step(t, cols, rows, live, 0x0D).0, cols, rows, live, 0x0A) == fb_text_step(
            t,
            cols,
            rows,
            live,
            0x0A,
        ),
{
}

/// First absolute row a viewport `view` rows back from the tail shows.
pub open spec fn view_start(abs: int, rows: int, view: int) -> int {
    let total = abs + 1;
    let a = if total >= rows + view { total - (rows + view) } else { 0 };
    let b = if total >= 500 { total - 500 } else { 0 };
    if a >= b { a } else { b }
}

/// Character in viewport cell (`r`, `c`).
pub open spec fn shown(buf: Seq<u8>, abs: int, rows: int, view: int, r: int, c: int) -> u8 {
    let a = view_start(abs, rows, view) + r;
    if a < abs + 1 { buf[fcell(a, c)] } else { SPACE }
}

/// Largest viewport offset: as far back as history reaches.
pub open spec fn max_offset(abs: int, rows: int) -> int {
    let a = if abs + 1 >= rows { abs + 1 - rows } else { 0 };
    let b = if 500 >= rows { 500 - rows } else { 0 };
    if a <= b { a } else { b }
}

/// The viewport offset one page (`rows` rows) back (`dir < 0`, never past
/// the oldest row kept) or forward (never past the live tail) from `view`.
pub open spec fn fb_scrolled(view: int, abs: int, rows: int, dir: i8) -> int {
    if dir < 0 {
        let v = view + rows;
        if v <= max_offset(abs, rows) { v } else { max_offset(abs, rows) }
    } else if view >= rows {
        view - rows
    } else {
        0
    }
}

/// From the live tail, one page back then one page forward returns to the
/// tail; paging forward never goes past the tail, paging back never past
/// the oldest row kept.
pub proof fn paging_stays_in_history(view: int, abs: int, rows: int)
    requires
        0 <= view <= max_offset(abs, rows),
        0 <= abs,
        1 <= rows,
    ensures
        fb_scrolled(fb_scrolled(0, abs, rows, -1i8), abs, rows, 1i8) == 0,
        0 <= fb_scrolled(view, abs, rows, 1i8) <= view,
        view <= fb_scrolled(view, abs, rows, -1i8) <= max_offset(abs, rows),
{
}

impl FbConsole {
    pub open spec fn wf(&self) -> bool {
        &&& self.buf@.len() == 100000
        &&& 1 <= self.cols <= 200
        &&& 1 <= self.rows < 0x1000_0000
        &&& self.col < self.cols
        &&& self.row < self.rows
        &&& self.view_offset <= 500
    }

    pub open spec fn text(&self) -> FbText {
        (self.buf@, self.col as int, self.row as int, self.abs_row as int)
    }

    /// Start a new absolute row; move the viewport row only while live.
    fn advance_row(&mut self, live: bool)
        requires
            old(self).buf@.len() == 100000,
            old(self).abs_row + 1 < usize::MAX,
            old(self).row + 1 < usize::MAX,
        ensures
            final(self).text() == advance(old(self).text(), live),
            final(self).cols == old(self).cols && final(self).rows == old(self).rows,
            final(self).view_offset == old(self).view_offset && final(self).esc == old(self).esc,
            final(self).base == old(self).base && final(self).width == old(self).width,
            final(self).height == old(self).height && final(self).pitch == old(self).pitch,
    {
        self.abs_row = self.abs_row + 1;
        let start = (self.abs_row % HISTORY) * MAX_COLS;
        let ghost b0 = self.buf@;
        proof {
            lemma_fcell(self.abs_row as int, 0);
            lemma_fcell(self.abs_row as int, 199);
        }
        let mut c: usize = 0;
        while c < MAX_COLS
            invariant
                self.abs_row == old(self).abs_row + 1,
                self.row == old(self).row && self.col == old(self).col,
                self.cols == old(self).cols && self.rows == old(self).rows,
                self.view_offset == old(self).view_offset && self.esc == old(self).esc,
                self.base == old(self).base && self.width == old(self).width,
                self.height == old(self).height && self.pitch == old(self).pitch,
                b0 == old(self).buf@,
                start == (self.abs_row as int % 500) * 200,
                start + 200 <= 100000,
                self.buf@.len() == 100000,
                b0.len() == 100000,
                c <= 200,
                forall|i: int| 0 <= i < 100000 ==> #[trigger] self.buf@[i] == if start <= i < start + c {
                    SPACE
                } else {
                    b0[i]
                },
            decreases 200 - c,
        {
            self.buf.set(start + c, SPACE);
            c = c + 1;
        }
        if live {
            self.row = self.row + 1;
        }
        assert(self.buf@ =~= blank_row(b0, self.abs_row as int));
    }

    /// Mirror one console byte. Escape sequences are consumed without
    /// effect; other bytes change the text as `fb_text_step` says, and the
    /// returned actions are what the framebuffer needs.
    pub fn put_byte(&mut self, b: u8) -> (acts: Vec<FbAction>)
        requires
            old(self).wf(),
            old(self).abs_row + 2 < usize::MAX,
        ensures
            final(self).wf(),
            final(self).esc == esc_step(old(self).esc, b).0,
            final(self).view_offset == old(self).view_offset,
            final(self).cols == old(self).cols && final(self).rows == old(self).rows,
            final(self).base == old(self).base && final(self).width == old(self).width,
            final(self).height == old(self).height && final(self).pitch == old(self).pitch,
            esc_step(old(self).esc, b).1 ==> (final(self).text(), acts@) == fb_text_step(
                old(self).text(),
                old(self).cols as int,
                old(self).rows as int,
                old(self).view_offset == 0,
                b,
            ),
            !esc_step(old(self).esc, b).1 ==> final(self).text() == old(self).text() && acts@ == Seq::<FbAction>::empty(),
    {
        let mut acts: Vec<FbAction> = Vec::new();
        match self.esc {
            EscState::Normal => {
                if b == 0x1B {
                    self.esc = EscState::SawEsc;
                    return acts;
                }
            },
            EscState::SawEsc => {
                self.esc = if b == 0x5B { EscState::InCsi } else { EscState::Normal };
                return acts;
            },
            EscState::InCsi => {
                if 0x40 <= b && b <= 0x7E {
                    self.esc = EscState::Normal;
                }
                return acts;
            },
        }
        let live = self.view_offset == 0;
        let ghost t0 = self.text();
        if b == 0x0A {
            self.col = 0;
            self.advance_row(live);
        } else if b == 0x0D {
            self.col = 0;
        } else if b == 0x08 {
            if self.col > 0 {
                self.col = self.col - 1;
                proof {
                    lemma_fcell(self.abs_row as int, self.col as int);
                }
                let i = (self.abs_row % HISTORY) * MAX_COLS + self.col;
                self.buf.set(i, SPACE);
                if live {
                    acts.push(FbAction::Draw { row: self.row, col: self.col, ch: SPACE });
                }
            }
        } else {
            proof {
                lemma_fcell(self.abs_row as int, self.col as int);
            }
            let i = (self.abs_row % HISTORY) * MAX_COLS + self.col;
            self.buf.set(i, b);
            if live {
                acts.push(FbAction::Draw { row: self.row, col: self.col, ch: b });
            }
            self.col = self.col + 1;
            if self.col >= self.cols {
                self.col = 0;
                self.advance_row(live);
            }
        }
        if live && self.row >= self.rows {
            acts.push(FbAction::Scroll);
            self.row = self.rows - 1;
        }
        proof {
            assert((self.text(), acts@) == fb_text_step(t0, self.cols as int, self.rows as int, live, b));
        }
        acts
    }

    /// The visible text: `rows` rows of `cols` characters from the window
    /// `view_offset` selects.
    pub fn render(&self) -> (grid: Vec<Vec<u8>>)
        requires
            self.wf(),
            self.abs_row + self.rows + 2 < usize::MAX,
        ensures
            grid@.len() == self.rows,
            forall|r: int| 0 <= r < self.rows ==> #[trigger] grid@[r]@.len() == self.cols,
            forall|r: int, c: int| 0 <= r < self.rows && 0 <= c < self.cols ==> #[trigger] grid@[r]@[c] == shown(
                self.buf@,
                self.abs_row as int,
                self.rows as int,
                self.view_offset as int,
                r,
                c,
            ),
    {
        let total = self.abs_row + 1;
        let a = if total >= self.rows + self.view_offset { total - (self.rows + self.view_offset) } else { 0 };
        let b = if total >= HISTORY { total - HISTORY } else { 0 };
        let start = if a >= b { a } else { b };
        let mut grid: Vec<Vec<u8>> = Vec::new();
        let mut r: usize = 0;
        while r < self.rows
            invariant
                self.wf(),
                self.abs_row + self.rows + 2 < usize::MAX,
                total == self.abs_row + 1,
                start == view_start(self.abs_row as int, self.rows as int, self.view_offset as int),
                start <= total,
                r <= self.rows,
                grid@.len() == r,
                forall|r2: int| 0 <= r2 < r ==> #[trigger] grid@[r2]@.len() == self.cols,
                forall|r2: int, c: int| 0 <= r2 < r && 0 <= c < self.cols ==> #[trigger] grid@[r2]@[c] == shown(
                    self.buf@,
                    self.abs_row as int,
                    self.rows as int,
                    self.view_offset as int,
                    r2,
                    c,
                ),
            decreases self.rows - r,
        {
            let abs = start + r;
            let mut line: Vec<u8> = Vec::new();
            let mut c: usize = 0;
            while c < self.cols
                invariant
                    self.wf(),
                    abs == start + r,
                    total == self.abs_row + 1,
                    start == view_start(self.abs_row as int, self.rows as int, self.view_offset as int),
                    c <= self.cols,
                    line@.len() == c,
                    forall|c2: int| 0 <= c2 < c ==> #[trigger] line@[c2] == shown(
                        self.buf@,
                        self.abs_row as int,
                        self.rows as int,
                        self.view_offset as int,
                        r as int,
                        c2,
                    ),
                decreases self.cols - c,
            {
                let ch = if abs < total {
                    proof {
                        lemma_fcell(abs as int, c as int);
                    }
                    self.buf[(abs % HISTORY) * MAX_COLS + c]
                } else {
                    SPACE
                };
                line.push(ch);
                c = c + 1;
            }
            grid.push(line);
            r = r + 1;
        }
        grid
    }

    /// Scroll the viewport one page back into history (`dir < 0`) or toward
    /// the tail (`dir > 0`), and return what it now shows. Back at the tail,
    /// the live row resyncs to `min(abs_row, rows - 1)`.
    pub fn scroll_view(&mut self, dir: i8) -> (grid: Vec<Vec<u8>>)
        requires
            old(self).wf(),
            old(self).abs_row + old(self).rows + 2 < usize::MAX,
        ensures
            final(self).wf(),
            final(self).view_offset == fb_scrolled(
                old(self).view_offset as int,
                old(self).abs_row as int,
                old(self).rows as int,
                dir,
            ),
            final(self).row == if final(self).view_offset == 0 {
                if old(self).abs_row < old(self).rows - 1 { old(self).abs_row } else { (old(self).rows - 1) as usize }
            } else {
                old(self).row
            },
            final(self).buf@ == old(self).buf@ && final(self).col == old(self).col,
            final(self).abs_row == old(self).abs_row && final(self).esc == old(self).esc,
            final(self).cols == old(self).cols && final(self).rows == old(self).rows,
            final(self).base == old(self).base && final(self).width == old(self).width,
            final(self).height == old(self).height && final(self).pitch == old(self).pitch,
            grid@.len() == final(self).rows,
            forall|r: int| 0 <= r < final(self).rows ==> #[trigger] grid@[r]@.len() == final(self).cols,
            forall|r: int, c: int| 0 <= r < final(self).rows && 0 <= c < final(self).cols ==> #[trigger] grid@[r]@[c]
                == shown(final(self).buf@, final(self).abs_row as int, final(self).rows as int, final(self).view_offset as int, r, c),
    {
        let total = self.abs_row + 1;
        let a = if total >= self.rows { total - self.rows } else { 0 };
        let b = if HISTORY >= self.rows { HISTORY - self.rows } else { 0 };
        let max_off = if a <= b { a } else { b };
        if dir < 0 {
            let v = self.view_offset + self.rows;
            self.view_offset = if v <= max_off { v } else { max_off };
        } else {
            self.view_offset = if self.view_offset >= self.rows { self.view_offset - self.rows } else { 0 };
        }
        if self.view_offset == 0 {
            self.row = if self.abs_row < self.rows - 1 { self.abs_row } else { self.rows - 1 };
        }
        self.render()
    }
}

/// Address of the 32-bit pixel `(x, y)` of a framebuffer at `base` of
/// `width` x `height` pixels, `pitch` bytes per line; `None` off screen,
/// where nothing is drawn.
pub fn pixel_addr(base: u64, width: u32, height: u32, pitch: u32, x: u32, y: u32) -> (r: Option<u64>)
    requires
        base + (height as int) * (pitch as int) <= u64::MAX,
        4 * (width as int) <= pitch,
    ensures
        r == if x < width && y < height {
            Some((base + (y as int) * (pitch as int) + 4 * (x as int)) as u64)
        } else {
            None::<u64>
        },
{
    if x >= width || y >= height {
        return None;
    }
    assert((y as int) * (pitch as int) + 4 * (x as int) < (height as int) * (pitch as int)) by (nonlinear_arith)
        requires
            x < width,
            y < height,
            4 * (width as int) <= pitch,
    {
        assert((y as int) * (pitch as int) + (pitch as int) == (y as int + 1) * (pitch as int));
        assert((y as int + 1) * (pitch as int) <= (height as int) * (pitch as int));
    }
    let off = (y as u64) * (pitch as u64) + 4 * (x as u64);
    Some(base + off)
}

/// Take over a framebuffer of `width` x `height` pixels, `pitch` bytes per
/// line, at `base`: as many 18x24 cells as fit (at most `MAX_COLS` across),
/// an empty history, the cursor home. `None` when not one cell fits. The
/// caller clears the framebuffer.
pub fn init(base: u64, width: u32, height: u32, pitch: u32) -> (r: Option<FbConsole>)
    ensures
        match r {
            None => width / CELL_W == 0 || height / CELL_H == 0,
            Some(c) => {
                &&& width / CELL_W != 0 && height / CELL_H != 0
                &&& c.wf()
                &&& c.cols == (if width / CELL_W <= 200 { width / CELL_W } else { 200 })
                &&& c.rows == height / CELL_H
                &&& c.buf@ == Seq::new(100000, |i: int| SPACE)
                &&& c.col == 0 && c.row == 0 && c.abs_row == 0 && c.view_offset == 0
                &&& c.esc == EscState::Normal
                &&& c.base == base && c.width == width && c.height == height && c.pitch == pitch
            },
        },
{
    let wc = width / CELL_W;
    let cols: usize = if wc <= 200 { wc as usize } else { MAX_COLS };
    let rows: usize = (height / CELL_H) as usize;
    if cols == 0 || rows == 0 {
        return None;
    }
    let mut buf: Vec<u8> = Vec::new();
    let mut i: usize = 0;
    while i < BUF_LEN
        invariant
            i <= 100000,
            buf@.len() == i,
            forall|k: int| 0 <= k < i ==> #[trigger] buf@[k] == SPACE,
        decreases 100000 - i,
    {
        buf.push(SPACE);
        i = i + 1;
    }
    assert(buf@ =~= Seq::new(100000, |i: int| SPACE));
    Some(FbConsole {
        base,
        width,
        height,
        pitch,
        cols,
        rows,
        buf,
        col: 0,
        row: 0,
        abs_row: 0,
        view_offset: 0,
        esc: EscState::Normal,
    })
}

} // verus!
