//! The LCD text console: a character ring fed by printing, and a terminal
//! state machine (text grid, cursor, per-row dirty flags) that the renderer
//! reads.

use vstd::prelude::*;
use crate::data_type::queue::Queue;

verus! {

/// Glyph width in pixels.
pub const FONT_W: usize = 6;

/// Glyph height in pixels.
pub const FONT_H: usize = 12;

/// Panel width in pixels.
pub const LCD_WIDTH: usize = 320;

/// Panel height in pixels.
pub const LCD_HEIGHT: usize = 172;

/// Height of a text row in pixels (the glyph plus spacing).
pub const ROW_H: usize = 14;

/// Left margin in pixels.
pub const MARGIN_LEFT: usize = 10;

/// Top margin in pixels.
pub const MARGIN_TOP: usize = 10;

/// Text columns that fit the panel.
pub const TERM_COLS: usize = (LCD_WIDTH - MARGIN_LEFT) / FONT_W;

/// Text rows that fit the panel.
pub const TERM_ROWS: usize = (LCD_HEIGHT - MARGIN_TOP) / ROW_H;

/// Capacity of the character ring.
pub const CHAR_BUF_SIZE: usize = 2048;

/// Snapshot of the terminal: rows of text, used length of each row, cursor
/// row and column, and dirty flags.
pub type TermModel = (Seq<Seq<u8>>, Seq<u8>, int, int, Seq<bool>);

/// A blank row.
pub open spec fn blank_row() -> Seq<u8> {
    Seq::new(TERM_COLS as nat, |i: int| 0x20u8)
}

/// Every row moves up one, the last row is blank and every row is dirty.
pub open spec fn scrolled(t: TermModel) -> TermModel {
    (
        t.0.subrange(1, TERM_ROWS as int).push(blank_row()),
        t.1.subrange(1, TERM_ROWS as int).push(0u8),
        t.2,
        t.3,
        Seq::new(TERM_ROWS as nat, |i: int| true),
    )
}

/// Line feed: the cursor moves to the start of the next row, scrolling at
/// the last row; the cursor row is dirty.
pub open spec fn newline_model(t: TermModel) -> TermModel {
    let t1 = if t.2 < TERM_ROWS - 1 {
        (t.0, t.1, t.2 + 1, 0, t.4)
    } else {
        let s = scrolled(t);
        (s.0, s.1, s.2, 0, s.4)
    };
    (t1.0, t1.1, t1.2, t1.3, t1.4.update(t1.2, true))
}

/// A printable byte: wraps to a new line at the right edge, is written at
/// the cursor, the cursor advances, the row's used length covers it and the
/// row is dirty.
pub open spec fn put_char_model(t: TermModel, c: u8) -> TermModel {
    let t1 = if t.3 >= TERM_COLS { newline_model(t) } else { t };
    let r = t1.2;
    let col = t1.3;
    (
        t1.0.update(r, t1.0[r].update(col, c)),
        if col + 1 > t1.1[r] { t1.1.update(r, (col + 1) as u8) } else { t1.1 },
        r,
        col + 1,
        t1.4.update(r, true),
    )
}

/// Backspace: away from the row start, the cursor moves back, that cell is
/// blanked, the used length shrinks to the cursor and the row is dirty.
pub open spec fn backspace_model(t: TermModel) -> TermModel {
    if t.3 > 0 {
        let r = t.2;
        let col = t.3 - 1;
        (
            t.0.update(r, t.0[r].update(col, 0x20u8)),
            if col < t.1[r] { t.1.update(r, col as u8) } else { t.1 },
            r,
            col,
            t.4.update(r, true),
        )
    } else {
        t
    }
}

/// One byte of output: line feed, carriage return (cursor to the row start),
/// backspace or delete, a printable byte (0x20 and above), or ignored.
pub open spec fn feed_model(t: TermModel, c: u8) -> TermModel {
    if c == 0x0A {
        newline_model(t)
    } else if c == 0x0D {
        (t.0, t.1, t.2, 0, t.4)
    } else if c == 0x08 || c == 0x7F {
        backspace_model(t)
    } else if c >= 0x20 {
        put_char_model(t, c)
    } else {
        t
    }
}

/// Number of `true` entries of `s`.
pub open spec fn count_true(s: Seq<bool>) -> nat
    decreases s.len(),
{
    if s.len() == 0 {
        0
    } else {
        count_true(s.drop_last()) + (if s.last() { 1nat } else { 0nat })
    }
}

/// The terminal state machine.
pub struct Terminal {
    screen: Vec<Vec<u8>>,
    lens: Vec<u8>,
    cursor_row: usize,
    cursor_col: usize,
    dirty: Vec<bool>,
}

impl Terminal {
    /// The current snapshot.
    pub closed spec fn model(&self) -> TermModel {
        (
            Seq::new(TERM_ROWS as nat, |i: int| self.screen@[i]@),
            self.lens@,
            self.cursor_row as int,
            self.cursor_col as int,
            self.dirty@,
        )
    }

    /// Grid of `TERM_ROWS` rows of `TERM_COLS` cells; the cursor row is on
    /// screen, the cursor column at most `TERM_COLS`, and no row is used past
    /// `TERM_COLS`.
    pub closed spec fn wf(&self) -> bool {
        &&& self.screen@.len() == TERM_ROWS
        &&& forall|i: int| 0 <= i < TERM_ROWS ==> (#[trigger] self.screen@[i])@.len() == TERM_COLS
        &&& self.lens@.len() == TERM_ROWS
        &&& forall|i: int| 0 <= i < TERM_ROWS ==> #[trigger] self.lens@[i] <= TERM_COLS
        &&& self.dirty@.len() == TERM_ROWS
        &&& self.cursor_row < TERM_ROWS
        &&& self.cursor_col <= TERM_COLS
    }

    /// A blank screen with the cursor at the top left and nothing dirty.
    pub fn new() -> (r: Self)
        ensures
            r.wf(),
            r.model() == (
                Seq::new(TERM_ROWS as nat, |i: int| blank_row()),
                Seq::new(TERM_ROWS as nat, |i: int| 0u8),
                0int,
                0int,
                Seq::new(TERM_ROWS as nat, |i: int| false),
            ),
    {
        let mut screen: Vec<Vec<u8>> = Vec::new();
        let mut lens: Vec<u8> = Vec::new();
        let mut dirty: Vec<bool> = Vec::new();
        let mut i: usize = 0;
        while i < TERM_ROWS
            invariant
                i <= TERM_ROWS,
                screen@.len() == i,
                lens@.len() == i,
                dirty@.len() == i,
                forall|j: int| 0 <= j < i ==> (#[trigger] screen@[j])@ == blank_row(),
                forall|j: int| 0 <= j < i ==> #[trigger] lens@[j] == 0u8,
                forall|j: int| 0 <= j < i ==> !#[trigger] dirty@[j],
            decreases TERM_ROWS - i,
        {
            let row: Vec<u8> = vec![0x20u8; TERM_COLS];
            assert(row@ =~= blank_row());
            screen.push(row);
            lens.push(0);
            dirty.push(false);
            i = i + 1;
        }
        let r = Terminal { screen, lens, cursor_row: 0, cursor_col: 0, dirty };
        assert(r.model().0 =~= Seq::new(TERM_ROWS as nat, |i: int| blank_row()));
        assert(r.model().1 =~= Seq::new(TERM_ROWS as nat, |i: int| 0u8));
        assert(r.model().4 =~= Seq::new(TERM_ROWS as nat, |i: int| false));
        r
    }

    /// Feeds one byte of output (see [`feed_model`]).
    pub fn feed(&mut self, c: u8)
        requires
            old(self).wf(),
        ensures
            final(self).wf(),
            final(self).model() == feed_model(old(self).model(), c),
    {
        if c == 0x0A {
            self.newline();
        } else if c == 0x0D {
            self.cursor_col = 0;
        } else if c == 0x08 || c == 0x7F {
            self.backspace();
        } else if c >= 0x20 {
            self.put_char(c);
        }
    }

    /// Writes a printable byte (see [`put_char_model`]).
    pub fn put_char(&mut self, c: u8)
        requires
            old(self).wf(),
        ensures
            final(self).wf(),
            final(self).model() == put_char_model(old(self).model(), c),
    {
        if self.cursor_col >= TERM_COLS {
            self.newline();
        }
        let ghost mid = self.model();
        let r = self.cursor_row;
        let col = self.cursor_col;
        self.screen[r].set(col, c);
        self.cursor_col = col + 1;
        if self.cursor_col > self.lens[r] as usize {
            self.lens.set(r, self.cursor_col as u8);
        }
        self.dirty.set(r, true);
        proof {
            assert(self.model().0 =~= mid.0.update(r as int, mid.0[r as int].update(col as int, c)));
        }
    }

    /// Line feed (see [`newline_model`]).
    pub fn newline(&mut self)
        requires
            old(self).wf(),
        ensures
            final(self).wf(),
            final(self).model() == newline_model(old(self).model()),
    {
        self.cursor_col = 0;
        if self.cursor_row < TERM_ROWS - 1 {
            self.cursor_row = self.cursor_row + 1;
        } else {
            self.scroll_up();
        }
        let r = self.cursor_row;
        self.dirty.set(r, true);
    }

    /// Backspace (see [`backspace_model`]).
    pub fn backspace(&mut self)
        requires
            old(self).wf(),
        ensures
            final(self).wf(),
            final(self).model() == backspace_model(old(self).model()),
    {
        if self.cursor_col > 0 {
            let r = self.cursor_row;
            let col = self.cursor_col - 1;
            self.cursor_col = col;
            self.screen[r].set(col, 0x20u8);
            if col < self.lens[r] as usize {
                self.lens.set(r, col as u8);
            }
            self.dirty.set(r, true);
            proof {
                assert(self.model().0 =~= old(self).model().0.update(
                    r as int,
                    old(self).model().0[r as int].update(col as int, 0x20u8),
                ));
            }
        }
    }

    /// Scrolls the text up one row (see [`scrolled`]).
    pub fn scroll_up(&mut self)
        requires
            old(self).wf(),
        ensures
            final(self).wf(),
            final(self).model() == scrolled(old(self).model()),
    {
        let _ = self.screen.remove(0);
        let row: Vec<u8> = vec![0x20u8; TERM_COLS];
        assert(row@ =~= blank_row());
        self.screen.push(row);
        let _ = self.lens.remove(0);
        self.lens.push(0);
        let ghost sc = self.screen;
        let ghost ln = self.lens;
        let ghost cr = self.cursor_row;
        let ghost cc = self.cursor_col;
        let mut i: usize = 0;
        while i < TERM_ROWS
            invariant
                i <= TERM_ROWS,
                self.screen == sc,
                self.lens == ln,
                self.cursor_row == cr,
                self.cursor_col == cc,
                self.dirty@.len() == TERM_ROWS,
                forall|j: int| 0 <= j < i ==> #[trigger] self.dirty@[j],
            decreases TERM_ROWS - i,
        {
            self.dirty.set(i, true);
            i = i + 1;
        }
        proof {
            assert(self.model().0 =~= scrolled(old(self).model()).0);
            assert(self.model().1 =~= scrolled(old(self).model()).1);
            assert(self.model().4 =~= scrolled(old(self).model()).4);
        }
    }

    /// Number of dirty rows.
    pub fn dirty_count(&self) -> (r: usize)
        requires
            self.wf(),
        ensures
            r == count_true(self.model().4),
    {
        let mut n: usize = 0;
        let mut i: usize = 0;
        while i < TERM_ROWS
            invariant
                self.wf(),
                i <= TERM_ROWS,
                n == count_true(self.dirty@.take(i as int)),
                n <= i,
            decreases TERM_ROWS - i,
        {
            proof {
                assert(self.dirty@.take(i + 1).drop_last() =~= self.dirty@.take(i as int));
            }
            if self.dirty[i] {
                n = n + 1;
            }
            i = i + 1;
        }
        proof {
            assert(self.dirty@.take(TERM_ROWS as int) =~= self.dirty@);
        }
        n
    }

    /// Clears every dirty flag.
    pub fn clear_dirty(&mut self)
        requires
            old(self).wf(),
        ensures
            final(self).wf(),
            final(self).model() == (
                old(self).model().0,
                old(self).model().1,
                old(self).model().2,
                old(self).model().3,
                Seq::new(TERM_ROWS as nat, |i: int| false),
            ),
    {
        let mut i: usize = 0;
        while i < TERM_ROWS
            invariant
                i <= TERM_ROWS,
                self.screen == old(self).screen,
                self.lens == old(self).lens,
                self.cursor_row == old(self).cursor_row,
                self.cursor_col == old(self).cursor_col,
                self.dirty@.len() == TERM_ROWS,
                forall|j: int| 0 <= j < i ==> !#[trigger] self.dirty@[j],
            decreases TERM_ROWS - i,
        {
            self.dirty.set(i, false);
            i = i + 1;
        }
        assert(self.dirty@ =~= Seq::new(TERM_ROWS as nat, |i: int| false));
    }

    /// Whether the refresh should redraw the whole screen: more than half the
    /// rows are dirty (as after a scroll); otherwise only dirty rows are redrawn.
    pub fn needs_full_refresh(&self) -> (r: bool)
        requires
            self.wf(),
        ensures
            r == (count_true(self.model().4) > TERM_ROWS / 2),
    {
        self.dirty_count() > TERM_ROWS / 2
    }

    /// Whether row `row` is dirty.
    pub fn is_dirty(&self, row: usize) -> (r: bool)
        requires
            self.wf(),
            row < TERM_ROWS,
        ensures
            r == self.model().4[row as int],
    {
        self.dirty[row]
    }

    /// The used text of row `row`.
    pub fn row_text(&self, row: usize) -> (r: Vec<u8>)
        requires
            self.wf(),
            row < TERM_ROWS,
        ensures
            r@ == self.model().0[row as int].subrange(0, self.model().1[row as int] as int),
    {
        let n = self.lens[row] as usize;
        let mut out: Vec<u8> = Vec::new();
        let mut j: usize = 0;
        while j < n
            invariant
                self.wf(),
                row < TERM_ROWS,
                n == self.lens@[row as int],
                n <= TERM_COLS,
                j <= n,
                out@ == self.screen@[row as int]@.subrange(0, j as int),
            decreases n - j,
        {
            out.push(self.screen[row][j]);
            j = j + 1;
            proof {
                assert(out@ =~= self.screen@[row as int]@.subrange(0, j as int));
            }
        }
        out
    }
}

/// Top pixel line of text row `row`.
pub fn row_top(row: usize) -> (r: usize)
    requires
        MARGIN_TOP + row * ROW_H + ROW_H - 1 <= u16::MAX,
    ensures
        r == MARGIN_TOP + row * ROW_H,
{
    MARGIN_TOP + row * ROW_H
}

/// Top pixel line of the glyphs of text row `row`, centred in the row.
pub fn row_text_top(row: usize) -> (r: usize)
    requires
        MARGIN_TOP + row * ROW_H + ROW_H - 1 <= u16::MAX,
    ensures
        r == MARGIN_TOP + row * ROW_H + (ROW_H - FONT_H) / 2,
{
    row_top(row) + (ROW_H - FONT_H) / 2
}

/// The pixels of text row `row` in a row-major frame of the panel: the first
/// index and the index past the last, when the whole row lies on the panel;
/// `None` for a row past the panel. The row's pixel lines must fit 16 bits.
pub fn row_band(row: usize) -> (r: Option<(usize, usize)>)
    requires
        MARGIN_TOP + row * ROW_H + ROW_H - 1 <= u16::MAX,
    ensures
        ({
            let top = MARGIN_TOP + row * ROW_H;
            let bottom = top + ROW_H - 1;
            &&& bottom < LCD_HEIGHT ==> (r matches Some((a, b)) && a == top * LCD_WIDTH && b == (bottom + 1)
                * LCD_WIDTH)
            &&& bottom >= LCD_HEIGHT ==> r is None
        }),
{
    let top = row_top(row);
    let bottom = top + ROW_H - 1;
    if bottom >= LCD_HEIGHT {
        return None;
    }
    Some((top * LCD_WIDTH, (bottom + 1) * LCD_WIDTH))
}

/// Ring of bytes waiting to be shown; bytes arriving when it is full are dropped.
pub struct CharRing {
    ring: Queue<u8, CHAR_BUF_SIZE>,
}

impl CharRing {
    /// The ring is well formed.
    pub closed spec fn wf(&self) -> bool {
        self.ring.wf()
    }

    /// The pending bytes, oldest first.
    pub closed spec fn pending(&self) -> Seq<u8> {
        self.ring@
    }

    /// An empty ring.
    pub fn new() -> (r: Self)
        ensures
            r.wf(),
            r.pending() == Seq::<u8>::empty(),
    {
        CharRing { ring: Queue::new() }
    }

    /// Appends `c` unless the ring is full.
    pub fn push(&mut self, c: u8)
        requires
            old(self).wf(),
        ensures
            final(self).wf(),
            final(self).pending() == (if old(self).pending().len() < CHAR_BUF_SIZE {
                old(self).pending().push(c)
            } else {
                old(self).pending()
            }),
    {
        let _ = self.ring.push(c);
    }

    /// Moves the oldest pending bytes into `out`, as many as fit, and returns
    /// how many were moved.
    pub fn drain(&mut self, out: &mut [u8]) -> (n: usize)
        requires
            old(self).wf(),
        ensures
            final(self).wf(),
            n == vstd::math::min(old(self).pending().len() as int, old(out)@.len() as int),
            final(self).pending() == old(self).pending().subrange(n as int, old(self).pending().len() as int),
            final(out)@.len() == old(out)@.len(),
            forall|i: int| 0 <= i < n ==> #[trigger] final(out)@[i] == old(self).pending()[i],
            forall|i: int| n <= i < old(out)@.len() ==> #[trigger] final(out)@[i] == old(out)@[i],
    {
        let len = self.ring.size();
        let cap = out.len();
        let n = if len < cap { len } else { cap };
        let mut i: usize = 0;
        while i < n
            invariant
                self.wf(),
                n <= old(self).pending().len(),
                n <= out@.len(),
                out@.len() == old(out)@.len(),
                i <= n,
                self.pending() == old(self).pending().subrange(i as int, old(self).pending().len() as int),
                forall|j: int| 0 <= j < i ==> #[trigger] out@[j] == old(self).pending()[j],
                forall|j: int| n <= j < old(out)@.len() ==> #[trigger] out@[j] == old(out)@[j],
            decreases n - i,
        {
            let c = match self.ring.serve() {
                Some(c) => c,
                None => 0u8,
            };
            out[i] = c;
            i = i + 1;
            proof {
                assert(self.pending() =~= old(self).pending().subrange(i as int, old(self).pending().len() as int));
            }
        }
        n
    }
}

/// A printable byte fed with room on the row appears at the cursor, the
/// cursor moves one column right, and the other rows are untouched.
pub proof fn law_terminal_print(t: TermModel, c: u8)
    requires
        0 <= t.2 < TERM_ROWS,
        0 <= t.3 < TERM_COLS,
        t.0.len() == TERM_ROWS,
        t.0[t.2].len() == TERM_COLS,
        t.4.len() == TERM_ROWS,
        c >= 0x20,
        c != 0x7F,
    ensures
        ({
            let u = feed_model(t, c);
            &&& u.0[t.2][t.3] == c
            &&& u.2 == t.2
            &&& u.3 == t.3 + 1
            &&& u.4[t.2]
            &&& forall|r: int| 0 <= r < TERM_ROWS && r != t.2 ==> #[trigger] u.0[r] == t.0[r]
        }),
{
}

/// A line feed on the last row scrolls: each row takes the text of the row
/// below, the last row is blank, and the cursor stays on the last row.
pub proof fn law_terminal_scroll(t: TermModel)
    requires
        t.2 == TERM_ROWS - 1,
        t.0.len() == TERM_ROWS,
        t.1.len() == TERM_ROWS,
    ensures
        ({
            let u = feed_model(t, 0x0Au8);
            &&& u.2 == TERM_ROWS - 1
            &&& u.3 == 0
            &&& u.0[TERM_ROWS - 1] == blank_row()
            &&& forall|r: int| 0 <= r < TERM_ROWS - 1 ==> #[trigger] u.0[r] == t.0[r + 1]
        }),
{
}

/// Delete (0x7F) does to the terminal exactly what backspace (0x08) does.
pub proof fn law_delete_is_backspace(t: TermModel)
    ensures
        feed_model(t, 0x7Fu8) == feed_model(t, 0x08u8),
{
}

/// Typing a printable byte and then deleting it (with room on the row)
/// leaves the cursor where it was, blanks that cell, ends the row's text at
/// the cursor and leaves the other cells and rows as they were.
pub proof fn law_type_then_delete(t: TermModel, c: u8, del: u8)
    requires
        0 <= t.2 < TERM_ROWS,
        0 <= t.3 < TERM_COLS,
        t.0.len() == TERM_ROWS,
        t.0[t.2].len() == TERM_COLS,
        t.1.len() == TERM_ROWS,
        t.4.len() == TERM_ROWS,
        0x20 <= c < 0x7F,
        del == 0x08 || del == 0x7F,
    ensures
        ({
            let u = feed_model(feed_model(t, c), del);
            &&& u.2 == t.2
            &&& u.3 == t.3
            &&& u.0[t.2][t.3] == 0x20u8
            &&& u.1[t.2] == t.3
            &&& forall|k: int| 0 <= k < TERM_COLS && k != t.3 ==> #[trigger] u.0[t.2][k] == t.0[t.2][k]
            &&& forall|r: int| 0 <= r < TERM_ROWS && r != t.2 ==> #[trigger] u.0[r] == t.0[r] && u.1[r] == t.1[r]
        }),
{
}

} // verus!
