use vstd::prelude::*;
use crate::digits::{decimal_bytes, decimal_bytes_of};
use crate::sgr::{apply_sgr, applied_sgr, param_or, param_value_or, params_view};

verus! {

/// The number of lines that scroll off the top of the screen and are kept.
pub const MAX_SCROLLBACK_LINES: usize = 1000;

/// A color as the terminal stores it: one of the two colors the terminal
/// was created with, or an explicit 24-bit color.
#[derive(Clone, Copy, Debug, PartialEq, Eq, Structural)]
pub enum TermColor {
    DefaultFg,
    DefaultBg,
    Rgb(u8, u8, u8),
}

/// One character cell of the screen with its rendition.
/// `fg_dimmed` marks a foreground drawn at reduced intensity.
#[derive(Clone, Copy, Debug, PartialEq, Eq, Structural)]
pub struct TerminalCell {
    pub ch: char,
    pub fg: TermColor,
    pub fg_dimmed: bool,
    pub bg: TermColor,
    pub bold: bool,
    pub italic: bool,
    pub underline: bool,
    pub strikethrough: bool,
}

/// The graphic rendition that new characters are written with.
#[derive(Clone, Copy, Debug, PartialEq, Eq, Structural)]
pub struct Pen {
    pub fg: TermColor,
    pub bg: TermColor,
    pub bold: bool,
    pub dim: bool,
    pub italic: bool,
    pub underline: bool,
    pub inverse: bool,
    pub strikethrough: bool,
}

/// The mathematical state of a terminal: screen and scrollback as sequences
/// of rows, cursor, pen, saved cursor, and the replies owed to the program.
pub struct TermModel {
    pub screen: Seq<Seq<TerminalCell>>,
    pub scrollback: Seq<Seq<TerminalCell>>,
    pub cursor_row: nat,
    pub cursor_col: nat,
    pub cols: nat,
    pub rows: nat,
    pub dark_background: bool,
    pub pen: Pen,
    pub saved_row: nat,
    pub saved_col: nat,
    pub saved_pen: Pen,
    pub responses: Seq<Seq<u8>>,
}

pub open spec fn default_pen() -> Pen {
    Pen {
        fg: TermColor::DefaultFg,
        bg: TermColor::DefaultBg,
        bold: false,
        dim: false,
        italic: false,
        underline: false,
        inverse: false,
        strikethrough: false,
    }
}

pub open spec fn blank_cell() -> TerminalCell {
    TerminalCell {
        ch: ' ',
        fg: TermColor::DefaultFg,
        fg_dimmed: false,
        bg: TermColor::DefaultBg,
        bold: false,
        italic: false,
        underline: false,
        strikethrough: false,
    }
}

pub open spec fn blank_row(cols: nat) -> Seq<TerminalCell> {
    Seq::new(cols, |j: int| blank_cell())
}

pub open spec fn blank_rows(n: nat, cols: nat) -> Seq<Seq<TerminalCell>> {
    Seq::new(n, |i: int| blank_row(cols))
}

/// The cell that writing `ch` with `pen` produces: inverse video swaps the
/// colors, and dim applies to whichever color ends up in front.
pub open spec fn pen_cell(pen: Pen, ch: char) -> TerminalCell {
    TerminalCell {
        ch,
        fg: if pen.inverse { pen.bg } else { pen.fg },
        fg_dimmed: pen.dim,
        bg: if pen.inverse { pen.fg } else { pen.bg },
        bold: pen.bold,
        italic: pen.italic,
        underline: pen.underline,
        strikethrough: pen.strikethrough,
    }
}

/// The last `n` items of `s` (all of them when there are fewer).
pub open spec fn last_n<A>(s: Seq<A>, n: nat) -> Seq<A> {
    if s.len() <= n {
        s
    } else {
        s.subrange(s.len() - n, s.len() as int)
    }
}

pub open spec fn min_nat(a: nat, b: nat) -> nat {
    if a <= b {
        a
    } else {
        b
    }
}

pub open spec fn sat_sub(a: nat, b: nat) -> nat {
    if a >= b {
        (a - b) as nat
    } else {
        0
    }
}

impl TermModel {
    /// Screen and scrollback rows all have the terminal's width, the screen has
    /// its height, the cursor stands on a row of the screen and at most one
    /// column past its last column, and the scrollback is bounded.
    pub open spec fn wf(self) -> bool {
        &&& self.cols >= 1
        &&& self.rows >= 1
        &&& self.screen.len() == self.rows
        &&& forall|r: int| 0 <= r < self.screen.len() ==> (#[trigger] self.screen[r]).len() == self.cols
        &&& self.scrollback.len() <= MAX_SCROLLBACK_LINES
        &&& forall|r: int|
            0 <= r < self.scrollback.len() ==> (#[trigger] self.scrollback[r]).len() == self.cols
        &&& self.cursor_row < self.rows
        &&& self.cursor_col <= self.cols
    }

    /// Scrolling `count` lines: the screen shows the last rows of everything
    /// written so far followed by `count` blank lines, and the lines above it
    /// go to the scrollback, of which the newest are kept.
    pub open spec fn scrolled(self, count: nat) -> TermModel {
        let all = self.scrollback + self.screen + blank_rows(count, self.cols);
        let cut = all.len() - self.screen.len();
        TermModel {
            screen: all.subrange(cut, all.len() as int),
            scrollback: last_n(all.subrange(0, cut), MAX_SCROLLBACK_LINES as nat),
            cursor_row: min_nat(self.cursor_row, sat_sub(self.rows, 1)),
            ..self
        }
    }

    pub open spec fn line_feed(self) -> TermModel {
        if self.cursor_row + 1 >= self.rows {
            self.scrolled(1)
        } else {
            TermModel { cursor_row: self.cursor_row + 1, ..self }
        }
    }

    /// Writing one character: newline moves down (scrolling at the bottom),
    /// carriage return goes to the first column, and any other character is
    /// stored under the cursor with the current pen, after wrapping to the
    /// next line when the cursor stands past the last column.
    pub open spec fn put_char(self, ch: char) -> TermModel {
        if ch == '\n' {
            self.line_feed()
        } else if ch == '\r' {
            TermModel { cursor_col: 0, ..self }
        } else {
            let m = if self.cursor_col >= self.cols {
                TermModel { cursor_col: 0, ..self }.line_feed()
            } else {
                self
            };
            TermModel {
                screen: m.screen.update(
                    m.cursor_row as int,
                    m.screen[m.cursor_row as int].update(m.cursor_col as int, pen_cell(m.pen, ch)),
                ),
                cursor_col: m.cursor_col + 1,
                ..m
            }
        }
    }

    /// Erasing in the cursor's line: from the cursor to the end (0), from the
    /// start through the cursor (1), or the whole line (2); other modes do nothing.
    pub open spec fn cleared_line(self, mode: u8) -> TermModel {
        let r = self.cursor_row as int;
        let c = self.cursor_col as int;
        let row = self.screen[r];
        if mode <= 2 {
            TermModel {
                screen: self.screen.update(
                    r,
                    Seq::new(
                        row.len(),
                        |j: int|
                            if (mode == 0 && j >= c) || (mode == 1 && j <= c) || mode == 2 {
                                blank_cell()
                            } else {
                                row[j]
                            },
                    ),
                ),
                ..self
            }
        } else {
            self
        }
    }

    /// The screen with every row `i` for which `pick(i)` holds made blank.
    pub open spec fn blanked_rows(self, pick: spec_fn(int) -> bool) -> TermModel {
        TermModel {
            screen: Seq::new(
                self.screen.len(),
                |i: int| if pick(i) { blank_row(self.screen[i].len()) } else { self.screen[i] },
            ),
            ..self
        }
    }

    /// Erasing in the display: below the cursor and the rest of its line (0),
    /// above the cursor and its line through the cursor (1), everything with
    /// the cursor going home (2), or the scrollback (3).
    pub open spec fn cleared_screen(self, mode: u8) -> TermModel {
        let r = self.cursor_row as int;
        if mode == 0 {
            self.blanked_rows(|i: int| i > r).cleared_line(0)
        } else if mode == 1 {
            self.blanked_rows(|i: int| i < r).cleared_line(1)
        } else if mode == 2 {
            self.blanked_rows(|i: int| true).moved_to(0, 0)
        } else if mode == 3 {
            TermModel { scrollback: Seq::empty(), ..self }
        } else {
            self
        }
    }

    /// Inserting `n` blank lines at the cursor: the lines from the cursor
    /// down move down and those pushed past the bottom are lost.
    pub open spec fn inserted_lines(self, n: nat) -> TermModel {
        let r = self.cursor_row as int;
        let k = min_nat(n, sat_sub(self.rows, self.cursor_row));
        TermModel {
            screen: self.screen.subrange(0, r) + blank_rows(k, self.cols) + self.screen.subrange(
                r,
                self.rows - k,
            ),
            ..self
        }
    }

    /// Deleting `n` lines at the cursor: the lines below move up and blank
    /// lines fill the bottom.
    pub open spec fn deleted_lines(self, n: nat) -> TermModel {
        let r = self.cursor_row as int;
        let k = min_nat(n, sat_sub(self.rows, self.cursor_row));
        TermModel {
            screen: self.screen.subrange(0, r) + self.screen.subrange(r + k, self.rows as int)
                + blank_rows(k, self.cols),
            ..self
        }
    }

    /// One step of `CSI T`: a blank line is inserted at the cursor (the
    /// bottom line is lost) and the cursor moves up one line.
    pub open spec fn reverse_step(self) -> TermModel {
        let r = self.cursor_row as int;
        TermModel {
            screen: (self.screen.subrange(0, r) + seq![blank_row(self.cols)] + self.screen.subrange(
                r,
                self.screen.len() as int,
            )).subrange(0, self.rows as int),
            cursor_row: (self.cursor_row - 1) as nat,
            ..self
        }
    }

    /// `CSI n T`: `n` steps, stopping once the cursor is on the top line.
    pub open spec fn reversed_lines(self, n: nat) -> TermModel
        decreases n,
    {
        if n == 0 || self.cursor_row == 0 {
            self
        } else {
            self.reverse_step().reversed_lines((n - 1) as nat)
        }
    }

    /// A C0 control byte: newline, carriage return, tab (four spaces) and
    /// backspace; other bytes are ignored.
    pub open spec fn executed(self, byte: u8) -> TermModel {
        if byte == 10 {
            self.put_char('\n')
        } else if byte == 13 {
            self.put_char('\r')
        } else if byte == 9 {
            self.put_char(' ').put_char(' ').put_char(' ').put_char(' ')
        } else if byte == 8 {
            TermModel { cursor_col: sat_sub(self.cursor_col, 1), ..self }
        } else {
            self
        }
    }

    /// Moving the cursor clamps it to the screen.
    pub open spec fn moved_to(self, row: nat, col: nat) -> TermModel {
        TermModel {
            cursor_row: min_nat(row, sat_sub(self.rows, 1)),
            cursor_col: min_nat(col, sat_sub(self.cols, 1)),
            ..self
        }
    }
}

/// The reply to a device-status query: "terminal OK".
pub open spec fn status_ok_reply() -> Seq<u8> {
    seq![27u8, 91u8, 48u8, 110u8]
}

/// The reply to a device-attributes query.
pub open spec fn device_attributes_reply() -> Seq<u8> {
    seq![27u8, 91u8, 63u8, 49u8, 59u8, 50u8, 99u8]
}

/// The cursor-position report `ESC [ row ; col R`, one-based.
pub open spec fn cursor_report(row: nat, col: nat) -> Seq<u8> {
    seq![27u8, 91u8] + decimal_bytes(row + 1) + seq![59u8] + decimal_bytes(col + 1) + seq![82u8]
}

impl TermModel {
    /// A control sequence `CSI params action`: cursor movement (A B C D H f),
    /// erasing (J K), inserting and deleting lines (L M), scrolling (S T),
    /// graphic rendition (m), saving and restoring the cursor (s u), and the
    /// status (n) and attribute (c) queries, which queue a reply.
    pub open spec fn csi(self, params: Seq<Seq<u16>>, action: char) -> TermModel {
        let n = param_or(params, 0, 1) as nat;
        if action == 'm' {
            TermModel { pen: applied_sgr(self.pen, self.dark_background, params), ..self }
        } else if action == 'A' {
            self.moved_to(sat_sub(self.cursor_row, n), self.cursor_col)
        } else if action == 'B' {
            self.moved_to(self.cursor_row + n, self.cursor_col)
        } else if action == 'C' {
            self.moved_to(self.cursor_row, self.cursor_col + n)
        } else if action == 'D' {
            self.moved_to(self.cursor_row, sat_sub(self.cursor_col, n))
        } else if action == 'H' || action == 'f' {
            self.moved_to(
                sat_sub(param_or(params, 0, 1) as nat, 1),
                sat_sub(param_or(params, 1, 1) as nat, 1),
            )
        } else if action == 'J' {
            self.cleared_screen((param_or(params, 0, 0) % 256) as u8)
        } else if action == 'K' {
            self.cleared_line((param_or(params, 0, 0) % 256) as u8)
        } else if action == 'L' {
            self.inserted_lines(n)
        } else if action == 'M' {
            self.deleted_lines(n)
        } else if action == 'S' {
            self.scrolled(n)
        } else if action == 'T' {
            self.reversed_lines(n)
        } else if action == 's' {
            TermModel {
                saved_row: self.cursor_row,
                saved_col: self.cursor_col,
                saved_pen: self.pen,
                ..self
            }
        } else if action == 'u' {
            TermModel { pen: self.saved_pen, ..self }.moved_to(self.saved_row, self.saved_col)
        } else if action == 'n' {
            let query = param_or(params, 0, 0);
            if query == 5 {
                TermModel { responses: self.responses.push(status_ok_reply()), ..self }
            } else if query == 6 {
                TermModel {
                    responses: self.responses.push(cursor_report(self.cursor_row, self.cursor_col)),
                    ..self
                }
            } else {
                self
            }
        } else if action == 'c' {
            TermModel { responses: self.responses.push(device_attributes_reply()), ..self }
        } else {
            self
        }
    }
}

/// A row widened with blank cells or cut to `cols` cells.
pub open spec fn resized_row(row: Seq<TerminalCell>, cols: nat) -> Seq<TerminalCell> {
    if cols <= row.len() {
        row.subrange(0, cols as int)
    } else {
        row + blank_row((cols - row.len()) as nat)
    }
}

impl TermModel {
    /// Resizing to at least one column and row: every row, in the scrollback
    /// too, is widened or cut; a taller screen gains blank rows at the
    /// bottom, and a shorter one moves its top rows into the scrollback; the
    /// cursor is clamped to the new size.
    pub open spec fn resized(self, cols: nat, rows: nat) -> TermModel {
        let c = if cols == 0 { 1 } else { cols };
        let r = if rows == 0 { 1 } else { rows };
        let sb = self.scrollback.map_values(|row: Seq<TerminalCell>| resized_row(row, c));
        let sc = self.screen.map_values(|row: Seq<TerminalCell>| resized_row(row, c));
        let moved = if r < self.rows {
            min_nat((self.rows - r) as nat, sat_sub(sc.len(), 1))
        } else {
            0
        };
        TermModel {
            screen: if r > self.rows {
                sc + blank_rows((r - self.rows) as nat, c)
            } else {
                sc.subrange(moved as int, sc.len() as int)
            },
            scrollback: if r < self.rows {
                last_n(sb + sc.subrange(0, moved as int), MAX_SCROLLBACK_LINES as nat)
            } else {
                sb
            },
            cols: c,
            rows: r,
            cursor_row: min_nat(self.cursor_row, (r - 1) as nat),
            cursor_col: min_nat(self.cursor_col, (c - 1) as nat),
            ..self
        }
    }
}

pub open spec fn rows_view(rows: Seq<Vec<TerminalCell>>) -> Seq<Seq<TerminalCell>> {
    rows.map_values(|r: Vec<TerminalCell>| r@)
}

pub open spec fn bytes_view(items: Seq<Vec<u8>>) -> Seq<Seq<u8>> {
    items.map_values(|r: Vec<u8>| r@)
}

/// A character-cell terminal screen that interprets printable characters,
/// control bytes and CSI sequences.
pub struct TerminalState {
    screen: Vec<Vec<TerminalCell>>,
    scrollback: Vec<Vec<TerminalCell>>,
    cursor_row: usize,
    cursor_col: usize,
    cols: usize,
    rows_count: usize,
    dark_background: bool,
    pen: Pen,
    saved_cursor_row: usize,
    saved_cursor_col: usize,
    saved_pen: Pen,
    responses: Vec<Vec<u8>>,
}

impl View for TerminalState {
    type V = TermModel;

    closed spec fn view(&self) -> TermModel {
        TermModel {
            screen: rows_view(self.screen@),
            scrollback: rows_view(self.scrollback@),
            cursor_row: self.cursor_row as nat,
            cursor_col: self.cursor_col as nat,
            cols: self.cols as nat,
            rows: self.rows_count as nat,
            dark_background: self.dark_background,
            pen: self.pen,
            saved_row: self.saved_cursor_row as nat,
            saved_col: self.saved_cursor_col as nat,
            saved_pen: self.saved_pen,
            responses: bytes_view(self.responses@),
        }
    }
}

pub fn blank_terminal_cell() -> (cell: TerminalCell)
    ensures
        cell == blank_cell(),
{
    TerminalCell {
        ch: ' ',
        fg: TermColor::DefaultFg,
        fg_dimmed: false,
        bg: TermColor::DefaultBg,
        bold: false,
        italic: false,
        underline: false,
        strikethrough: false,
    }
}

fn default_pen_value() -> (pen: Pen)
    ensures
        pen == default_pen(),
{
    Pen {
        fg: TermColor::DefaultFg,
        bg: TermColor::DefaultBg,
        bold: false,
        dim: false,
        italic: false,
        underline: false,
        inverse: false,
        strikethrough: false,
    }
}

fn new_blank_row(cols: usize) -> (row: Vec<TerminalCell>)
    ensures
        row@ == blank_row(cols as nat),
{
    let mut row: Vec<TerminalCell> = Vec::new();
    let mut j: usize = 0;
    while j < cols
        invariant
            j <= cols,
            row@ == blank_row(j as nat),
        decreases cols - j,
    {
        row.push(blank_terminal_cell());
        j = j + 1;
        assert(row@ =~= blank_row(j as nat));
    }
    row
}

proof fn lemma_rows_view_update(v: Seq<Vec<TerminalCell>>, r: int, row: Vec<TerminalCell>)
    requires
        0 <= r < v.len(),
    ensures
        rows_view(v.update(r, row)) == rows_view(v).update(r, row@),
{
    assert(rows_view(v.update(r, row)) =~= rows_view(v).update(r, row@));
}

proof fn lemma_rows_view_insert(v: Seq<Vec<TerminalCell>>, i: int, row: Vec<TerminalCell>)
    requires
        0 <= i <= v.len(),
    ensures
        rows_view(v.insert(i, row)) == rows_view(v).insert(i, row@),
{
    assert(rows_view(v.insert(i, row)) =~= rows_view(v).insert(i, row@));
}

proof fn lemma_rows_view_remove(v: Seq<Vec<TerminalCell>>, i: int)
    requires
        0 <= i < v.len(),
    ensures
        rows_view(v.remove(i)) == rows_view(v).remove(i),
{
    assert(rows_view(v.remove(i)) =~= rows_view(v).remove(i));
}

proof fn lemma_rows_view_push(v: Seq<Vec<TerminalCell>>, row: Vec<TerminalCell>)
    ensures
        rows_view(v.push(row)) == rows_view(v).push(row@),
{
    assert(rows_view(v.push(row)) =~= rows_view(v).push(row@));
}

proof fn lemma_rows_view_subrange(v: Seq<Vec<TerminalCell>>, a: int, b: int)
    requires
        0 <= a <= b <= v.len(),
    ensures
        rows_view(v.subrange(a, b)) == rows_view(v).subrange(a, b),
{
    assert(rows_view(v.subrange(a, b)) =~= rows_view(v).subrange(a, b));
}

fn resize_row(row: &mut Vec<TerminalCell>, cols: usize)
    ensures
        final(row)@ == resized_row(old(row)@, cols as nat),
{
    if cols <= row.len() {
        row.truncate(cols);
    } else {
        let ghost r0 = row@;
        let n0 = row.len();
        while row.len() < cols
            invariant
                r0.len() == n0,
                n0 < cols,
                n0 <= row@.len() <= cols,
                row@ == r0 + blank_row((row@.len() - n0) as nat),
            decreases cols - row@.len(),
        {
            let ghost before = row@;
            row.push(blank_terminal_cell());
            assert(row@ =~= r0 + blank_row((row@.len() - n0) as nat));
        }
    }
}

fn resize_all_rows(rows: &mut Vec<Vec<TerminalCell>>, cols: usize)
    ensures
        rows_view(final(rows)@) == rows_view(old(rows)@).map_values(
            |row: Seq<TerminalCell>| resized_row(row, cols as nat),
        ),
{
    let ghost v0 = rows@;
    let mut i: usize = 0;
    while i < rows.len()
        invariant
            rows@.len() == v0.len(),
            i <= rows@.len(),
            forall|k: int| 0 <= k < i ==> (#[trigger] rows@[k])@ == resized_row(v0[k]@, cols as nat),
            forall|k: int| i <= k < rows@.len() ==> (#[trigger] rows@[k]) == v0[k],
        decreases rows@.len() - i,
    {
        resize_row(&mut rows[i], cols);
        i = i + 1;
    }
    assert(rows_view(rows@) =~= rows_view(v0).map_values(
        |row: Seq<TerminalCell>| resized_row(row, cols as nat),
    ));
}

proof fn lemma_last_n_push<A>(s: Seq<A>, x: A, n: nat)
    requires
        n >= 1,
    ensures
        last_n(last_n(s, n).push(x), n) == last_n(s.push(x), n),
{
    if s.len() <= n {
    } else {
        assert(last_n(s, n).push(x).len() == n + 1);
        assert(last_n(last_n(s, n).push(x), n) =~= last_n(s.push(x), n));
    }
}

impl TerminalState {
    /// The rows of the screen, top first.
    pub fn screen(&self) -> (rows: &Vec<Vec<TerminalCell>>)
        ensures
            rows_view(rows@) == self@.screen,
    {
        &self.screen
    }

    /// The rows that scrolled off the top, oldest first.
    pub fn scrollback(&self) -> (rows: &Vec<Vec<TerminalCell>>)
        ensures
            rows_view(rows@) == self@.scrollback,
    {
        &self.scrollback
    }

    /// The cursor's row and column.
    pub fn cursor(&self) -> (position: (usize, usize))
        ensures
            position.0 == self@.cursor_row,
            position.1 == self@.cursor_col,
    {
        (self.cursor_row, self.cursor_col)
    }

    /// The number of columns and rows.
    pub fn size(&self) -> (size: (usize, usize))
        ensures
            size.0 == self@.cols,
            size.1 == self@.rows,
    {
        (self.cols, self.rows_count)
    }

    /// A terminal of the given size (at least one row and column), blank,
    /// with the cursor home and the default pen.
    pub fn new(cols: usize, rows: usize, dark_background: bool) -> (state: TerminalState)
        ensures
            state@.wf(),
            state@.cols == if cols == 0 { 1 } else { cols as nat },
            state@.rows == if rows == 0 { 1 } else { rows as nat },
            state@.screen == blank_rows(state@.rows, state@.cols),
            state@.scrollback.len() == 0,
            state@.cursor_row == 0,
            state@.cursor_col == 0,
            state@.dark_background == dark_background,
            state@.pen == default_pen(),
            state@.saved_row == 0,
            state@.saved_col == 0,
            state@.saved_pen == default_pen(),
            state@.responses.len() == 0,
    {
        let cols = if cols == 0 { 1 } else { cols };
        let rows = if rows == 0 { 1 } else { rows };
        let mut screen: Vec<Vec<TerminalCell>> = Vec::new();
        let mut i: usize = 0;
        while i < rows
            invariant
                i <= rows,
                screen@.len() == i,
                rows_view(screen@) == blank_rows(i as nat, cols as nat),
            decreases rows - i,
        {
            let ghost prev = screen@;
            screen.push(new_blank_row(cols));
            i = i + 1;
            assert(screen@ == prev.push(screen@[i - 1]));
            assert forall|k: int| 0 <= k < i implies rows_view(screen@)[k] == blank_rows(i as nat, cols as nat)[k] by {
                if k < i - 1 {
                    assert(screen@[k] == prev[k]);
                    assert(rows_view(prev)[k] == prev[k]@);
                }
            }
            assert(rows_view(screen@) =~= blank_rows(i as nat, cols as nat));
        }
        let state = TerminalState {
            screen,
            scrollback: Vec::new(),
            cursor_row: 0,
            cursor_col: 0,
            cols,
            rows_count: rows,
            dark_background,
            pen: default_pen_value(),
            saved_cursor_row: 0,
            saved_cursor_col: 0,
            saved_pen: default_pen_value(),
            responses: Vec::new(),
        };
        assert(state@.scrollback =~= Seq::<Seq<TerminalCell>>::empty());
        assert(state@.responses =~= Seq::<Seq<u8>>::empty());
        state
    }

    pub fn line_feed(&mut self)
        requires
            old(self)@.wf(),
        ensures
            final(self)@ == old(self)@.line_feed(),
            final(self)@.wf(),
    {
        if self.cursor_row + 1 >= self.rows_count {
            self.scroll_screen(1);
        } else {
            self.cursor_row = self.cursor_row + 1;
        }
    }

    /// Writes one character at the cursor (see `TermModel::put_char`).
    pub fn put_char(&mut self, ch: char)
        requires
            old(self)@.wf(),
        ensures
            final(self)@ == old(self)@.put_char(ch),
            final(self)@.wf(),
    {
        if ch == '\n' {
            self.line_feed();
        } else if ch == '\r' {
            self.cursor_col = 0;
        } else {
            if self.cursor_col >= self.cols {
                self.cursor_col = 0;
                self.line_feed();
            }
            let ghost m = self@;
            let cell = TerminalCell {
                ch,
                fg: if self.pen.inverse { self.pen.bg } else { self.pen.fg },
                fg_dimmed: self.pen.dim,
                bg: if self.pen.inverse { self.pen.fg } else { self.pen.bg },
                bold: self.pen.bold,
                italic: self.pen.italic,
                underline: self.pen.underline,
                strikethrough: self.pen.strikethrough,
            };
            let r = self.cursor_row;
            let c = self.cursor_col;
            assert(self.screen@[r as int]@ == m.screen[r as int]);
            let ghost before_vec = self.screen@;
            self.screen[r].set(c, cell);
            self.cursor_col = c + 1;
            proof {
                assert(self.screen@ =~= before_vec.update(r as int, self.screen@[r as int]));
                lemma_rows_view_update(before_vec, r as int, self.screen@[r as int]);
                assert(self@.screen =~= m.screen.update(
                    r as int,
                    m.screen[r as int].update(c as int, pen_cell(m.pen, ch)),
                ));
            }
        }
    }

    /// Moves the cursor, clamped to the screen.
    pub fn move_cursor(&mut self, row: usize, col: usize)
        requires
            old(self)@.wf(),
        ensures
            final(self)@ == old(self)@.moved_to(row as nat, col as nat),
            final(self)@.wf(),
    {
        self.cursor_row = if row < self.rows_count - 1 { row } else { self.rows_count - 1 };
        self.cursor_col = if col < self.cols - 1 { col } else { self.cols - 1 };
    }

    fn blank_cells_of_row(&mut self, r: usize, from: usize, to: usize)
        requires
            old(self)@.wf(),
            r < old(self)@.rows,
            from <= to <= old(self)@.cols,
        ensures
            final(self)@ == (TermModel {
                screen: old(self)@.screen.update(
                    r as int,
                    Seq::new(
                        old(self)@.cols,
                        |j: int|
                            if from <= j < to {
                                blank_cell()
                            } else {
                                old(self)@.screen[r as int][j]
                            },
                    ),
                ),
                ..old(self)@
            }),
            final(self)@.wf(),
    {
        let ghost m = self@;
        proof {
            let same = Seq::new(
                m.cols,
                |k: int|
                    if from <= k < from {
                        blank_cell()
                    } else {
                        m.screen[r as int][k]
                    },
            );
            assert(same =~= m.screen[r as int]);
            assert(m.screen.update(r as int, same) =~= m.screen);
        }
        let mut j = from;
        while j < to
            invariant
                m.wf(),
                self@.wf(),
                r < m.rows,
                from <= j <= to <= m.cols,
                self@ == (TermModel {
                    screen: m.screen.update(
                        r as int,
                        Seq::new(
                            m.cols,
                            |k: int|
                                if from <= k < j {
                                    blank_cell()
                                } else {
                                    m.screen[r as int][k]
                                },
                        ),
                    ),
                    ..m
                }),
            decreases to - j,
        {
            let ghost before = self@;
            let ghost before_vec = self.screen@;
            assert(self.screen@[r as int]@ == before.screen[r as int]);
            self.screen[r].set(j, blank_terminal_cell());
            j = j + 1;
            proof {
                assert(self.screen@ =~= before_vec.update(r as int, self.screen@[r as int]));
                lemma_rows_view_update(before_vec, r as int, self.screen@[r as int]);
                let target = m.screen.update(
                    r as int,
                    Seq::new(
                        m.cols,
                        |k: int|
                            if from <= k < j {
                                blank_cell()
                            } else {
                                m.screen[r as int][k]
                            },
                    ),
                );
                assert(self@.screen[r as int] =~= target[r as int]);
                assert(self@.screen =~= target);
            }
        }
        proof {
            if from == to {
                assert(self@.screen =~= m.screen.update(
                    r as int,
                    Seq::new(
                        m.cols,
                        |k: int|
                            if from <= k < to {
                                blank_cell()
                            } else {
                                m.screen[r as int][k]
                            },
                    ),
                ));
            }
        }
    }

    /// Erases in the cursor's line (see `TermModel::cleared_line`).
    pub fn clear_line(&mut self, mode: u8)
        requires
            old(self)@.wf(),
        ensures
            final(self)@ == old(self)@.cleared_line(mode),
            final(self)@.wf(),
    {
        let ghost m = self@;
        let r = self.cursor_row;
        let c = self.cursor_col;
        if mode == 0 {
            self.blank_cells_of_row(r, c, self.cols);
        } else if mode == 1 {
            let to = if c < self.cols { c + 1 } else { self.cols };
            self.blank_cells_of_row(r, 0, to);
        } else if mode == 2 {
            self.blank_cells_of_row(r, 0, self.cols);
        }
        proof {
            assert(self@.screen[r as int] =~= m.cleared_line(mode).screen[r as int]);
            assert(self@.screen =~= m.cleared_line(mode).screen);
        }
    }

    fn blank_screen_rows(&mut self, from: usize, to: usize)
        requires
            old(self)@.wf(),
            from <= to <= old(self)@.rows,
        ensures
            final(self)@ == old(self)@.blanked_rows(|i: int| from <= i < to),
            final(self)@.wf(),
    {
        let ghost m = self@;
        proof {
            assert(m.blanked_rows(|i: int| from <= i < from).screen =~= m.screen);
            assert(m.blanked_rows(|i: int| from <= i < from) =~= m);
        }
        let mut i = from;
        while i < to
            invariant
                m.wf(),
                from <= i <= to <= m.rows,
                self.screen@.len() == m.rows,
                self@.wf(),
                self@ == m.blanked_rows(|k: int| from <= k < i),
            decreases to - i,
        {
            let ghost before_vec = self.screen@;
            let blank = new_blank_row(self.cols);
            self.screen.set(i, blank);
            i = i + 1;
            proof {
                lemma_rows_view_update(before_vec, (i - 1) as int, blank);
                assert(self@.screen =~= m.blanked_rows(|k: int| from <= k < i).screen);
            }
        }
    }

    /// Erases in the display (see `TermModel::cleared_screen`).
    pub fn clear_screen(&mut self, mode: u8)
        requires
            old(self)@.wf(),
        ensures
            final(self)@ == old(self)@.cleared_screen(mode),
            final(self)@.wf(),
    {
        let ghost m = self@;
        let r = self.cursor_row;
        if mode == 0 {
            self.blank_screen_rows(r + 1, self.rows_count);
            assert(self@.screen =~= m.blanked_rows(|i: int| i > r).screen);
            self.clear_line(0);
        } else if mode == 1 {
            self.blank_screen_rows(0, r);
            assert(self@.screen =~= m.blanked_rows(|i: int| i < r).screen);
            self.clear_line(1);
        } else if mode == 2 {
            self.blank_screen_rows(0, self.rows_count);
            assert(self@.screen =~= m.blanked_rows(|i: int| true).screen);
            self.move_cursor(0, 0);
        } else if mode == 3 {
            self.scrollback = Vec::new();
            assert(self@.scrollback =~= Seq::<Seq<TerminalCell>>::empty());
        }
    }

    /// Inserts `n` blank lines at the cursor (`CSI n L`).
    pub fn insert_lines(&mut self, n: usize)
        requires
            old(self)@.wf(),
        ensures
            final(self)@ == old(self)@.inserted_lines(n as nat),
            final(self)@.wf(),
    {
        let ghost m = self@;
        let r = self.cursor_row;
        let k = if n < self.rows_count - r { n } else { self.rows_count - r };
        let ghost s0 = m.screen;
        proof {
            assert(s0.subrange(0, r as int) + blank_rows(0, m.cols) + s0.subrange(r as int, m.rows as int) =~= s0);
        }
        let mut i: usize = 0;
        while i < k
            invariant
                m.wf(),
                r == m.cursor_row,
                k <= m.rows - r,
                i <= k,
                s0 == m.screen,
                self.screen@.len() == m.rows,
                self@ == (TermModel {
                    screen: s0.subrange(0, r as int) + blank_rows(i as nat, m.cols) + s0.subrange(r as int, m.rows - i),
                    ..m
                }),
            decreases k - i,
        {
            let ghost v0 = self.screen@;
            let blank = new_blank_row(self.cols);
            self.screen.insert(r, blank);
            let ghost v1 = self.screen@;
            self.screen.truncate(self.rows_count);
            i = i + 1;
            proof {
                lemma_rows_view_insert(v0, r as int, blank);
                lemma_rows_view_subrange(v1, 0, m.rows as int);
                assert(self@.screen =~= s0.subrange(0, r as int) + blank_rows(i as nat, m.cols)
                    + s0.subrange(r as int, m.rows - i));
            }
        }
        proof {
            assert(self@.screen =~= m.inserted_lines(n as nat).screen);
        }
    }

    /// Deletes `n` lines at the cursor (`CSI n M`).
    pub fn delete_lines(&mut self, n: usize)
        requires
            old(self)@.wf(),
        ensures
            final(self)@ == old(self)@.deleted_lines(n as nat),
            final(self)@.wf(),
    {
        let ghost m = self@;
        let r = self.cursor_row;
        let k = if n < self.rows_count - r { n } else { self.rows_count - r };
        let ghost s0 = m.screen;
        proof {
            assert(s0.subrange(0, r as int) + s0.subrange(r as int, m.rows as int) + blank_rows(0, m.cols) =~= s0);
        }
        let mut i: usize = 0;
        while i < k
            invariant
                m.wf(),
                r == m.cursor_row,
                k <= m.rows - r,
                i <= k,
                s0 == m.screen,
                self.screen@.len() == m.rows,
                self@ == (TermModel {
                    screen: s0.subrange(0, r as int) + s0.subrange(r + i, m.rows as int) + blank_rows(i as nat, m.cols),
                    ..m
                }),
            decreases k - i,
        {
            let ghost v0 = self.screen@;
            self.screen.remove(r);
            let ghost v1 = self.screen@;
            let blank = new_blank_row(self.cols);
            self.screen.push(blank);
            i = i + 1;
            proof {
                lemma_rows_view_remove(v0, r as int);
                lemma_rows_view_push(v1, blank);
                assert(self@.screen =~= s0.subrange(0, r as int) + s0.subrange(r + i, m.rows as int)
                    + blank_rows(i as nat, m.cols));
            }
        }
        proof {
            assert(self@.screen =~= m.deleted_lines(n as nat).screen);
        }
    }

    /// `CSI n T` (see `TermModel::reversed_lines`).
    pub fn reverse_lines(&mut self, n: usize)
        requires
            old(self)@.wf(),
        ensures
            final(self)@ == old(self)@.reversed_lines(n as nat),
            final(self)@.wf(),
    {
        let ghost m = self@;
        let mut i: usize = 0;
        while i < n && self.cursor_row > 0
            invariant
                i <= n,
                self@.wf(),
                self@.cols == m.cols,
                self@.rows == m.rows,
                self@.reversed_lines((n - i) as nat) == m.reversed_lines(n as nat),
            decreases n - i,
        {
            let ghost before = self@;
            let ghost v0 = self.screen@;
            let r = self.cursor_row;
            let blank = new_blank_row(self.cols);
            self.screen.insert(r, blank);
            let ghost v1 = self.screen@;
            self.screen.truncate(self.rows_count);
            self.cursor_row = r - 1;
            i = i + 1;
            proof {
                lemma_rows_view_insert(v0, r as int, blank);
                lemma_rows_view_subrange(v1, 0, m.rows as int);
                assert(self@.screen =~= before.reverse_step().screen);
                assert(self@ == before.reverse_step());
                assert(before.reversed_lines((n - i + 1) as nat) == before.reverse_step().reversed_lines((n - i) as nat));
            }
        }
    }

    fn push_response(&mut self, reply: Vec<u8>)
        ensures
            final(self)@ == (TermModel { responses: old(self)@.responses.push(reply@), ..old(self)@ }),
    {
        let ghost v0 = self.responses@;
        self.responses.push(reply);
        assert(bytes_view(self.responses@) =~= bytes_view(v0).push(reply@));
    }

    /// Interprets a control sequence (see `TermModel::csi`).
    pub fn csi_dispatch(&mut self, params: &Vec<Vec<u16>>, action: char)
        requires
            old(self)@.wf(),
        ensures
            final(self)@ == old(self)@.csi(params_view(params@), action),
            final(self)@.wf(),
    {
        let ghost m = self@;
        let n = param_value_or(params, 0, 1) as usize;
        if action == 'm' {
            self.pen = apply_sgr(self.pen, self.dark_background, params);
        } else if action == 'A' {
            let row = if self.cursor_row >= n { self.cursor_row - n } else { 0 };
            self.move_cursor(row, self.cursor_col);
        } else if action == 'B' {
            self.move_cursor(self.cursor_row.saturating_add(n), self.cursor_col);
        } else if action == 'C' {
            self.move_cursor(self.cursor_row, self.cursor_col.saturating_add(n));
        } else if action == 'D' {
            let col = if self.cursor_col >= n { self.cursor_col - n } else { 0 };
            self.move_cursor(self.cursor_row, col);
        } else if action == 'H' || action == 'f' {
            let row = param_value_or(params, 0, 1);
            let col = param_value_or(params, 1, 1);
            let row = if row == 0 { 0 } else { (row - 1) as usize };
            let col = if col == 0 { 0 } else { (col - 1) as usize };
            self.move_cursor(row, col);
        } else if action == 'J' {
            let mode = param_value_or(params, 0, 0);
            self.clear_screen((mode % 256) as u8);
        } else if action == 'K' {
            let mode = param_value_or(params, 0, 0);
            self.clear_line((mode % 256) as u8);
        } else if action == 'L' {
            self.insert_lines(n);
        } else if action == 'M' {
            self.delete_lines(n);
        } else if action == 'S' {
            self.scroll_screen(n);
        } else if action == 'T' {
            self.reverse_lines(n);
        } else if action == 's' {
            self.saved_cursor_row = self.cursor_row;
            self.saved_cursor_col = self.cursor_col;
            self.saved_pen = self.pen;
        } else if action == 'u' {
            self.pen = self.saved_pen;
            self.move_cursor(self.saved_cursor_row, self.saved_cursor_col);
        } else if action == 'n' {
            let query = param_value_or(params, 0, 0);
            if query == 5 {
                let mut reply: Vec<u8> = Vec::new();
                reply.push(27);
                reply.push(91);
                reply.push(48);
                reply.push(110);
                assert(reply@ =~= status_ok_reply());
                self.push_response(reply);
            } else if query == 6 {
                let mut reply: Vec<u8> = Vec::new();
                reply.push(27);
                reply.push(91);
                let mut row_digits = decimal_bytes_of(self.cursor_row as u128 + 1);
                reply.append(&mut row_digits);
                reply.push(59);
                let mut col_digits = decimal_bytes_of(self.cursor_col as u128 + 1);
                reply.append(&mut col_digits);
                reply.push(82);
                assert(reply@ =~= cursor_report(m.cursor_row, m.cursor_col));
                self.push_response(reply);
            }
        } else if action == 'c' {
            let mut reply: Vec<u8> = Vec::new();
            reply.push(27);
            reply.push(91);
            reply.push(63);
            reply.push(49);
            reply.push(59);
            reply.push(50);
            reply.push(99);
            assert(reply@ =~= device_attributes_reply());
            self.push_response(reply);
        }
    }

    /// Interprets a C0 control byte (see `TermModel::executed`).
    pub fn execute(&mut self, byte: u8)
        requires
            old(self)@.wf(),
        ensures
            final(self)@ == old(self)@.executed(byte),
            final(self)@.wf(),
    {
        if byte == 10 {
            self.put_char('\n');
        } else if byte == 13 {
            self.put_char('\r');
        } else if byte == 9 {
            self.put_char(' ');
            self.put_char(' ');
            self.put_char(' ');
            self.put_char(' ');
        } else if byte == 8 {
            if self.cursor_col > 0 {
                self.cursor_col = self.cursor_col - 1;
            }
        }
    }

    /// Writes a printable character.
    pub fn print(&mut self, ch: char)
        requires
            old(self)@.wf(),
        ensures
            final(self)@ == old(self)@.put_char(ch),
            final(self)@.wf(),
    {
        self.put_char(ch);
    }

    /// Hands out the queued replies and forgets them.
    pub fn take_responses(&mut self) -> (responses: Vec<Vec<u8>>)
        ensures
            bytes_view(responses@) == old(self)@.responses,
            final(self)@ == (TermModel { responses: Seq::empty(), ..old(self)@ }),
    {
        let mut responses: Vec<Vec<u8>> = Vec::new();
        std::mem::swap(&mut responses, &mut self.responses);
        assert(bytes_view(self.responses@) =~= Seq::<Seq<u8>>::empty());
        responses
    }

    /// The row of the cursor when the scrollback is shown above the screen.
    pub fn cursor_render_row(&self) -> (row: usize)
        requires
            self@.wf(),
            self@.scrollback.len() + self@.cursor_row <= usize::MAX,
        ensures
            row == self@.scrollback.len() + self@.cursor_row,
    {
        self.scrollback.len() + self.cursor_row
    }

    /// Resizes the terminal (see `TermModel::resized`).
    #[verifier::rlimit(40)]
    pub fn resize(&mut self, cols: usize, rows: usize)
        requires
            old(self)@.wf(),
        ensures
            final(self)@ == old(self)@.resized(cols as nat, rows as nat),
            final(self)@.wf(),
    {
        let ghost m = self@;
        let c = if cols == 0 { 1 } else { cols };
        let r = if rows == 0 { 1 } else { rows };
        let mut screen: Vec<Vec<TerminalCell>> = Vec::new();
        let mut scrollback: Vec<Vec<TerminalCell>> = Vec::new();
        std::mem::swap(&mut screen, &mut self.screen);
        std::mem::swap(&mut scrollback, &mut self.scrollback);
        resize_all_rows(&mut scrollback, c);
        resize_all_rows(&mut screen, c);
        let ghost sb = rows_view(scrollback@);
        let ghost sc = rows_view(screen@);
        let ghost target = m.resized(cols as nat, rows as nat);
        assert(sb == m.scrollback.map_values(|row: Seq<TerminalCell>| resized_row(row, c as nat)));
        assert(sc == m.screen.map_values(|row: Seq<TerminalCell>| resized_row(row, c as nat)));
        if r > self.rows_count {
            let extra = r - self.rows_count;
            let mut j: usize = 0;
            while j < extra
                invariant
                    j <= extra,
                    rows_view(screen@) == sc + blank_rows(j as nat, c as nat),
                    rows_view(scrollback@) == sb,
                decreases extra - j,
            {
                let ghost v0 = screen@;
                let blank = new_blank_row(c);
                screen.push(blank);
                j = j + 1;
                proof {
                    lemma_rows_view_push(v0, blank);
                    assert(rows_view(screen@) =~= sc + blank_rows(j as nat, c as nat));
                }
            }
            assert(rows_view(screen@) == target.screen);
            assert(rows_view(scrollback@) == target.scrollback);
        } else if r < self.rows_count {
            let remove = self.rows_count - r;
            let moved = if remove < screen.len() - 1 { remove } else { screen.len() - 1 };
            proof {
                assert(sc.subrange(moved as int, sc.len() as int) =~= sc.subrange(0, 0) + sc.subrange(
                    moved as int,
                    sc.len() as int,
                )) by {}
                assert(sb + sc.subrange(0, 0) =~= sb);
                assert(sc.subrange(0, sc.len() as int) =~= sc);
            }
            let mut j: usize = 0;
            while j < moved
                invariant
                    j <= moved,
                    moved < sc.len(),
                    rows_view(screen@) == sc.subrange(j as int, sc.len() as int),
                    rows_view(scrollback@) == sb + sc.subrange(0, j as int),
                decreases moved - j,
            {
                let ghost v0 = screen@;
                let ghost w0 = scrollback@;
                assert(rows_view(v0).len() > 0);
                let row = screen.remove(0);
                let ghost v1 = screen@;
                scrollback.push(row);
                j = j + 1;
                proof {
                    lemma_rows_view_remove(v0, 0);
                    lemma_rows_view_push(w0, row);
                    assert(rows_view(v0)[0] == sc[j - 1]);
                    assert(rows_view(screen@) =~= sc.subrange(j as int, sc.len() as int));
                    assert(rows_view(scrollback@) =~= sb + sc.subrange(0, j as int));
                }
            }
            let ghost all = sb + sc.subrange(0, moved as int);
            let excess = if scrollback.len() > MAX_SCROLLBACK_LINES {
                scrollback.len() - MAX_SCROLLBACK_LINES
            } else {
                0
            };
            let mut k: usize = 0;
            proof {
                assert(all.subrange(0, all.len() as int) =~= all);
            }
            while k < excess
                invariant
                    k <= excess,
                    excess <= all.len(),
                    moved < sc.len(),
                    rows_view(scrollback@) == all.subrange(k as int, all.len() as int),
                    rows_view(screen@) == sc.subrange(moved as int, sc.len() as int),
                decreases excess - k,
            {
                let ghost w0 = scrollback@;
                assert(rows_view(w0).len() > 0);
                scrollback.remove(0);
                k = k + 1;
                proof {
                    lemma_rows_view_remove(w0, 0);
                    assert(rows_view(scrollback@) =~= all.subrange(k as int, all.len() as int));
                }
            }
            assert(rows_view(scrollback@) =~= target.scrollback);
            assert(rows_view(screen@) =~= target.screen);
        } else {
            assert(sc.subrange(0, sc.len() as int) =~= sc);
            assert(rows_view(screen@) == target.screen);
            assert(rows_view(scrollback@) == target.scrollback);
        }
        self.screen = screen;
        self.scrollback = scrollback;
        self.cols = c;
        self.rows_count = r;
        if self.cursor_row > r - 1 {
            self.cursor_row = r - 1;
        }
        if self.cursor_col > c - 1 {
            self.cursor_col = c - 1;
        }
        proof {
            assert(self@ =~= target);
        }
    }

    /// Scrolls the screen up by `count` lines.
    #[verifier::rlimit(40)]
    pub fn scroll_screen(&mut self, count: usize)
        requires
            old(self)@.wf(),
        ensures
            final(self)@ == old(self)@.scrolled(count as nat),
            final(self)@.wf(),
    {
        let ghost m0 = self@;
        proof {
            let all = m0.scrollback + m0.screen + blank_rows(0, m0.cols);
            assert(all.subrange(all.len() - m0.screen.len(), all.len() as int) =~= m0.screen);
            assert(all.subrange(0, all.len() - m0.screen.len()) =~= m0.scrollback);
            assert(self@ =~= (TermModel { cursor_row: self.cursor_row as nat, ..m0.scrolled(0) }));
        }
        let mut i: usize = 0;
        while i < count
            invariant
                i <= count,
                m0.wf(),
                self@ == (TermModel { cursor_row: self.cursor_row as nat, ..m0.scrolled(i as nat) }),
                self.cursor_row == m0.cursor_row,
                self@.wf(),
            decreases count - i,
        {
            let ghost before = self@;
            let ghost all = m0.scrollback + m0.screen + blank_rows(i as nat, m0.cols);
            let ghost cut = all.len() - m0.screen.len();
            let ghost before_screen = self.screen@;
            let first = self.screen.remove(0);
            self.scrollback.push(first);
            if self.scrollback.len() > MAX_SCROLLBACK_LINES {
                self.scrollback.remove(0);
            }
            let blank = new_blank_row(self.cols);
            self.screen.push(blank);
            i = i + 1;
            proof {
                let all2 = m0.scrollback + m0.screen + blank_rows(i as nat, m0.cols);
                let cut2 = all2.len() - m0.screen.len();
                assert(all2 =~= all.push(blank_row(m0.cols)));
                assert(cut2 == cut + 1);
                assert(all.subrange(0, cut2) =~= all.subrange(0, cut).push(all[cut]));
                assert(before.screen[0] == all[cut]);
                lemma_last_n_push(all.subrange(0, cut), all[cut], MAX_SCROLLBACK_LINES as nat);
                assert(self@.scrollback =~= last_n(before.scrollback.push(all[cut]), MAX_SCROLLBACK_LINES as nat));
                assert(self@.scrollback =~= m0.scrolled(i as nat).scrollback);
                let sc = m0.scrolled(i as nat).screen;
                assert(sc.len() == m0.rows);
                assert forall|k: int| 0 <= k < m0.rows implies self@.screen[k] == sc[k] by {
                    if k < m0.rows - 1 {
                        assert(self.screen@[k] == before_screen[k + 1]);
                        assert(rows_view(before_screen)[k + 1] == before_screen[k + 1]@);
                        assert(before.screen[k + 1] == all[cut + k + 1]);
                        assert(sc[k] == all2[cut2 + k]);
                    } else {
                        assert(self.screen@[k] == blank);
                    }
                }
                assert(self@.screen =~= sc);
            }
        }
        proof {
            assert(self@ =~= m0.scrolled(count as nat));
        }
    }
}

} // verus!
