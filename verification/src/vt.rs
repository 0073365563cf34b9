use vstd::prelude::*;

use crate::style::{default_style, CellStyle};
use crate::text::{char_display_width, spec_char_width};

verus! {

/// One grid cell: the text shown there (one character, possibly extended by
/// combining marks) and its style.
pub struct Cell {
    pub text: Vec<char>,
    pub style: CellStyle,
}

/// A blank cell: a single space in the default style.
pub open spec fn is_blank_cell(c: Cell) -> bool {
    c.text@ == seq![' '] && c.style == default_style()
}

pub open spec fn is_blank_row(row: Vec<Cell>, cols: int) -> bool {
    row@.len() == cols && forall|j: int| 0 <= j < cols ==> is_blank_cell(#[trigger] row@[j])
}

/// A row is well formed when it spans the grid's width and no cell is empty.
pub open spec fn row_wf(row: Vec<Cell>, cols: int) -> bool {
    row@.len() == cols && forall|j: int| 0 <= j < cols ==> (#[trigger] row@[j]).text@.len() >= 1
}

pub open spec fn grid_wf(lines: Seq<Vec<Cell>>, rows: int, cols: int) -> bool {
    lines.len() == rows && forall|i: int| 0 <= i < rows ==> row_wf(#[trigger] lines[i], cols)
}

/// A blank cell: a single space, default style.
pub fn blank_cell() -> (c: Cell)
    ensures
        is_blank_cell(c),
{
    let mut text: Vec<char> = Vec::new();
    text.push(' ');
    proof {
        assert(text@ =~= seq![' ']);
    }
    Cell { text, style: CellStyle::default() }
}

/// A full row of blank cells.
pub fn make_row(cols: usize) -> (row: Vec<Cell>)
    ensures
        is_blank_row(row, cols as int),
{
    let mut row: Vec<Cell> = Vec::new();
    for _i in iter: 0..cols
        invariant
            row@.len() == iter.index(),
            forall|j: int| 0 <= j < row@.len() ==> is_blank_cell(#[trigger] row@[j]),
    {
        row.push(blank_cell());
    }
    row
}

pub fn make_grid(cols: usize, rows: usize) -> (g: Vec<Vec<Cell>>)
    ensures
        g@.len() == rows,
        forall|i: int| 0 <= i < rows ==> is_blank_row(#[trigger] g@[i], cols as int),
{
    let mut g: Vec<Vec<Cell>> = Vec::new();
    for _i in iter: 0..rows
        invariant
            g@.len() == iter.index(),
            forall|j: int| 0 <= j < g@.len() ==> is_blank_row(#[trigger] g@[j], cols as int),
    {
        g.push(make_row(cols));
    }
    g
}

/// The full screen state saved on entering the alternate screen.
pub struct SavedScreen {
    pub lines: Vec<Vec<Cell>>,
    pub cursor_row: usize,
    pub cursor_col: usize,
    pub saved_row: usize,
    pub saved_col: usize,
    pub style: CellStyle,
    pub scroll_top: usize,
    pub scroll_bottom: usize,
    pub cursor_visible: bool,
}

pub open spec fn saved_wf(s: SavedScreen, rows: int, cols: int) -> bool {
    grid_wf(s.lines@, rows, cols) && s.scroll_top <= s.scroll_bottom
}

/// The terminal emulator: a `rows x cols` grid of styled cells, a cursor, a
/// saved cursor, the active style, a scroll region, a deferred-wrap flag, and
/// the optional saved primary screen of the alternate-screen mode.
pub struct VtLite {
    pub cols: usize,
    pub rows: usize,
    pub lines: Vec<Vec<Cell>>,
    pub cursor_row: usize,
    pub cursor_col: usize,
    pub saved_row: usize,
    pub saved_col: usize,
    pub style: CellStyle,
    pub scroll_top: usize,
    pub scroll_bottom: usize,
    pub wrap_pending: bool,
    pub cursor_visible: bool,
    pub saved_primary: Option<SavedScreen>,
}

impl VtLite {
    /// The machine's invariant: the grid spans `rows x cols`, no cell is empty,
    /// the cursor, the saved cursor and the scroll region lie inside the grid,
    /// and a saved primary screen, if any, has the same shape.
    pub open spec fn wf(self) -> bool {
        &&& 1 <= self.cols <= 0x7fffffff
        &&& 1 <= self.rows <= 0x7fffffff
        &&& grid_wf(self.lines@, self.rows as int, self.cols as int)
        &&& self.cursor_row < self.rows
        &&& self.cursor_col < self.cols
        &&& self.saved_row < self.rows
        &&& self.saved_col < self.cols
        &&& self.scroll_top <= self.scroll_bottom < self.rows
        &&& match self.saved_primary {
            Some(s) => saved_wf(s, self.rows as int, self.cols as int),
            None => true,
        }
    }

    /// The state a machine of the given size starts in, and returns to on a
    /// full reset: blank grid, cursor and saved cursor at the origin, default
    /// style, scroll region spanning every row, no deferred wrap, cursor shown,
    /// no saved primary screen.
    pub open spec fn is_initial(self, cols: int, rows: int) -> bool {
        &&& self.cols == cols
        &&& self.rows == rows
        &&& self.lines@.len() == rows
        &&& forall|i: int| 0 <= i < rows ==> is_blank_row(#[trigger] self.lines@[i], cols)
        &&& self.cursor_row == 0
        &&& self.cursor_col == 0
        &&& self.saved_row == 0
        &&& self.saved_col == 0
        &&& self.style == default_style()
        &&& self.scroll_top == 0
        &&& self.scroll_bottom == rows - 1
        &&& self.wrap_pending == false
        &&& self.cursor_visible == true
        &&& self.saved_primary is None
    }

    /// Dimensions never change after construction.
    pub open spec fn same_dims(self, o: VtLite) -> bool {
        self.cols == o.cols && self.rows == o.rows
    }

    /// Every field but the grid itself agrees.
    pub open spec fn eq_except_lines(self, o: VtLite) -> bool {
        &&& self.cols == o.cols
        &&& self.rows == o.rows
        &&& self.cursor_row == o.cursor_row
        &&& self.cursor_col == o.cursor_col
        &&& self.saved_row == o.saved_row
        &&& self.saved_col == o.saved_col
        &&& self.style == o.style
        &&& self.scroll_top == o.scroll_top
        &&& self.scroll_bottom == o.scroll_bottom
        &&& self.wrap_pending == o.wrap_pending
        &&& self.cursor_visible == o.cursor_visible
        &&& self.saved_primary == o.saved_primary
    }

    pub open spec fn same_saved(self, o: VtLite) -> bool {
        self.saved_row == o.saved_row && self.saved_col == o.saved_col && self.saved_primary
            == o.saved_primary
    }

    pub open spec fn same_region(self, o: VtLite) -> bool {
        self.scroll_top == o.scroll_top && self.scroll_bottom == o.scroll_bottom
    }

    /// A fresh machine of the given size, in the initial state.
    pub fn new(cols: usize, rows: usize) -> (vt: VtLite)
        requires
            1 <= cols <= 0x7fffffff,
            1 <= rows <= 0x7fffffff,
        ensures
            vt.wf(),
            vt.is_initial(cols as int, rows as int),
    {
        VtLite {
            cols,
            rows,
            lines: make_grid(cols, rows),
            cursor_row: 0,
            cursor_col: 0,
            saved_row: 0,
            saved_col: 0,
            style: CellStyle::default(),
            scroll_top: 0,
            scroll_bottom: rows - 1,
            wrap_pending: false,
            cursor_visible: true,
            saved_primary: None,
        }
    }

    /// Full reset (`ESC c`): back to the initial state; any saved primary
    /// screen is discarded.
    pub fn reset(&mut self)
        requires
            old(self).wf(),
        ensures
            final(self).wf(),
            final(self).is_initial(old(self).cols as int, old(self).rows as int),
    {
        self.lines = make_grid(self.cols, self.rows);
        self.cursor_row = 0;
        self.cursor_col = 0;
        self.saved_row = 0;
        self.saved_col = 0;
        self.style = CellStyle::default();
        self.scroll_top = 0;
        self.scroll_bottom = self.rows - 1;
        self.wrap_pending = false;
        self.cursor_visible = true;
        self.saved_primary = None;
    }

    /// Scroll the rows of `[top, bottom]` up by `count`: rows move towards
    /// `top`, the freed rows at `bottom` become blank. Nothing happens unless
    /// `top < bottom < rows`.
    #[verifier::loop_isolation(false)]
    pub fn scroll_region_up(&mut self, top: usize, bottom: usize, count: usize)
        requires
            old(self).wf(),
        ensures
            final(self).wf(),
            final(self).eq_except_lines(*old(self)),
            (top >= bottom || bottom >= old(self).rows) ==> final(self).lines == old(self).lines,
            (top < bottom && bottom < old(self).rows) ==> {
                let n = scroll_count(count as int, top as int, bottom as int);
                &&& final(self).lines@.len() == old(self).lines@.len()
                &&& forall|r: int|
                    0 <= r < old(self).lines@.len() && (r < top || r > bottom)
                        ==> final(self).lines@[r] == old(self).lines@[r]
                &&& forall|r: int|
                    top <= r <= bottom - n ==> final(self).lines@[r] == old(self).lines@[r + n]
                &&& forall|r: int|
                    bottom - n < r <= bottom ==> is_blank_row(
                        #[trigger] final(self).lines@[r],
                        old(self).cols as int,
                    )
            },
    {
        if top >= bottom || bottom >= self.rows {
            return ;
        }
        let span = bottom - top + 1;
        let mut n = if count > 1 {
            count
        } else {
            1
        };
        if n > span {
            n = span;
        }
        let ghost orig = self.lines@;
        let mut k: usize = 0;
        while k < n
            invariant
                self.eq_except_lines(*old(self)),
                orig == old(self).lines@,
                orig.len() == self.rows,
                self.lines@.len() == orig.len(),
                forall|r: int|
                    0 <= r < orig.len() && (r < top || r > bottom) ==> self.lines@[r] == orig[r],
                forall|r: int| top <= r <= bottom - k ==> self.lines@[r] == orig[r + k],
                forall|r: int|
                    bottom - k < r <= bottom ==> is_blank_row(
                        #[trigger] self.lines@[r],
                        self.cols as int,
                    ),
                k <= n,
            decreases n - k,
        {
            let ghost before = self.lines@;
            self.lines.remove(top);
            self.lines.insert(bottom, make_row(self.cols));
            proof {
                assert forall|r: int|
                    0 <= r < orig.len() && (r < top || r > bottom) implies self.lines@[r]
                    == orig[r] by {
                    if r < top {
                        assert(self.lines@[r] == before[r]);
                    } else {
                        assert(self.lines@[r] == before[r]);
                    }
                }
                assert forall|r: int| top <= r <= bottom - (k + 1) implies self.lines@[r] == orig[r
                    + k + 1] by {
                    assert(self.lines@[r] == before[r + 1]);
                }
                assert forall|r: int| bottom - (k + 1) < r <= bottom implies is_blank_row(
                    #[trigger] self.lines@[r],
                    self.cols as int,
                ) by {
                    if r < bottom {
                        assert(self.lines@[r] == before[r + 1]);
                    }
                }
            }
            k = k + 1;
        }
        proof {
            assert(scroll_count(count as int, top as int, bottom as int) == n as int);
            assert forall|i: int| 0 <= i < self.rows implies row_wf(
                #[trigger] self.lines@[i],
                self.cols as int,
            ) by {
                if i < top || i > bottom {
                    assert(self.lines@[i] == orig[i]);
                } else if i <= bottom - n {
                    assert(self.lines@[i] == orig[i + n]);
                } else {
                    assert(is_blank_row(self.lines@[i], self.cols as int));
                    assert(forall|j: int|
                        0 <= j < self.cols ==> (#[trigger] self.lines@[i]@[j]).text@.len() == 1);
                }
            }
        }
    }

    /// Scroll the rows of `[top, bottom]` down by `count`: rows move towards
    /// `bottom`, the freed rows at `top` become blank. Nothing happens unless
    /// `top < bottom < rows`.
    #[verifier::loop_isolation(false)]
    pub fn scroll_region_down(&mut self, top: usize, bottom: usize, count: usize)
        requires
            old(self).wf(),
        ensures
            final(self).wf(),
            final(self).eq_except_lines(*old(self)),
            (top >= bottom || bottom >= old(self).rows) ==> final(self).lines == old(self).lines,
            (top < bottom && bottom < old(self).rows) ==> {
                let n = scroll_count(count as int, top as int, bottom as int);
                &&& final(self).lines@.len() == old(self).lines@.len()
                &&& forall|r: int|
                    0 <= r < old(self).lines@.len() && (r < top || r > bottom)
                        ==> final(self).lines@[r] == old(self).lines@[r]
                &&& forall|r: int|
                    top + n <= r <= bottom ==> final(self).lines@[r] == old(self).lines@[r - n]
                &&& forall|r: int|
                    top <= r < top + n ==> is_blank_row(
                        #[trigger] final(self).lines@[r],
                        old(self).cols as int,
                    )
            },
    {
        if top >= bottom || bottom >= self.rows {
            return ;
        }
        let span = bottom - top + 1;
        let mut n = if count > 1 {
            count
        } else {
            1
        };
        if n > span {
            n = span;
        }
        let ghost orig = self.lines@;
        let mut k: usize = 0;
        while k < n
            invariant
                self.eq_except_lines(*old(self)),
                orig == old(self).lines@,
                orig.len() == self.rows,
                self.lines@.len() == orig.len(),
                forall|r: int|
                    0 <= r < orig.len() && (r < top || r > bottom) ==> self.lines@[r] == orig[r],
                forall|r: int| top + k <= r <= bottom ==> self.lines@[r] == orig[r - k],
                forall|r: int|
                    top <= r < top + k ==> is_blank_row(
                        #[trigger] self.lines@[r],
                        self.cols as int,
                    ),
                k <= n,
            decreases n - k,
        {
            let ghost before = self.lines@;
            self.lines.remove(bottom);
            self.lines.insert(top, make_row(self.cols));
            proof {
                assert forall|r: int|
                    0 <= r < orig.len() && (r < top || r > bottom) implies self.lines@[r]
                    == orig[r] by {
                    if r < top {
                        assert(self.lines@[r] == before[r]);
                    } else {
                        assert(self.lines@[r] == before[r]);
                    }
                }
                assert forall|r: int| top + k + 1 <= r <= bottom implies self.lines@[r] == orig[r
                    - k - 1] by {
                    assert(self.lines@[r] == before[r - 1]);
                }
                assert forall|r: int| top <= r < top + k + 1 implies is_blank_row(
                    #[trigger] self.lines@[r],
                    self.cols as int,
                ) by {
                    if r > top {
                        assert(self.lines@[r] == before[r - 1]);
                    }
                }
            }
            k = k + 1;
        }
        proof {
            assert(scroll_count(count as int, top as int, bottom as int) == n as int);
            assert forall|i: int| 0 <= i < self.rows implies row_wf(
                #[trigger] self.lines@[i],
                self.cols as int,
            ) by {
                if i < top || i > bottom {
                    assert(self.lines@[i] == orig[i]);
                } else if i >= top + n {
                    assert(self.lines@[i] == orig[i - n]);
                } else {
                    assert(is_blank_row(self.lines@[i], self.cols as int));
                    assert(forall|j: int|
                        0 <= j < self.cols ==> (#[trigger] self.lines@[i]@[j]).text@.len() == 1);
                }
            }
        }
    }

    /// Line feed (index): at the scroll region's bottom the region scrolls up;
    /// anywhere else the cursor moves down one row, capped at the last row.
    pub fn line_feed(&mut self)
        requires
            old(self).wf(),
        ensures
            final(self).wf(),
            final(self).same_dims(*old(self)),
            final(self).same_saved(*old(self)),
            final(self).same_region(*old(self)),
            final(self).cursor_col == old(self).cursor_col,
            final(self).style == old(self).style,
            final(self).wrap_pending == old(self).wrap_pending,
            final(self).cursor_visible == old(self).cursor_visible,
            line_feed_moved(*old(self), *final(self)),
    {
        if self.cursor_row >= self.scroll_top && self.cursor_row <= self.scroll_bottom {
            if self.cursor_row == self.scroll_bottom {
                let top = self.scroll_top;
                let bottom = self.scroll_bottom;
                self.scroll_region_up(top, bottom, 1);
            } else {
                if self.cursor_row + 1 <= self.rows - 1 {
                    self.cursor_row = self.cursor_row + 1;
                } else {
                    self.cursor_row = self.rows - 1;
                }
            }
            return ;
        }
        if self.cursor_row + 1 <= self.rows - 1 {
            self.cursor_row = self.cursor_row + 1;
        } else {
            self.cursor_row = self.rows - 1;
        }
    }

    /// Reverse index: at the scroll region's top the region scrolls down;
    /// anywhere else the cursor moves up one row, floored at the first row.
    pub fn reverse_index(&mut self)
        requires
            old(self).wf(),
        ensures
            final(self).wf(),
            final(self).same_dims(*old(self)),
            final(self).same_saved(*old(self)),
            final(self).same_region(*old(self)),
            final(self).cursor_col == old(self).cursor_col,
            final(self).style == old(self).style,
            final(self).wrap_pending == old(self).wrap_pending,
            final(self).cursor_visible == old(self).cursor_visible,
            reverse_index_moved(*old(self), *final(self)),
    {
        if self.cursor_row >= self.scroll_top && self.cursor_row <= self.scroll_bottom {
            if self.cursor_row == self.scroll_top {
                let top = self.scroll_top;
                let bottom = self.scroll_bottom;
                self.scroll_region_down(top, bottom, 1);
            } else {
                self.cursor_row = self.cursor_row - 1;
            }
            return ;
        }
        if self.cursor_row > 0 {
            self.cursor_row = self.cursor_row - 1;
        }
    }

    /// Erase within the cursor's row: mode 0 from the cursor to the end of the
    /// line, mode 1 from the start of the line through the cursor, mode 2 the
    /// whole line; any other mode does nothing.
    #[verifier::loop_isolation(false)]
    pub fn erase_line(&mut self, mode: i32)
        requires
            old(self).wf(),
        ensures
            final(self).wf(),
            final(self).eq_except_lines(*old(self)),
            final(self).lines@.len() == old(self).lines@.len(),
            forall|r: int|
                0 <= r < old(self).lines@.len() && r != old(self).cursor_row
                    ==> old(self).lines@[r] == final(self).lines@[r],
            erased_line_row(
                old(self).lines@[old(self).cursor_row as int],
                final(self).lines@[old(self).cursor_row as int],
                old(self).cursor_col as int,
                old(self).cols as int,
                mode as int,
            ),
    {
        let row_idx = self.cursor_row;
        let ghost orig_row = self.lines@[row_idx as int];
        if mode == 0 {
            let mut row: Vec<Cell> = Vec::new();
            self.lines.set_and_swap(row_idx, &mut row);
            let mut col = self.cursor_col;
            while col < self.cols
                invariant
                    row@.len() == orig_row@.len(),
                    forall|j: int| 0 <= j < old(self).cursor_col ==> row@[j] == orig_row@[j],
                    forall|j: int|
                        old(self).cursor_col <= j < col ==> is_blank_cell(#[trigger] row@[j]),
                    old(self).cursor_col <= col <= self.cols,
                decreases self.cols - col,
            {
                row.set(col, blank_cell());
                col = col + 1;
            }
            self.lines.set_and_swap(row_idx, &mut row);
        } else if mode == 1 {
            let mut row: Vec<Cell> = Vec::new();
            self.lines.set_and_swap(row_idx, &mut row);
            let end = if self.cursor_col < self.cols - 1 {
                self.cursor_col
            } else {
                self.cols - 1
            };
            let mut col: usize = 0;
            while col <= end
                invariant
                    row@.len() == orig_row@.len(),
                    forall|j: int| 0 <= j < col ==> is_blank_cell(#[trigger] row@[j]),
                    forall|j: int| col <= j < row@.len() ==> row@[j] == orig_row@[j],
                    col <= end + 1,
                    end == old(self).cursor_col,
                decreases end + 1 - col,
            {
                row.set(col, blank_cell());
                col = col + 1;
            }
            self.lines.set_and_swap(row_idx, &mut row);
        } else if mode == 2 {
            self.lines.set(row_idx, make_row(self.cols));
        }
    }

    /// Erase within the display: mode 0 from the cursor to the end of the
    /// screen, mode 1 from the start of the screen through the cursor, modes 2
    /// and 3 the whole screen; any other mode does nothing.
    #[verifier::loop_isolation(false)]
    pub fn erase_display(&mut self, mode: i32)
        requires
            old(self).wf(),
        ensures
            final(self).wf(),
            final(self).eq_except_lines(*old(self)),
            final(self).lines@.len() == old(self).lines@.len(),
            erased_display_lines(
                old(self).lines@,
                final(self).lines@,
                old(self).cursor_row as int,
                old(self).cursor_col as int,
                old(self).cols as int,
                mode as int,
            ),
    {
        if mode == 0 {
            self.erase_line(0);
            let mut r = self.cursor_row + 1;
            while r < self.rows
                invariant
                    old(self).cursor_row < r <= self.rows,
                    self.wf(),
                    self.eq_except_lines(*old(self)),
                    self.lines@.len() == old(self).lines@.len(),
                    forall|i: int|
                        0 <= i < old(self).lines@.len() && i != old(self).cursor_row && i >= r
                            ==> self.lines@[i] == old(self).lines@[i],
                    forall|i: int|
                        0 <= i < old(self).cursor_row ==> self.lines@[i] == old(self).lines@[i],
                    forall|i: int|
                        old(self).cursor_row < i < r ==> is_blank_row(
                            #[trigger] self.lines@[i],
                            old(self).cols as int,
                        ),
                    erased_line_row(
                        old(self).lines@[old(self).cursor_row as int],
                        self.lines@[old(self).cursor_row as int],
                        old(self).cursor_col as int,
                        old(self).cols as int,
                        0,
                    ),
                decreases self.rows - r,
            {
                self.lines.set(r, make_row(self.cols));
                r = r + 1;
            }
        } else if mode == 1 {
            let mut r: usize = 0;
            while r < self.cursor_row
                invariant
                    r <= old(self).cursor_row,
                    self.wf(),
                    self.eq_except_lines(*old(self)),
                    self.lines@.len() == old(self).lines@.len(),
                    forall|i: int|
                        r <= i < old(self).lines@.len() ==> self.lines@[i] == old(self).lines@[i],
                    forall|i: int|
                        0 <= i < r ==> is_blank_row(#[trigger] self.lines@[i], old(self).cols as int),
                decreases self.cursor_row - r,
            {
                self.lines.set(r, make_row(self.cols));
                r = r + 1;
            }
            self.erase_line(1);
        } else if mode == 2 || mode == 3 {
            let mut r: usize = 0;
            while r < self.rows
                invariant
                    r <= self.rows,
                    self.wf(),
                    self.eq_except_lines(*old(self)),
                    self.lines@.len() == old(self).lines@.len(),
                    forall|i: int|
                        0 <= i < r ==> is_blank_row(#[trigger] self.lines@[i], old(self).cols as int),
                decreases self.rows - r,
            {
                self.lines.set(r, make_row(self.cols));
                r = r + 1;
            }
        }
    }

    /// Write one character at the cursor under the active style. Zero-width
    /// characters join the cell before the cursor; width-one characters
    /// overwrite the cursor's cell and advance it, deferring the wrap at the
    /// last column.
    pub fn write_char(&mut self, ch: char)
        requires
            old(self).wf(),
        ensures
            final(self).wf(),
            write_char_rel(*old(self), *final(self), ch),
    {
        if self.rows == 0 || self.cols == 0 {
            return ;
        }
        let width = char_display_width(ch);
        if width == 0 {
            let prev_col = if self.cursor_col > 0 {
                self.cursor_col - 1
            } else {
                self.cursor_col
            };
            if self.cursor_row < self.rows && prev_col < self.cols {
                let row_idx = self.cursor_row;
                let ghost orig_row = self.lines@[row_idx as int];
                let mut row: Vec<Cell> = Vec::new();
                self.lines.set_and_swap(row_idx, &mut row);
                let mut cell = Cell { text: Vec::new(), style: CellStyle::default() };
                row.set_and_swap(prev_col, &mut cell);
                cell.text.push(ch);
                row.set_and_swap(prev_col, &mut cell);
                self.lines.set_and_swap(row_idx, &mut row);
                proof {
                    assert(self.lines@[row_idx as int]@[prev_col as int].text@ =~= orig_row@[
                        prev_col as int
                    ].text@ + seq![ch]);
                    assert(final_row_ok(orig_row, self.lines@[row_idx as int], prev_col as int, ch));
                }
            }
            return ;
        }
        let ghost pre = *self;
        if self.wrap_pending {
            self.cursor_col = 0;
            self.line_feed();
            self.wrap_pending = false;
            let ghost mid = *self;
            self.write_char_cell(ch);
            proof {
                let pre1 = VtLite { cursor_col: 0, wrap_pending: false, ..pre };
                assert(mid == VtLite { lines: mid.lines, cursor_row: mid.cursor_row, ..pre1 });
                assert(line_feed_moved(pre1, mid));
                assert(wrote_char_at(mid, *self, ch));
                assert(exists|m: VtLite| #[trigger]
                    line_feed_moved(VtLite { cursor_col: 0, wrap_pending: false, ..pre }, m)
                        && m.eq_except_lines(
                        VtLite {
                            cursor_row: m.cursor_row,
                            cursor_col: 0,
                            wrap_pending: false,
                            ..pre
                        },
                    ) && wrote_char_at(m, *self, ch));
            }
            return ;
        }
        if self.cursor_col >= self.cols {
            self.cursor_col = 0;
            self.line_feed();
        }
        self.write_char_cell(ch);
    }

    /// Overwrite the cursor's cell with one character in the active style and
    /// advance the cursor, deferring the wrap at the last column.
    fn write_char_cell(&mut self, ch: char)
        requires
            old(self).wf(),
        ensures
            final(self).wf(),
            wrote_char_at(*old(self), *final(self), ch),
    {
        let row_idx = self.cursor_row;
        let col_idx = self.cursor_col;
        let ghost orig_row = self.lines@[row_idx as int];
        let mut row: Vec<Cell> = Vec::new();
        self.lines.set_and_swap(row_idx, &mut row);
        let mut text: Vec<char> = Vec::new();
        text.push(ch);
        proof {
            assert(text@ =~= seq![ch]);
        }
        row.set(col_idx, Cell { text, style: self.style });
        self.lines.set_and_swap(row_idx, &mut row);
        if self.cursor_col >= self.cols - 1 {
            self.wrap_pending = true;
        } else {
            self.cursor_col = self.cursor_col + 1;
        }
    }

    /// Apply a run of SGR codes to the active style.
    #[verifier::loop_isolation(false)]
    pub fn apply_sgr(&mut self, params: &Vec<Option<i32>>)
        requires
            old(self).wf(),
        ensures
            final(self).wf(),
            *final(self) == (VtLite { style: final(self).style, ..*old(self) }),
            final(self).style == sgr_apply(old(self).style, params@),
    {
        if params.len() == 0 {
            self.style = CellStyle::default();
            return ;
        }
        let mut i: usize = 0;
        while i < params.len()
            invariant
                *self == (VtLite { style: self.style, ..*old(self) }),
                sgr_from(old(self).style, params@, 0) == sgr_from(self.style, params@, i as int),
                i <= params.len(),
            decreases params.len() - i,
        {
            let code = match params[i] {
                Some(c) => c,
                None => 0,
            };
            let mut step: usize = 1;
            if code == 38 || code == 48 {
                let is_fg = code == 38;
                let mode = if params.len() - i > 1 {
                    params[i + 1]
                } else {
                    None
                };
                let mode_val = match mode {
                    Some(v) => v,
                    None => -1,
                };
                let mode_known = match mode {
                    Some(_) => true,
                    None => false,
                };
                if mode_known && mode_val == 2 {
                    if params.len() - i > 4 {
                        if let (Some(r), Some(g), Some(b)) = (params[i + 2], params[i + 3], params[i
                            + 4]) {
                            let color = crate::style::clamp_color(r, g, b);
                            if is_fg {
                                self.style.fg = Some(color);
                            } else {
                                self.style.bg = Some(color);
                            }
                        }
                    }
                    step = 5;
                } else if mode_known && mode_val == 5 {
                    if params.len() - i > 2 {
                        if let Some(idx) = params[i + 2] {
                            if let Some(c) = crate::style::xterm_256_color(idx) {
                                if is_fg {
                                    self.style.fg = Some(c);
                                } else {
                                    self.style.bg = Some(c);
                                }
                            }
                        }
                    }
                    step = 3;
                } else {
                    step = 2;
                }
            } else {
                self.style = sgr_step_exec(self.style, code);
            }
            if params.len() - i > step {
                i = i + step;
            } else {
                proof {
                    assert(sgr_from(self.style, params@, params@.len() as int) == self.style);
                }
                i = params.len();
            }
        }
    }

    /// Enter the alternate screen (`CSI ?1049h`): save the whole state and
    /// start from a blank grid; a second enter while saved does nothing.
    pub fn enter_alt_screen(&mut self)
        requires
            old(self).wf(),
        ensures
            final(self).wf(),
            entered_alt(*old(self), *final(self)),
    {
        if self.saved_primary.is_some() {
            return ;
        }
        let mut grid = make_grid(self.cols, self.rows);
        core::mem::swap(&mut self.lines, &mut grid);
        self.saved_primary = Some(
            SavedScreen {
                lines: grid,
                cursor_row: self.cursor_row,
                cursor_col: self.cursor_col,
                saved_row: self.saved_row,
                saved_col: self.saved_col,
                style: self.style,
                scroll_top: self.scroll_top,
                scroll_bottom: self.scroll_bottom,
                cursor_visible: self.cursor_visible,
            },
        );
        self.cursor_row = 0;
        self.cursor_col = 0;
        self.saved_row = 0;
        self.saved_col = 0;
        self.style = CellStyle::default();
        self.scroll_top = 0;
        self.scroll_bottom = self.rows - 1;
        self.wrap_pending = false;
    }

    /// Leave the alternate screen (`CSI ?1049l`): restore every saved field,
    /// clamping positions into the grid; without a saved screen, do nothing.
    pub fn leave_alt_screen(&mut self)
        requires
            old(self).wf(),
        ensures
            final(self).wf(),
            left_alt(*old(self), *final(self)),
    {
        let taken = self.saved_primary.take();
        match taken {
            None => {}
            Some(saved) => {
                self.lines = saved.lines;
                self.cursor_row = min_usize(saved.cursor_row, self.rows - 1);
                self.cursor_col = min_usize(saved.cursor_col, self.cols - 1);
                self.saved_row = min_usize(saved.saved_row, self.rows - 1);
                self.saved_col = min_usize(saved.saved_col, self.cols - 1);
                self.style = saved.style;
                self.scroll_top = min_usize(saved.scroll_top, self.rows - 1);
                self.scroll_bottom = min_usize(saved.scroll_bottom, self.rows - 1);
                self.cursor_visible = saved.cursor_visible;
                self.wrap_pending = false;
            }
        }
    }
}

fn min_usize(a: usize, b: usize) -> (r: usize)
    ensures
        r == clamp_to(a as int, b as int),
{
    if a < b {
        a
    } else {
        b
    }
}

/// The smaller of a value and a cap.
pub open spec fn clamp_to(v: int, cap: int) -> int {
    if v < cap {
        v
    } else {
        cap
    }
}

/// What erasing within a row leaves: mode 0 blanks from `col` on, mode 1 blanks
/// through `col`, mode 2 blanks everything, anything else leaves the row alone.
pub open spec fn erased_line_row(
    oldrow: Vec<Cell>,
    newrow: Vec<Cell>,
    col: int,
    cols: int,
    mode: int,
) -> bool {
    if mode == 0 {
        &&& newrow@.len() == oldrow@.len()
        &&& forall|j: int| 0 <= j < col ==> newrow@[j] == oldrow@[j]
        &&& forall|j: int| col <= j < cols ==> is_blank_cell(#[trigger] newrow@[j])
    } else if mode == 1 {
        &&& newrow@.len() == oldrow@.len()
        &&& forall|j: int| 0 <= j <= col && j < cols ==> is_blank_cell(#[trigger] newrow@[j])
        &&& forall|j: int| col < j < oldrow@.len() ==> newrow@[j] == oldrow@[j]
    } else if mode == 2 {
        is_blank_row(newrow, cols)
    } else {
        newrow == oldrow
    }
}

/// What erasing within the display leaves, row by row.
pub open spec fn erased_display_lines(
    oldl: Seq<Vec<Cell>>,
    newl: Seq<Vec<Cell>>,
    row: int,
    col: int,
    cols: int,
    mode: int,
) -> bool {
    if mode == 0 {
        &&& forall|r: int| 0 <= r < row ==> newl[r] == oldl[r]
        &&& erased_line_row(oldl[row], newl[row], col, cols, 0)
        &&& forall|r: int| row < r < oldl.len() ==> is_blank_row(#[trigger] newl[r], cols)
    } else if mode == 1 {
        &&& forall|r: int| 0 <= r < row ==> is_blank_row(#[trigger] newl[r], cols)
        &&& erased_line_row(oldl[row], newl[row], col, cols, 1)
        &&& forall|r: int| row < r < oldl.len() ==> newl[r] == oldl[r]
    } else if mode == 2 || mode == 3 {
        forall|r: int| 0 <= r < oldl.len() ==> is_blank_row(#[trigger] newl[r], cols)
    } else {
        newl == oldl
    }
}

/// The row after a zero-width character joined the cell at `col`: that cell's
/// text grows by the character, nothing else moves.
pub open spec fn final_row_ok(oldrow: Vec<Cell>, newrow: Vec<Cell>, col: int, ch: char) -> bool {
    &&& newrow@.len() == oldrow@.len()
    &&& forall|j: int| 0 <= j < oldrow@.len() && j != col ==> newrow@[j] == oldrow@[j]
    &&& newrow@[col].text@ == oldrow@[col].text@ + seq![ch]
    &&& newrow@[col].style == oldrow@[col].style
}

/// What writing a width-one character at the cursor does: the cursor's cell
/// becomes that character in the active style; at the last column the wrap is
/// deferred, elsewhere the cursor advances.
pub open spec fn wrote_char_at(pre: VtLite, post: VtLite, ch: char) -> bool {
    &&& post.cursor_row == pre.cursor_row
    &&& post.lines@.len() == pre.lines@.len()
    &&& forall|r: int|
        0 <= r < pre.lines@.len() && r != pre.cursor_row ==> post.lines@[r] == pre.lines@[r]
    &&& post.lines@[pre.cursor_row as int]@.len() == pre.lines@[pre.cursor_row as int]@.len()
    &&& forall|j: int|
        0 <= j < pre.lines@[pre.cursor_row as int]@.len() && j != pre.cursor_col
            ==> post.lines@[pre.cursor_row as int]@[j] == pre.lines@[pre.cursor_row as int]@[j]
    &&& post.lines@[pre.cursor_row as int]@[pre.cursor_col as int].text@ == seq![ch]
    &&& post.lines@[pre.cursor_row as int]@[pre.cursor_col as int].style == pre.style
    &&& if pre.cursor_col >= pre.cols - 1 {
        post.wrap_pending == true && post.cursor_col == pre.cursor_col
    } else {
        post.wrap_pending == pre.wrap_pending && post.cursor_col == pre.cursor_col + 1
    }
    &&& post.cols == pre.cols
    &&& post.rows == pre.rows
    &&& post.saved_row == pre.saved_row
    &&& post.saved_col == pre.saved_col
    &&& post.style == pre.style
    &&& post.scroll_top == pre.scroll_top
    &&& post.scroll_bottom == pre.scroll_bottom
    &&& post.cursor_visible == pre.cursor_visible
    &&& post.saved_primary == pre.saved_primary
}

/// What entering the alternate screen does: with nothing saved yet, the whole
/// state is stored and the machine starts over on a blank grid (the cursor
/// visibility carries over); with a screen already saved, nothing happens.
pub open spec fn entered_alt(pre: VtLite, post: VtLite) -> bool {
    if pre.saved_primary is Some {
        post == pre
    } else {
        &&& post.same_dims(pre)
        &&& post.saved_primary == Some(
            SavedScreen {
                lines: pre.lines,
                cursor_row: pre.cursor_row,
                cursor_col: pre.cursor_col,
                saved_row: pre.saved_row,
                saved_col: pre.saved_col,
                style: pre.style,
                scroll_top: pre.scroll_top,
                scroll_bottom: pre.scroll_bottom,
                cursor_visible: pre.cursor_visible,
            },
        )
        &&& post.lines@.len() == pre.rows
        &&& forall|i: int|
            0 <= i < pre.rows ==> is_blank_row(#[trigger] post.lines@[i], pre.cols as int)
        &&& post.cursor_row == 0
        &&& post.cursor_col == 0
        &&& post.saved_row == 0
        &&& post.saved_col == 0
        &&& post.style == default_style()
        &&& post.scroll_top == 0
        &&& post.scroll_bottom == pre.rows - 1
        &&& post.wrap_pending == false
        &&& post.cursor_visible == pre.cursor_visible
    }
}

/// What leaving the alternate screen does: every saved field is restored, the
/// positions clamped into the grid; with nothing saved, nothing happens.
pub open spec fn left_alt(pre: VtLite, post: VtLite) -> bool {
    match pre.saved_primary {
        None => post == pre,
        Some(s) => {
            &&& post.same_dims(pre)
            &&& post.lines == s.lines
            &&& post.cursor_row == clamp_to(s.cursor_row as int, pre.rows as int - 1)
            &&& post.cursor_col == clamp_to(s.cursor_col as int, pre.cols as int - 1)
            &&& post.saved_row == clamp_to(s.saved_row as int, pre.rows as int - 1)
            &&& post.saved_col == clamp_to(s.saved_col as int, pre.cols as int - 1)
            &&& post.style == s.style
            &&& post.scroll_top == clamp_to(s.scroll_top as int, pre.rows as int - 1)
            &&& post.scroll_bottom == clamp_to(s.scroll_bottom as int, pre.rows as int - 1)
            &&& post.cursor_visible == s.cursor_visible
            &&& post.wrap_pending == false
            &&& post.saved_primary is None
        },
    }
}

/// What one `write_char` call does: zero-width characters join the cell before
/// the cursor; a width-one character first completes a deferred wrap (carriage
/// return plus line feed), then overwrites the cursor's cell.
pub open spec fn write_char_rel(pre: VtLite, post: VtLite, ch: char) -> bool {
    if spec_char_width(ch) == 0 {
        let prev = if pre.cursor_col > 0 {
            pre.cursor_col - 1
        } else {
            pre.cursor_col as int
        };
        &&& post == VtLite { lines: post.lines, ..pre }
        &&& post.lines@.len() == pre.lines@.len()
        &&& forall|r: int|
            0 <= r < pre.lines@.len() && r != pre.cursor_row ==> post.lines@[r] == pre.lines@[r]
        &&& final_row_ok(
            pre.lines@[pre.cursor_row as int],
            post.lines@[pre.cursor_row as int],
            prev,
            ch,
        )
    } else if !pre.wrap_pending {
        wrote_char_at(pre, post, ch)
    } else {
        exists|m: VtLite| #[trigger]
            line_feed_moved(VtLite { cursor_col: 0, wrap_pending: false, ..pre }, m)
                && m.eq_except_lines(
                VtLite { cursor_row: m.cursor_row, cursor_col: 0, wrap_pending: false, ..pre },
            ) && wrote_char_at(m, post, ch)
    }
}

/// One simple SGR code applied to a style; extended colours are handled apart.
pub open spec fn sgr_step(s: CellStyle, code: int) -> CellStyle {
    if code == 0 {
        default_style()
    } else if code == 1 {
        CellStyle { bold: true, ..s }
    } else if code == 3 {
        CellStyle { italic: true, ..s }
    } else if code == 4 {
        CellStyle { underline: true, ..s }
    } else if code == 7 {
        CellStyle { inverse: true, ..s }
    } else if code == 22 {
        CellStyle { bold: false, ..s }
    } else if code == 23 {
        CellStyle { italic: false, ..s }
    } else if code == 24 {
        CellStyle { underline: false, ..s }
    } else if code == 27 {
        CellStyle { inverse: false, ..s }
    } else if 30 <= code <= 37 {
        CellStyle { fg: Some(crate::style::palette_color(code - 30)), ..s }
    } else if code == 39 {
        CellStyle { fg: None, ..s }
    } else if 40 <= code <= 47 {
        CellStyle { bg: Some(crate::style::palette_color(code - 40)), ..s }
    } else if code == 49 {
        CellStyle { bg: None, ..s }
    } else if 90 <= code <= 97 {
        CellStyle { fg: Some(crate::style::palette_color(code - 90 + 8)), ..s }
    } else if 100 <= code <= 107 {
        CellStyle { bg: Some(crate::style::palette_color(code - 100 + 8)), ..s }
    } else {
        s
    }
}

fn sgr_step_exec(s: CellStyle, code: i32) -> (r: CellStyle)
    requires
        code != 38,
        code != 48,
    ensures
        r == sgr_step(s, code as int),
{
    if code == 0 {
        CellStyle::default()
    } else if code == 1 {
        CellStyle { bold: true, ..s }
    } else if code == 3 {
        CellStyle { italic: true, ..s }
    } else if code == 4 {
        CellStyle { underline: true, ..s }
    } else if code == 7 {
        CellStyle { inverse: true, ..s }
    } else if code == 22 {
        CellStyle { bold: false, ..s }
    } else if code == 23 {
        CellStyle { italic: false, ..s }
    } else if code == 24 {
        CellStyle { underline: false, ..s }
    } else if code == 27 {
        CellStyle { inverse: false, ..s }
    } else if 30 <= code && code <= 37 {
        CellStyle { fg: crate::style::ansi_16_color((code - 30) as usize), ..s }
    } else if code == 39 {
        CellStyle { fg: None, ..s }
    } else if 40 <= code && code <= 47 {
        CellStyle { bg: crate::style::ansi_16_color((code - 40) as usize), ..s }
    } else if code == 49 {
        CellStyle { bg: None, ..s }
    } else if 90 <= code && code <= 97 {
        CellStyle { fg: crate::style::ansi_16_color((code - 90 + 8) as usize), ..s }
    } else if 100 <= code && code <= 107 {
        CellStyle { bg: crate::style::ansi_16_color((code - 100 + 8) as usize), ..s }
    } else {
        s
    }
}

/// A whole SGR parameter list applied in order: absent codes count as 0; codes
/// 38 and 48 open an extended colour that consumes its following parameters; a
/// malformed extended colour skips past the mode byte and changes nothing.
pub open spec fn sgr_apply(style: CellStyle, params: Seq<Option<i32>>) -> CellStyle {
    if params.len() == 0 {
        default_style()
    } else {
        sgr_from(style, params, 0)
    }
}

pub open spec fn sgr_from(style: CellStyle, params: Seq<Option<i32>>, i: int) -> CellStyle
    decreases params.len() - i,
{
    if i < 0 || i >= params.len() {
        style
    } else {
        let code = match params[i] {
            Some(c) => c as int,
            None => 0,
        };
        if code == 38 || code == 48 {
            let mode = if i + 1 < params.len() {
                params[i + 1]
            } else {
                None
            };
            if mode == Some(2i32) {
                let st = if i + 4 < params.len() {
                    match (params[i + 2], params[i + 3], params[i + 4]) {
                        (Some(r), Some(g), Some(b)) => {
                            let c = crate::style::Color {
                                r: crate::style::clamp_255(r as int) as u8,
                                g: crate::style::clamp_255(g as int) as u8,
                                b: crate::style::clamp_255(b as int) as u8,
                            };
                            if code == 38 {
                                CellStyle { fg: Some(c), ..style }
                            } else {
                                CellStyle { bg: Some(c), ..style }
                            }
                        },
                        _ => style,
                    }
                } else {
                    style
                };
                sgr_from(st, params, if i + 5 <= params.len() { i + 5 } else { params.len() as int })
            } else if mode == Some(5i32) {
                let st = if i + 2 < params.len() {
                    match params[i + 2] {
                        Some(idx) => match crate::style::xterm_color(idx as int) {
                            Some(c) => if code == 38 {
                                CellStyle { fg: Some(c), ..style }
                            } else {
                                CellStyle { bg: Some(c), ..style }
                            },
                            None => style,
                        },
                        None => style,
                    }
                } else {
                    style
                };
                sgr_from(st, params, if i + 3 <= params.len() { i + 3 } else { params.len() as int })
            } else {
                sgr_from(style, params, if i + 2 <= params.len() { i + 2 } else { params.len() as int })
            }
        } else {
            sgr_from(sgr_step(style, code), params, i + 1)
        }
    }
}

/// How many rows one scroll call moves: at least one, at most the region's span.
pub open spec fn scroll_count(count: int, top: int, bottom: int) -> int {
    let n = if count > 1 {
        count
    } else {
        1
    };
    if n > bottom - top + 1 {
        bottom - top + 1
    } else {
        n
    }
}

/// What a line feed does: inside the scroll region at its bottom row, the
/// region's rows move up one and its last row becomes blank (when the region
/// has more than one row); elsewhere the cursor steps down, capped at the
/// grid's last row.
pub open spec fn line_feed_moved(pre: VtLite, post: VtLite) -> bool {
    if pre.scroll_top <= pre.cursor_row && pre.cursor_row == pre.scroll_bottom {
        &&& post.cursor_row == pre.cursor_row
        &&& if pre.scroll_top < pre.scroll_bottom {
            &&& post.lines@.len() == pre.lines@.len()
            &&& forall|r: int|
                0 <= r < pre.lines@.len() && (r < pre.scroll_top || r > pre.scroll_bottom)
                    ==> post.lines@[r] == pre.lines@[r]
            &&& forall|r: int|
                pre.scroll_top <= r < pre.scroll_bottom ==> post.lines@[r] == pre.lines@[r + 1]
            &&& is_blank_row(post.lines@[pre.scroll_bottom as int], pre.cols as int)
        } else {
            post.lines == pre.lines
        }
    } else {
        &&& post.lines == pre.lines
        &&& post.cursor_row == if pre.cursor_row + 1 <= pre.rows - 1 {
            pre.cursor_row + 1
        } else {
            pre.rows - 1
        }
    }
}

/// What a reverse index does: inside the scroll region at its top row, the
/// region's rows move down one and its first row becomes blank (when the region
/// has more than one row); elsewhere the cursor steps up, floored at row zero.
pub open spec fn reverse_index_moved(pre: VtLite, post: VtLite) -> bool {
    if pre.cursor_row <= pre.scroll_bottom && pre.cursor_row == pre.scroll_top {
        &&& post.cursor_row == pre.cursor_row
        &&& if pre.scroll_top < pre.scroll_bottom {
            &&& post.lines@.len() == pre.lines@.len()
            &&& forall|r: int|
                0 <= r < pre.lines@.len() && (r < pre.scroll_top || r > pre.scroll_bottom)
                    ==> post.lines@[r] == pre.lines@[r]
            &&& forall|r: int|
                pre.scroll_top < r <= pre.scroll_bottom ==> post.lines@[r] == pre.lines@[r - 1]
            &&& is_blank_row(post.lines@[pre.scroll_top as int], pre.cols as int)
        } else {
            post.lines == pre.lines
        }
    } else {
        &&& post.lines == pre.lines
        &&& post.cursor_row == if pre.cursor_row > 0 {
            pre.cursor_row - 1
        } else {
            0
        }
    }
}

} // verus!
