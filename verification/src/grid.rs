use vstd::prelude::*;
use crate::line::{
    Cell, Line, cell_of, col_index, lemma_col_index_bounds,
    lemma_width_sum_concat, lemma_width_sum_elem, lemma_width_sum_insert, lemma_width_sum_pad,
    lemma_width_sum_remove, lemma_width_sum_singleton, lemma_width_sum_take_skip,
    lemma_width_sum_update, pad_cells, space_cell, width_sum,
};
use crate::width::{char_display_width, display_width};

verus! {

/// A two-dimensional text grid: an ordered sequence of lines, indexed by row.
pub struct TextCanvas {
    pub lines: Vec<Line>,
}

impl View for TextCanvas {
    type V = Seq<Seq<Cell>>;

    open spec fn view(&self) -> Seq<Seq<Cell>> {
        Seq::new(self.lines@.len(), |i: int| self.lines@[i].cells@)
    }
}

/// A run of `n` empty rows.
pub open spec fn blank_rows(n: int) -> Seq<Seq<Cell>> {
    Seq::new(if n >= 0 { n as nat } else { 0 }, |i: int| Seq::<Cell>::empty())
}

/// The grid after growing so that row `y` exists: rows are appended, all of
/// them empty, until the row count is `y + 1`.
pub open spec fn grown_rows(g: Seq<Seq<Cell>>, y: int) -> Seq<Seq<Cell>> {
    if y < g.len() {
        g
    } else {
        g + blank_rows(y + 1 - g.len())
    }
}

/// The row after padding so that column `x` is addressable: spaces are
/// appended until the row's width is at least `x`.
pub open spec fn padded_row(row: Seq<Cell>, x: int) -> Seq<Cell> {
    if x > width_sum(row) {
        row + pad_cells(x - width_sum(row))
    } else {
        row
    }
}

/// The grid after inserting a cell for `ch` at display coordinate `(x, y)`:
/// the grid grows so row `y` exists, the row is padded so column `x` is
/// addressable, and the new cell lands at the resolved storage index, shifting
/// the cells after it to the right.
pub open spec fn insert_spec(g: Seq<Seq<Cell>>, x: int, y: int, ch: char) -> Seq<Seq<Cell>> {
    let g1 = grown_rows(g, y);
    let row = padded_row(g1[y], x);
    g1.update(y, row.insert(col_index(row, x), cell_of(ch)))
}

/// The grid after replacing the cell at display coordinate `(x, y)` with a
/// cell for `ch`. Growth and padding happen as for an insert; if the
/// coordinate resolves to the append position (exactly at the end of the
/// line), the replace degrades to an insert there.
pub open spec fn replace_spec(g: Seq<Seq<Cell>>, x: int, y: int, ch: char) -> Seq<Seq<Cell>> {
    let g1 = grown_rows(g, y);
    let row = padded_row(g1[y], x);
    let k = col_index(row, x);
    g1.update(y, if k < row.len() { row.update(k, cell_of(ch)) } else { row.push(cell_of(ch)) })
}

/// The grid after deleting the cell at display coordinate `(x, y)`. There is
/// no growth: if the row does not exist, or the coordinate resolves to the
/// append position, nothing changes.
pub open spec fn delete_spec(g: Seq<Seq<Cell>>, x: int, y: int) -> Seq<Seq<Cell>> {
    if 0 <= y < g.len() {
        let k = col_index(g[y], x);
        if k < g[y].len() {
            g.update(y, g[y].remove(k))
        } else {
            g
        }
    } else {
        g
    }
}

/// The grid after breaking row `y` at display coordinate `x`: the cells from
/// the resolved storage index onward move, in order, to a new row inserted
/// right below. If the row does not exist, nothing changes.
pub open spec fn break_spec(g: Seq<Seq<Cell>>, x: int, y: int) -> Seq<Seq<Cell>> {
    if 0 <= y < g.len() {
        let k = col_index(g[y], x);
        g.update(y, g[y].take(k)).insert(y + 1, g[y].skip(k))
    } else {
        g
    }
}

/// The machine-size bounds under which an insert or replace at `(x, y)`
/// cannot overflow the row-width bookkeeping or the row count: no character
/// is more than 3 columns wide, so the padded row's width plus 3 must still
/// be countable.
pub open spec fn fits(g: Seq<Seq<Cell>>, x: int, y: int) -> bool {
    &&& x <= usize::MAX - 3
    &&& (y >= g.len() ==> y < usize::MAX)
    &&& (y < g.len() ==> width_sum(g[y]) <= usize::MAX - 3)
}

impl Default for TextCanvas {
    /// A grid with no lines at all.
    fn default() -> (c: TextCanvas)
        ensures
            c@.len() == 0,
            c.wf(),
    {
        TextCanvas { lines: Vec::new() }
    }
}

impl TextCanvas {
    /// The width-bookkeeping invariant: every line's cached width equals the
    /// total display width of its cells. Construction establishes it and
    /// every mutation preserves it.
    pub open spec fn wf(self) -> bool {
        forall|i: int| 0 <= i < self.lines@.len() ==> (#[trigger] self.lines@[i]).wf()
    }

    /// A grid with no lines at all.
    pub fn empty() -> (c: TextCanvas)
        ensures
            c@.len() == 0,
            c.wf(),
    {
        TextCanvas { lines: Vec::new() }
    }

    /// The number of rows currently stored.
    pub fn total_lines(&self) -> (n: usize)
        ensures
            n == self@.len(),
    {
        self.lines.len()
    }

    /// The display width of row `n`, or `None` if that row does not exist.
    /// The width is read from the cache, never recomputed from the cells.
    pub fn line_width(&self, n: usize) -> (r: Option<usize>)
        requires
            self.wf(),
        ensures
            match r {
                Some(w) => n < self@.len() && w == width_sum(self@[n as int]),
                None => n >= self@.len(),
            },
    {
        if n < self.lines.len() {
            Some(self.lines[n].width)
        } else {
            None
        }
    }

    /// Appends `n` empty rows.
    pub fn add_lines(&mut self, n: usize)
        requires
            old(self)@.len() + n <= usize::MAX,
        ensures
            final(self).lines@.len() == old(self).lines@.len() + n,
            forall|i: int|
                0 <= i < old(self).lines@.len() ==> final(self).lines@[i] == old(self).lines@[i],
            forall|i: int|
                old(self).lines@.len() <= i < final(self).lines@.len() ==> (
                #[trigger] final(self).lines@[i]).wf() && final(self).lines@[i].cells@.len() == 0,
            final(self)@ == old(self)@ + blank_rows(n as int),
            old(self).wf() ==> final(self).wf(),
    {
        let ghost orig = self.lines@;
        let mut i: usize = 0;
        while i < n
            invariant
                i <= n,
                orig.len() + n <= usize::MAX,
                self.lines@.len() == orig.len() + i,
                forall|j: int| 0 <= j < orig.len() ==> self.lines@[j] == orig[j],
                forall|j: int|
                    orig.len() <= j < self.lines@.len() ==> (#[trigger] self.lines@[j]).wf()
                        && self.lines@[j].cells@.len() == 0,
            decreases n - i,
        {
            self.lines.push(Line::default());
            i = i + 1;
        }
        proof {
            assert(self@ =~~= old(self)@ + blank_rows(n as int));
            if old(self).wf() {
                assert forall|j: int|
                    0 <= j < self.lines@.len() implies (#[trigger] self.lines@[j]).wf() by {
                    if j < orig.len() {
                        assert(old(self).lines@[j].wf());
                    }
                }
            }
        }
    }

    /// Pads row `y` with `n` spaces, each one column wide, appended at the
    /// end of the line.
    fn add_col(&mut self, y: usize, n: usize)
        requires
            old(self).wf(),
            y < old(self)@.len(),
            width_sum(old(self)@[y as int]) + n <= usize::MAX,
        ensures
            final(self).wf(),
            final(self)@ == old(self)@.update(y as int, old(self)@[y as int] + pad_cells(n as int)),
    {
        let ghost orig = self.lines@;
        let ch = ' ';
        let mut i: usize = 0;
        while i < n
            invariant
                ch == ' ',
                i <= n,
                self.wf(),
                self.lines@.len() == orig.len(),
                y < orig.len(),
                width_sum(orig[y as int].cells@) + n <= usize::MAX,
                forall|j: int| 0 <= j < orig.len() && j != y ==> self.lines@[j] == orig[j],
                self.lines@[y as int].cells@ == orig[y as int].cells@ + pad_cells(i as int),
            decreases n - i,
        {
            let wopt = display_width(ch);
            let w: usize = match wopt {
                Some(w) => w,
                None => 0,
            };
            proof {
                assert(w == 1);
                lemma_width_sum_concat(orig[y as int].cells@, pad_cells(i as int));
                lemma_width_sum_pad(i as int);
            }
            let row = vstd::std_specs::vec::vec_index_mut(&mut self.lines, y);
            row.push_char(ch);
            row.width = row.width + w;
            i = i + 1;
            proof {
                assert(cell_of(ch) == space_cell());
                assert(self.lines@[y as int].cells@ =~= orig[y as int].cells@ + pad_cells(i as int));
                lemma_width_sum_concat(orig[y as int].cells@, pad_cells(i as int));
                lemma_width_sum_pad(i as int);
                assert(self.lines@[y as int].wf());
            }
        }
        proof {
            assert(self@ =~~= old(self)@.update(
                y as int,
                old(self)@[y as int] + pad_cells(n as int),
            ));
        }
    }

    /// Resolves the display-width coordinate `x` to a storage index in
    /// `line`, per the left-to-right scanning rule.
    pub fn calc_col_insert_position(line: &Line, x: usize) -> (k: usize)
        requires
            line.wf(),
        ensures
            k == col_index(line@, x as int),
            k <= line@.len(),
    {
        let mut col_width: usize = 0;
        let mut i: usize = 0;
        proof {
            assert(line@.skip(0) =~= line@);
            assert(line@.take(0) =~= Seq::<Cell>::empty());
        }
        while i < line.cells.len()
            invariant
                line.wf(),
                i <= line@.len(),
                col_width == width_sum(line@.take(i as int)),
                col_width <= width_sum(line@),
                col_index(line@, x as int) == i + col_index(
                    line@.skip(i as int),
                    x - col_width,
                ),
            decreases line@.len() - i,
        {
            if col_width >= x {
                proof {
                    lemma_col_index_bounds(line@, x as int);
                }
                return i;
            }
            proof {
                let s = line@;
                let ii = i as int;
                assert(s.skip(ii).len() > 0);
                assert(s.skip(ii)[0] == s[ii]);
                assert(s.skip(ii).drop_first() =~= s.skip(ii + 1));
                assert(s.take(ii + 1) =~= s.take(ii) + seq![s[ii]]);
                lemma_width_sum_concat(s.take(ii), seq![s[ii]]);
                lemma_width_sum_singleton(s[ii]);
                lemma_width_sum_take_skip(s, ii + 1);
            }
            col_width = col_width + line.cells[i].width;
            i = i + 1;
        }
        proof {
            assert(line@.skip(line@.len() as int) =~= Seq::<Cell>::empty());
        }
        line.cells.len()
    }

    /// Places a character at display coordinate `(x, y)`, growing the grid
    /// first so the coordinate is addressable: missing rows are appended as
    /// empty lines, and the target row is padded with spaces out to column
    /// `x`. With `is_replace` the resolved cell is replaced in place (an
    /// append-position result degrades to an insert); otherwise the new cell
    /// is inserted there and later cells shift right.
    fn add_char(&mut self, is_replace: bool, x: usize, y: usize, ch: char)
        requires
            old(self).wf(),
            ch != '\n',
            ch != '\t',
            char_display_width(ch) is Some,
            fits(old(self)@, x as int, y as int),
        ensures
            final(self).wf(),
            is_replace ==> final(self)@ == replace_spec(old(self)@, x as int, y as int, ch),
            !is_replace ==> final(self)@ == insert_spec(old(self)@, x as int, y as int, ch),
    {
        let ghost g0 = self@;
        let total = self.lines.len();
        if y >= total {
            self.add_lines(y - total + 1);
        }
        proof {
            assert(self@ =~~= grown_rows(g0, y as int));
        }
        let ghost g1 = grown_rows(g0, y as int);
        proof {
            if y as int >= g0.len() {
                assert(g1[y as int] =~= Seq::<Cell>::empty());
            }
            assert(self@[y as int] == self.lines@[y as int].cells@);
            assert(width_sum(g1[y as int]) <= usize::MAX - 3);
        }
        let line_w = self.lines[y].width;
        if x > line_w {
            self.add_col(y, x - line_w);
            proof {
                assert(self@ =~~= g1.update(y as int, padded_row(g1[y as int], x as int)));
            }
        }
        let ghost row = padded_row(g1[y as int], x as int);
        proof {
            assert(self@ =~~= g1.update(y as int, row));
            if x as int > width_sum(g1[y as int]) {
                lemma_width_sum_concat(
                    g1[y as int],
                    pad_cells(x as int - width_sum(g1[y as int])),
                );
                lemma_width_sum_pad(x as int - width_sum(g1[y as int]));
                assert(width_sum(row) == x as int);
            }
            assert(width_sum(row) <= usize::MAX - 3);
            assert(self@[y as int] == row);
            assert(self@[y as int] == self.lines@[y as int].cells@);
            assert(self.lines@[y as int].cells@ == row);
        }
        let wopt = display_width(ch);
        let w: usize = match wopt {
            Some(w2) => w2,
            None => 0,
        };
        proof {
            assert(w == cell_of(ch).width);
            assert(w <= 3);
        }
        let k = Self::calc_col_insert_position(&self.lines[y], x);
        let ghost mid = self.lines@;
        proof {
            assert(mid.len() == g1.len());
            assert forall|i: int|
                0 <= i < mid.len() && i != y implies #[trigger] mid[i].cells@ == g1[i] by {
                assert(self@[i] == mid[i].cells@);
                assert(g1.update(y as int, row)[i] == g1[i]);
            }
            assert(forall|i: int| 0 <= i < mid.len() ==> (#[trigger] mid[i]).wf());
        }
        let rowref = vstd::std_specs::vec::vec_index_mut(&mut self.lines, y);
        if is_replace && k < rowref.cells.len() {
            let removed = rowref.cells.remove(k);
            rowref.cells.insert(k, Cell { ch, width: w });
            proof {
                lemma_width_sum_elem(row, k as int);
            }
            rowref.width = rowref.width - removed.width + w;
            proof {
                assert(rowref.cells@ =~= row.update(k as int, cell_of(ch)));
                lemma_width_sum_update(row, k as int, cell_of(ch));
                assert(rowref.wf());
            }
        } else {
            rowref.cells.insert(k, Cell { ch, width: w });
            rowref.width = rowref.width + w;
            proof {
                assert(rowref.cells@ == row.insert(k as int, cell_of(ch)));
                lemma_width_sum_insert(row, k as int, cell_of(ch));
                assert(rowref.wf());
            }
        }
        proof {
            assert(self.lines@ == mid.update(y as int, *final(rowref)));
            let fin = self.lines@;
            let kk = col_index(row, x as int);
            let newrow: Seq<Cell> = if is_replace && kk < row.len() {
                row.update(kk, cell_of(ch))
            } else if is_replace {
                row.push(cell_of(ch))
            } else {
                row.insert(kk, cell_of(ch))
            };
            if is_replace && !(kk < row.len()) {
                assert(kk == row.len());
                assert(row.insert(kk, cell_of(ch)) =~= row.push(cell_of(ch)));
            }
            assert(fin[y as int].cells@ == newrow);
            assert(fin[y as int].wf());
            assert forall|i: int| 0 <= i < fin.len() implies (#[trigger] fin[i]).wf() by {
                if i != y {
                    assert(fin[i] == mid[i]);
                    assert(mid[i].wf());
                }
            }
            let target = g1.update(y as int, newrow);
            assert forall|i: int| 0 <= i < fin.len() implies self@[i] == target[i] by {
                assert(self@[i] == fin[i].cells@);
                if i != y {
                    assert(fin[i] == mid[i]);
                }
            }
            assert(self@ =~~= target);
            if is_replace {
                assert(target == replace_spec(g0, x as int, y as int, ch));
            } else {
                assert(target == insert_spec(g0, x as int, y as int, ch));
            }
        }
    }

    /// Inserts a character at display coordinate `(x, y)`, growing the grid
    /// as needed; existing cells from the resolved position onward shift
    /// right. Never overwrites a cell.
    pub fn insert_char(&mut self, x: usize, y: usize, ch: char)
        requires
            old(self).wf(),
            ch != '\n',
            ch != '\t',
            char_display_width(ch) is Some,
            fits(old(self)@, x as int, y as int),
        ensures
            final(self).wf(),
            final(self)@ == insert_spec(old(self)@, x as int, y as int, ch),
    {
        self.add_char(false, x, y, ch);
    }

    /// Replaces the character at display coordinate `(x, y)`, growing the
    /// grid as needed. If the coordinate resolves to the append position
    /// (exactly at the end of the line), the replace degrades to an insert.
    pub fn replace_char(&mut self, x: usize, y: usize, ch: char)
        requires
            old(self).wf(),
            ch != '\n',
            ch != '\t',
            char_display_width(ch) is Some,
            fits(old(self)@, x as int, y as int),
        ensures
            final(self).wf(),
            final(self)@ == replace_spec(old(self)@, x as int, y as int, ch),
    {
        self.add_char(true, x, y, ch);
    }

    /// Inserts like `insert_char`, but first checks everything that
    /// `insert_char` requires of its input: that `ch` is no line terminator
    /// or tab, that it has a defined display width, and that the coordinate
    /// is within machine-size bounds. Returns whether the insert happened;
    /// on `false` the grid is unchanged.
    pub fn try_insert_char(&mut self, x: usize, y: usize, ch: char) -> (ok: bool)
        requires
            old(self).wf(),
        ensures
            final(self).wf(),
            ok <==> (ch != '\n' && ch != '\t' && char_display_width(ch) is Some && fits(
                old(self)@,
                x as int,
                y as int,
            )),
            ok ==> final(self)@ == insert_spec(old(self)@, x as int, y as int, ch),
            !ok ==> final(self)@ == old(self)@,
    {
        if !self.mutation_bounds_ok(x, y, ch) {
            return false;
        }
        match display_width(ch) {
            Some(_) => {
                self.insert_char(x, y, ch);
                true
            },
            None => false,
        }
    }

    /// Replaces like `replace_char`, but first checks everything that
    /// `replace_char` requires of its input. Returns whether the replace
    /// happened; on `false` the grid is unchanged.
    pub fn try_replace_char(&mut self, x: usize, y: usize, ch: char) -> (ok: bool)
        requires
            old(self).wf(),
        ensures
            final(self).wf(),
            ok <==> (ch != '\n' && ch != '\t' && char_display_width(ch) is Some && fits(
                old(self)@,
                x as int,
                y as int,
            )),
            ok ==> final(self)@ == replace_spec(old(self)@, x as int, y as int, ch),
            !ok ==> final(self)@ == old(self)@,
    {
        if !self.mutation_bounds_ok(x, y, ch) {
            return false;
        }
        match display_width(ch) {
            Some(_) => {
                self.replace_char(x, y, ch);
                true
            },
            None => false,
        }
    }

    /// Whether `ch` is representable in a cell and `(x, y)` is within the
    /// machine-size bounds that an insert or replace demands.
    fn mutation_bounds_ok(&self, x: usize, y: usize, ch: char) -> (ok: bool)
        requires
            self.wf(),
        ensures
            ok <==> (ch != '\n' && ch != '\t' && fits(self@, x as int, y as int)),
    {
        if ch == '\n' || ch == '\t' {
            return false;
        }
        if x > usize::MAX - 3 {
            return false;
        }
        let total = self.lines.len();
        if y >= total {
            y < usize::MAX
        } else {
            self.lines[y].width <= usize::MAX - 3
        }
    }

    /// Deletes the character at display coordinate `(x, y)` and closes the
    /// gap. There is no growth: if the row does not exist, or the coordinate
    /// resolves past the last cell, nothing happens.
    pub fn delete_char(&mut self, x: usize, y: usize)
        requires
            old(self).wf(),
        ensures
            final(self).wf(),
            final(self)@ == delete_spec(old(self)@, x as int, y as int),
    {
        if y >= self.lines.len() {
            return;
        }
        let ghost g0 = self@;
        let ghost row = g0[y as int];
        proof {
            assert(self.lines@[y as int].cells@ == row);
        }
        let k = Self::calc_col_insert_position(&self.lines[y], x);
        if k >= self.lines[y].cells.len() {
            return;
        }
        let ghost mid = self.lines@;
        let rowref = vstd::std_specs::vec::vec_index_mut(&mut self.lines, y);
        let removed = rowref.cells.remove(k);
        proof {
            lemma_width_sum_elem(row, k as int);
        }
        rowref.width = rowref.width - removed.width;
        proof {
            lemma_width_sum_remove(row, k as int);
            assert(rowref.wf());
        }
        proof {
            assert(self.lines@ == mid.update(y as int, *final(rowref)));
            let fin = self.lines@;
            assert(fin[y as int].cells@ == row.remove(k as int));
            assert(fin[y as int].wf());
            assert forall|i: int| 0 <= i < fin.len() implies (#[trigger] fin[i]).wf() by {
                if i != y {
                    assert(fin[i] == mid[i]);
                    assert(old(self).lines@[i].wf());
                }
            }
            let target = g0.update(y as int, row.remove(k as int));
            assert forall|i: int| 0 <= i < fin.len() implies self@[i] == target[i] by {
                assert(self@[i] == fin[i].cells@);
                if i != y {
                    assert(fin[i] == mid[i]);
                    assert(g0[i] == mid[i].cells@);
                }
            }
            assert(self@ =~~= target);
            assert(target == delete_spec(g0, x as int, y as int));
        }
    }

    /// Breaks row `y` at display coordinate `x`: the cells from the resolved
    /// storage index onward move, in order, into a new row inserted right
    /// below; both rows' cached widths are set to the widths of the cells
    /// they keep. If the row does not exist, nothing happens.
    pub fn break_line(&mut self, x: usize, y: usize)
        requires
            old(self).wf(),
            old(self)@.len() < usize::MAX,
        ensures
            final(self).wf(),
            final(self)@ == break_spec(old(self)@, x as int, y as int),
    {
        if y >= self.lines.len() {
            return;
        }
        let ghost g0 = self@;
        let ghost row = g0[y as int];
        proof {
            assert(self.lines@[y as int].cells@ == row);
        }
        let k = Self::calc_col_insert_position(&self.lines[y], x);
        let ghost mid = self.lines@;
        let rowref = vstd::std_specs::vec::vec_index_mut(&mut self.lines, y);
        let tail_cells = rowref.cells.split_off(k);
        proof {
            assert(rowref.cells@ == row.take(k as int));
            assert(tail_cells@ == row.skip(k as int));
            lemma_width_sum_take_skip(row, k as int);
        }
        let tail_width = Self::cells_width(&tail_cells);
        rowref.width = rowref.width - tail_width;
        proof {
            assert(rowref.wf());
        }
        let new_line = Line { cells: tail_cells, width: tail_width };
        self.lines.insert(y + 1, new_line);
        proof {
            let fin = self.lines@;
            assert(fin == mid.update(y as int, *final(rowref)).insert(y as int + 1, new_line));
            assert(fin[y as int].cells@ == row.take(k as int));
            assert(fin[y as int + 1].cells@ == row.skip(k as int));
            assert forall|i: int| 0 <= i < fin.len() implies (#[trigger] fin[i]).wf() by {
                if i < y {
                    assert(fin[i] == mid[i]);
                    assert(old(self).lines@[i].wf());
                } else if i > y + 1 {
                    assert(fin[i] == mid[i - 1]);
                    assert(old(self).lines@[i - 1].wf());
                }
            }
            let target = g0.update(y as int, row.take(k as int)).insert(
                y as int + 1,
                row.skip(k as int),
            );
            assert forall|i: int| 0 <= i < fin.len() implies self@[i] == target[i] by {
                assert(self@[i] == fin[i].cells@);
                if i < y {
                    assert(fin[i] == mid[i]);
                    assert(g0[i] == mid[i].cells@);
                } else if i > y + 1 {
                    assert(fin[i] == mid[i - 1]);
                    assert(g0[i - 1] == mid[i - 1].cells@);
                }
            }
            assert(self@ =~~= target);
            assert(target == break_spec(g0, x as int, y as int));
        }
    }

    /// The total display width of a sequence of cells, recomputed by walking
    /// them.
    fn cells_width(cells: &Vec<Cell>) -> (w: usize)
        requires
            width_sum(cells@) <= usize::MAX,
        ensures
            w == width_sum(cells@),
    {
        let mut w: usize = 0;
        let mut i: usize = 0;
        proof {
            assert(cells@.take(0) =~= Seq::<Cell>::empty());
        }
        while i < cells.len()
            invariant
                i <= cells@.len(),
                width_sum(cells@) <= usize::MAX,
                w == width_sum(cells@.take(i as int)),
            decreases cells@.len() - i,
        {
            proof {
                let s = cells@;
                let ii = i as int;
                assert(s.take(ii + 1) =~= s.take(ii) + seq![s[ii]]);
                lemma_width_sum_concat(s.take(ii), seq![s[ii]]);
                lemma_width_sum_singleton(s[ii]);
                lemma_width_sum_take_skip(s, ii + 1);
            }
            w = w + cells[i].width;
            i = i + 1;
        }
        proof {
            assert(cells@.take(cells@.len() as int) =~= cells@);
        }
        w
    }
}

} // verus!
