use vstd::prelude::*;
use crate::width::{char_display_width, display_width};

verus! {

/// One stored character together with its precomputed display width in
/// columns. The width is computed once, when the cell is created, and never
/// recomputed.
#[derive(Debug, Clone, Copy)]
pub struct Cell {
    pub ch: char,
    pub width: usize,
}

/// The cell that a character is stored as: the character beside its display
/// width under the Unicode width tables.
pub open spec fn cell_of(ch: char) -> Cell {
    Cell { ch, width: char_display_width(ch).unwrap() }
}

/// The blank cell used to pad a row out to a requested column.
pub open spec fn space_cell() -> Cell {
    Cell { ch: ' ', width: 1 }
}

/// A run of `n` padding cells.
pub open spec fn pad_cells(n: int) -> Seq<Cell> {
    Seq::new(if n >= 0 { n as nat } else { 0 }, |i: int| space_cell())
}

/// Total display width of a sequence of cells.
pub open spec fn width_sum(cells: Seq<Cell>) -> nat
    decreases cells.len(),
{
    if cells.len() == 0 {
        0
    } else {
        (cells[0].width + width_sum(cells.drop_first())) as nat
    }
}

/// The storage index that the display-width coordinate `x` resolves to in
/// `cells`: scanning left to right, the first index whose accumulated width so
/// far is at least `x`, or the append position `cells.len()` if there is none.
pub open spec fn col_index(cells: Seq<Cell>, x: int) -> int
    decreases cells.len(),
{
    if x <= 0 || cells.len() == 0 {
        0
    } else {
        1 + col_index(cells.drop_first(), x - cells[0].width)
    }
}

/// One line of the grid: its cells in display order, and the cached total
/// display width of those cells.
#[derive(Debug)]
pub struct Line {
    pub cells: Vec<Cell>,
    pub width: usize,
}

impl View for Line {
    type V = Seq<Cell>;

    open spec fn view(&self) -> Seq<Cell> {
        self.cells@
    }
}

impl Line {
    /// The cached width agrees with the cells.
    pub open spec fn wf(self) -> bool {
        self.width == width_sum(self.cells@)
    }

    /// Appends a cell for `ch`. The cached width is deliberately left
    /// untouched: the caller accounts for the added width itself.
    pub fn push_char(&mut self, ch: char)
        requires
            char_display_width(ch) is Some,
        ensures
            final(self).cells@ == old(self).cells@.push(cell_of(ch)),
            final(self).width == old(self).width,
    {
        match display_width(ch) {
            Some(w) => {
                self.cells.push(Cell { ch, width: w });
            },
            None => {
                // unreachable: the precondition says the width is defined
            },
        }
    }
}

impl Default for Line {
    /// An empty line of width zero.
    fn default() -> (l: Line)
        ensures
            l.cells@.len() == 0,
            l.width == 0,
            l.wf(),
    {
        Line { cells: Vec::new(), width: 0 }
    }
}

/// The width of a concatenation is the sum of the widths of the parts.
pub proof fn lemma_width_sum_concat(a: Seq<Cell>, b: Seq<Cell>)
    ensures
        width_sum(a + b) == width_sum(a) + width_sum(b),
    decreases a.len(),
{
    if a.len() == 0 {
        assert(a + b =~= b);
    } else {
        assert((a + b).drop_first() =~= a.drop_first() + b);
        lemma_width_sum_concat(a.drop_first(), b);
    }
}

/// The width of a single cell, as a sequence.
pub proof fn lemma_width_sum_singleton(c: Cell)
    ensures
        width_sum(seq![c]) == c.width,
{
    assert(width_sum(Seq::<Cell>::empty()) == 0);
    assert(seq![c].drop_first() =~= Seq::<Cell>::empty());
    assert(seq![c][0] == c);
}

/// A sequence's width splits at any cut point.
pub proof fn lemma_width_sum_take_skip(s: Seq<Cell>, k: int)
    requires
        0 <= k <= s.len(),
    ensures
        width_sum(s) == width_sum(s.take(k)) + width_sum(s.skip(k)),
{
    assert(s =~= s.take(k) + s.skip(k));
    lemma_width_sum_concat(s.take(k), s.skip(k));
}

/// Inserting a cell adds exactly its width.
pub proof fn lemma_width_sum_insert(s: Seq<Cell>, k: int, c: Cell)
    requires
        0 <= k <= s.len(),
    ensures
        width_sum(s.insert(k, c)) == width_sum(s) + c.width,
{
    assert(s.insert(k, c) =~= s.take(k) + (seq![c] + s.skip(k)));
    lemma_width_sum_concat(s.take(k), seq![c] + s.skip(k));
    lemma_width_sum_concat(seq![c], s.skip(k));
    lemma_width_sum_singleton(c);
    lemma_width_sum_take_skip(s, k);
}

/// Replacing a cell trades its width for the new cell's width.
pub proof fn lemma_width_sum_update(s: Seq<Cell>, k: int, c: Cell)
    requires
        0 <= k < s.len(),
    ensures
        width_sum(s.update(k, c)) + s[k].width == width_sum(s) + c.width,
{
    assert(s.update(k, c) =~= s.take(k) + (seq![c] + s.skip(k + 1)));
    assert(s =~= s.take(k) + (seq![s[k]] + s.skip(k + 1)));
    lemma_width_sum_concat(s.take(k), seq![c] + s.skip(k + 1));
    lemma_width_sum_concat(seq![c], s.skip(k + 1));
    lemma_width_sum_concat(s.take(k), seq![s[k]] + s.skip(k + 1));
    lemma_width_sum_concat(seq![s[k]], s.skip(k + 1));
    lemma_width_sum_singleton(c);
    lemma_width_sum_singleton(s[k]);
}

/// Removing a cell subtracts exactly its width.
pub proof fn lemma_width_sum_remove(s: Seq<Cell>, k: int)
    requires
        0 <= k < s.len(),
    ensures
        width_sum(s.remove(k)) + s[k].width == width_sum(s),
{
    assert(s.remove(k) =~= s.take(k) + s.skip(k + 1));
    assert(s =~= s.take(k) + (seq![s[k]] + s.skip(k + 1)));
    lemma_width_sum_concat(s.take(k), s.skip(k + 1));
    lemma_width_sum_concat(s.take(k), seq![s[k]] + s.skip(k + 1));
    lemma_width_sum_concat(seq![s[k]], s.skip(k + 1));
    lemma_width_sum_singleton(s[k]);
}

/// No single cell is wider than the whole sequence.
pub proof fn lemma_width_sum_elem(s: Seq<Cell>, k: int)
    requires
        0 <= k < s.len(),
    ensures
        s[k].width <= width_sum(s),
{
    lemma_width_sum_remove(s, k);
}

/// A run of padding cells is as wide as it is long.
pub proof fn lemma_width_sum_pad(n: int)
    requires
        n >= 0,
    ensures
        width_sum(pad_cells(n)) == n,
    decreases n,
{
    if n == 0 {
        assert(pad_cells(0) =~= Seq::<Cell>::empty());
    } else {
        assert(pad_cells(n).drop_first() =~= pad_cells(n - 1));
        lemma_width_sum_pad(n - 1);
    }
}

/// The resolved storage index is always within the cell sequence, counting the
/// append position.
pub proof fn lemma_col_index_bounds(s: Seq<Cell>, x: int)
    ensures
        0 <= col_index(s, x) <= s.len(),
    decreases s.len(),
{
    if !(x <= 0 || s.len() == 0) {
        lemma_col_index_bounds(s.drop_first(), x - s[0].width);
    }
}

/// A coordinate past every proper prefix of the cells resolves to the append
/// position.
pub proof fn lemma_col_index_append(s: Seq<Cell>, x: int)
    requires
        width_sum(s) <= x,
        s.len() > 0 ==> width_sum(s.drop_last()) < x,
    ensures
        col_index(s, x) == s.len(),
    decreases s.len(),
{
    if s.len() > 0 {
        assert(x > 0);
        if s.len() == 1 {
            assert(s.drop_last() =~= Seq::<Cell>::empty());
            assert(width_sum(Seq::<Cell>::empty()) == 0);
            assert(s.drop_first() =~= Seq::<Cell>::empty());
            assert(col_index(s.drop_first(), x - s[0].width) == 0);
        } else {
            assert(s.drop_first().drop_last() =~= s.drop_last().drop_first());
            assert(s.drop_last()[0] == s[0]);
            lemma_col_index_append(s.drop_first(), x - s[0].width);
        }
    }
}

} // verus!
