use vstd::prelude::*;
use crate::grid::{grown_rows, insert_spec, padded_row, replace_spec};
use crate::line::{
    Cell, cell_of, col_index, lemma_col_index_append, lemma_width_sum_concat,
    lemma_width_sum_insert, lemma_width_sum_pad, pad_cells, width_sum,
};
use crate::text::{
    cells_of, grid_of, lemma_join_split, line_chars, split_lines, text_of,
};

verus! {

/// Round trip: the grid a text constructs emits exactly that text back. The
/// empty text constructs the grid with no rows, which emits the empty text.
pub proof fn lemma_round_trip(s: Seq<char>)
    ensures
        text_of(grid_of(s)) == s,
{
    if s.len() == 0 {
        assert(text_of(grid_of(s)) =~= s);
    } else {
        let parts = split_lines(s);
        let rows = grid_of(s);
        assert(Seq::new(rows.len(), |i: int| line_chars(rows[i])) =~~= parts) by {
            assert forall|i: int| 0 <= i < rows.len() implies line_chars(rows[i]) =~= parts[i] by {
                assert(rows[i] == cells_of(parts[i]));
            }
        }
        lemma_join_split(s);
    }
}

/// Growth: inserting at `(x, y)` with `y` at or past the current row count
/// yields exactly `y + 1` rows, and every row strictly between the old row
/// count and `y` is empty, with width zero.
pub proof fn lemma_insert_grows(g: Seq<Seq<Cell>>, x: int, y: int, ch: char)
    requires
        y >= g.len(),
    ensures
        insert_spec(g, x, y, ch).len() == y + 1,
        forall|r: int| g.len() <= r < y ==> (#[trigger] insert_spec(g, x, y, ch)[r]).len() == 0,
        forall|r: int| g.len() <= r < y ==> width_sum(#[trigger] insert_spec(g, x, y, ch)[r]) == 0,
{
    let g1 = grown_rows(g, y);
    assert(g1.len() == y + 1);
    assert(width_sum(Seq::<Cell>::empty()) == 0);
    assert forall|r: int| g.len() <= r < y implies (#[trigger] insert_spec(g, x, y, ch)[r]).len()
        == 0 && width_sum(insert_spec(g, x, y, ch)[r]) == 0 by {
        assert(insert_spec(g, x, y, ch)[r] == g1[r]);
        assert(g1[r] =~= Seq::<Cell>::empty());
    }
}

/// Padding: inserting at `(x, y)` with `x` past the target row's width pads
/// the row with exactly `x` minus that width spaces, places the new cell
/// after them, and leaves the row exactly `x` plus the new character's width
/// wide.
pub proof fn lemma_insert_pads(g: Seq<Seq<Cell>>, x: int, y: int, ch: char)
    requires
        0 <= y,
        x > width_sum(grown_rows(g, y)[y]),
    ensures
        insert_spec(g, x, y, ch)[y] == grown_rows(g, y)[y] + pad_cells(
            x - width_sum(grown_rows(g, y)[y]),
        ) + seq![cell_of(ch)],
        width_sum(insert_spec(g, x, y, ch)[y]) == x + cell_of(ch).width,
{
    let row0 = grown_rows(g, y)[y];
    let w0 = width_sum(row0) as int;
    let pads = pad_cells(x - w0);
    let row = padded_row(row0, x);
    assert(y < grown_rows(g, y).len());
    assert(row == row0 + pads);
    lemma_width_sum_concat(row0, pads);
    lemma_width_sum_pad(x - w0);
    assert(width_sum(row) == x);
    assert(pads.len() >= 1);
    assert(row.drop_last() =~= row0 + pad_cells(x - w0 - 1));
    lemma_width_sum_concat(row0, pad_cells(x - w0 - 1));
    lemma_width_sum_pad(x - w0 - 1);
    assert(width_sum(row.drop_last()) == x - 1);
    lemma_col_index_append(row, x);
    assert(col_index(row, x) == row.len());
    lemma_width_sum_insert(row, row.len() as int, cell_of(ch));
    assert(row.insert(row.len() as int, cell_of(ch)) =~= row + seq![cell_of(ch)]);
    assert(insert_spec(g, x, y, ch)[y] == row + seq![cell_of(ch)]);
}

/// At the append position a replace degrades to an insert: when the
/// coordinate resolves exactly past the last cell of the (grown, padded)
/// row, replacing and inserting produce the same grid.
pub proof fn lemma_replace_at_end_is_insert(g: Seq<Seq<Cell>>, x: int, y: int, ch: char)
    requires
        col_index(padded_row(grown_rows(g, y)[y], x), x) == padded_row(
            grown_rows(g, y)[y],
            x,
        ).len(),
    ensures
        replace_spec(g, x, y, ch) == insert_spec(g, x, y, ch),
{
    let row = padded_row(grown_rows(g, y)[y], x);
    assert(row.insert(row.len() as int, cell_of(ch)) =~= row.push(cell_of(ch)));
}

} // verus!
