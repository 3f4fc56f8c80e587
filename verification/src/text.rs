use vstd::prelude::*;
use vstd::string::StrSliceExecFns;
use crate::grid::TextCanvas;
use crate::line::{
    Cell, Line, cell_of, lemma_width_sum_concat, lemma_width_sum_singleton, width_sum,
};
use crate::width::{char_display_width, display_width};

verus! {

/// The lines of a text, split on the line terminator: one part more than
/// there are terminators, so a trailing terminator yields a final empty part.
pub open spec fn split_lines(s: Seq<char>) -> Seq<Seq<char>>
    decreases s.len(),
{
    if s.len() == 0 {
        seq![Seq::<char>::empty()]
    } else if s[0] == '\n' {
        seq![Seq::<char>::empty()] + split_lines(s.drop_first())
    } else {
        let rest = split_lines(s.drop_first());
        seq![seq![s[0]] + rest[0]] + rest.drop_first()
    }
}

/// The parts rejoined with a single line terminator between consecutive
/// parts, and none at the end.
pub open spec fn join_lines(parts: Seq<Seq<char>>) -> Seq<char>
    decreases parts.len(),
{
    if parts.len() == 0 {
        Seq::empty()
    } else if parts.len() == 1 {
        parts[0]
    } else {
        parts[0] + seq!['\n'] + join_lines(parts.drop_first())
    }
}

/// One cell per character, in order.
pub open spec fn cells_of(chars: Seq<char>) -> Seq<Cell> {
    Seq::new(chars.len(), |i: int| cell_of(chars[i]))
}

/// The characters of a row of cells, in order.
pub open spec fn line_chars(row: Seq<Cell>) -> Seq<char> {
    Seq::new(row.len(), |i: int| row[i].ch)
}

/// The grid that a text constructs: one row of cells per split part, except
/// that the fully empty text yields a grid with no rows at all.
pub open spec fn grid_of(s: Seq<char>) -> Seq<Seq<Cell>> {
    if s.len() == 0 {
        Seq::empty()
    } else {
        Seq::new(split_lines(s).len(), |i: int| cells_of(split_lines(s)[i]))
    }
}

/// The text that a grid emits: the rows' characters joined by single line
/// terminators.
pub open spec fn text_of(rows: Seq<Seq<Cell>>) -> Seq<char> {
    join_lines(Seq::new(rows.len(), |i: int| line_chars(rows[i])))
}

/// Whether a text can be loaded into a grid: every character off a line
/// boundary has a defined display width, and no line is wider than the width
/// bookkeeping can count.
pub open spec fn text_ok(s: Seq<char>) -> bool {
    &&& forall|i: int|
        0 <= i < s.len() ==> (s[i] == '\n' || crate::width::char_display_width(#[trigger] s[i])
            is Some)
    &&& forall|j: int|
        0 <= j < split_lines(s).len() ==> width_sum(cells_of(#[trigger] split_lines(s)[j]))
            <= usize::MAX
}

/// Splitting always yields at least one part.
pub proof fn lemma_split_lines_len(s: Seq<char>)
    ensures
        split_lines(s).len() >= 1,
    decreases s.len(),
{
    if s.len() != 0 && s[0] == '\n' {
        lemma_split_lines_len(s.drop_first());
    } else if s.len() != 0 {
        lemma_split_lines_len(s.drop_first());
    }
}

/// Joining a sequence of parts with an explicit head.
pub proof fn lemma_join_cons(h: Seq<char>, t: Seq<Seq<char>>)
    ensures
        join_lines(seq![h] + t) == if t.len() == 0 {
            h
        } else {
            h + seq!['\n'] + join_lines(t)
        },
{
    let parts = seq![h] + t;
    assert(parts[0] == h);
    if t.len() == 0 {
        assert(parts.len() == 1);
    } else {
        assert(parts.drop_first() =~= t);
    }
}

/// Joining an extra part at the end appends a terminator and that part.
pub proof fn lemma_join_push(parts: Seq<Seq<char>>, p: Seq<char>)
    ensures
        join_lines(parts.push(p)) == if parts.len() == 0 {
            p
        } else {
            join_lines(parts) + seq!['\n'] + p
        },
    decreases parts.len(),
{
    if parts.len() == 0 {
        assert(parts.push(p)[0] == p);
        assert(parts.push(p).len() == 1);
    } else {
        assert(parts.push(p).drop_first() =~= parts.drop_first().push(p));
        assert(parts.push(p)[0] == parts[0]);
        lemma_join_push(parts.drop_first(), p);
        if parts.len() == 1 {
            assert(join_lines(parts.push(p)) == parts[0] + seq!['\n'] + p);
            assert(join_lines(parts) == parts[0]);
        } else {
            assert(join_lines(parts) + seq!['\n'] + p =~= parts[0] + seq!['\n'] + (join_lines(
                parts.drop_first(),
            ) + seq!['\n'] + p));
        }
    }
}

/// Joining undoes splitting: the parts of a text, rejoined, give the text
/// back.
pub proof fn lemma_join_split(s: Seq<char>)
    ensures
        join_lines(split_lines(s)) == s,
    decreases s.len(),
{
    lemma_split_lines_len(s);
    if s.len() == 0 {
        assert(join_lines(split_lines(s)) == Seq::<char>::empty());
        assert(s =~= Seq::<char>::empty());
    } else if s[0] == '\n' {
        lemma_join_split(s.drop_first());
        lemma_split_lines_len(s.drop_first());
        lemma_join_cons(Seq::<char>::empty(), split_lines(s.drop_first()));
        assert(join_lines(split_lines(s)) =~= seq!['\n'] + s.drop_first());
        assert(seq!['\n'] + s.drop_first() =~= s);
    } else {
        let rest = split_lines(s.drop_first());
        lemma_join_split(s.drop_first());
        lemma_split_lines_len(s.drop_first());
        lemma_join_cons(seq![s[0]] + rest[0], rest.drop_first());
        if rest.len() == 1 {
            assert(join_lines(rest) == rest[0]);
            assert(join_lines(split_lines(s)) == seq![s[0]] + rest[0]);
            assert(seq![s[0]] + s.drop_first() =~= s);
        } else {
            assert(rest.drop_first().len() > 0);
            assert(join_lines(split_lines(s)) == seq![s[0]] + rest[0] + seq!['\n'] + join_lines(
                rest.drop_first(),
            ));
            assert(join_lines(rest) == rest[0] + seq!['\n'] + join_lines(rest.drop_first()));
            assert(seq![s[0]] + rest[0] + seq!['\n'] + join_lines(rest.drop_first()) =~= seq![
                s[0],
            ] + (rest[0] + seq!['\n'] + join_lines(rest.drop_first())));
            assert(seq![s[0]] + s.drop_first() =~= s);
        }
    }
}

/// Relies on `String::push`: appends the given character to the end of the
/// string.
#[verifier::external_body]
fn string_push(s: &mut String, c: char)
    ensures
        final(s)@ == old(s)@.push(c),
{
    s.push(c);
}

impl TextCanvas {
    /// Builds a grid from a text: one row per terminator-separated line, one
    /// cell per character, each measured once. A fully empty text yields a
    /// grid with no rows. Returns `None` when a character off a line boundary
    /// has no defined display width, or a line is too wide to count — the
    /// grid cannot represent such a text.
    pub fn from_text(s: &str) -> (r: Option<TextCanvas>)
        ensures
            r matches Some(c) ==> c.wf() && c@ == grid_of(s@),
            r is Some <==> text_ok(s@),
    {
        let n = s.unicode_len();
        if n == 0 {
            proof {
                assert(s@.skip(0) =~= s@);
                assert(split_lines(s@).len() == 1);
                assert(width_sum(cells_of(split_lines(s@)[0])) == 0) by {
                    assert(cells_of(Seq::<char>::empty()) =~= Seq::<Cell>::empty());
                };
                assert(text_ok(s@));
            }
            return Some(TextCanvas::empty());
        }
        let mut lines: Vec<Line> = Vec::new();
        let mut cur = Line { cells: Vec::new(), width: 0 };
        let ghost mut cur_chars: Seq<char> = Seq::empty();
        let mut i: usize = 0;
        proof {
            assert(s@.skip(0) =~= s@);
            assert(cells_of(cur_chars) =~= Seq::<Cell>::empty());
            assert(cur_chars + split_lines(s@)[0] =~= split_lines(s@)[0]);
            lemma_split_lines_len(s@);
        }
        while i < n
            invariant
                i <= n,
                n == s@.len(),
                cur.wf(),
                cur.cells@ == cells_of(cur_chars),
                forall|j: int|
                    0 <= j < i ==> ((#[trigger] s@[j]) == '\n' || char_display_width(s@[j])
                        is Some),
                forall|j: int| 0 <= j < lines@.len() ==> (#[trigger] lines@[j]).wf(),
                forall|j: int|
                    0 <= j < lines@.len() ==> (#[trigger] lines@[j]).cells@ == cells_of(
                        split_lines(s@)[j],
                    ),
                split_lines(s@).len() == lines@.len() + split_lines(s@.skip(i as int)).len(),
                split_lines(s@)[lines@.len() as int] == cur_chars + split_lines(
                    s@.skip(i as int),
                )[0],
                forall|j: int|
                    lines@.len() < j < split_lines(s@).len() ==> (#[trigger] split_lines(
                        s@,
                    )[j]) == split_lines(s@.skip(i as int))[j - lines@.len()],
            decreases n - i,
        {
            let ghost rem = s@.skip(i as int);
            proof {
                lemma_split_lines_len(s@.skip(i as int + 1));
                assert(rem.len() > 0);
                assert(rem[0] == s@[i as int]);
                assert(rem.drop_first() =~= s@.skip(i as int + 1));
            }
            let c = s.get_char(i);
            if c == '\n' {
                proof {
                    assert(split_lines(rem) == seq![Seq::<char>::empty()] + split_lines(
                        s@.skip(i as int + 1),
                    ));
                    assert(split_lines(rem)[0] =~= Seq::<char>::empty());
                    assert(split_lines(s@)[lines@.len() as int] =~= cur_chars);
                }
                lines.push(cur);
                cur = Line { cells: Vec::new(), width: 0 };
                proof {
                    cur_chars = Seq::empty();
                    assert(cells_of(cur_chars) =~= Seq::<Cell>::empty());
                    let rr = lines@.len() as int;
                    assert(split_lines(s@)[rr] == split_lines(rem)[1]);
                    assert(split_lines(rem)[1] == split_lines(s@.skip(i as int + 1))[0]);
                    assert(cur_chars + split_lines(s@.skip(i as int + 1))[0] =~= split_lines(
                        s@.skip(i as int + 1),
                    )[0]);
                }
            } else {
                match display_width(c) {
                    None => {
                        proof {
                            assert(!text_ok(s@));
                        }
                        return None;
                    },
                    Some(w) => {
                        if w > usize::MAX - cur.width {
                            proof {
                                let rr = lines@.len() as int;
                                assert(split_lines(rem) == seq![
                                    seq![c] + split_lines(s@.skip(i as int + 1))[0],
                                ] + split_lines(s@.skip(i as int + 1)).drop_first());
                                let part = split_lines(s@)[rr];
                                assert(part =~= (cur_chars + seq![c]) + split_lines(
                                    s@.skip(i as int + 1),
                                )[0]);
                                assert(cells_of(part) =~= cells_of(cur_chars + seq![c])
                                    + cells_of(split_lines(s@.skip(i as int + 1))[0]));
                                assert(cells_of(cur_chars + seq![c]) =~= cells_of(cur_chars)
                                    + seq![cell_of(c)]);
                                lemma_width_sum_concat(
                                    cells_of(cur_chars + seq![c]),
                                    cells_of(split_lines(s@.skip(i as int + 1))[0]),
                                );
                                lemma_width_sum_concat(cells_of(cur_chars), seq![cell_of(c)]);
                                lemma_width_sum_singleton(cell_of(c));
                                assert(width_sum(cells_of(part)) > usize::MAX);
                                assert(rr < split_lines(s@).len());
                                assert(!text_ok(s@));
                            }
                            return None;
                        }
                        cur.cells.push(Cell { ch: c, width: w });
                        cur.width = cur.width + w;
                        proof {
                            let rr = lines@.len() as int;
                            assert(split_lines(rem) == seq![
                                seq![c] + split_lines(s@.skip(i as int + 1))[0],
                            ] + split_lines(s@.skip(i as int + 1)).drop_first());
                            assert(split_lines(s@)[rr] =~= (cur_chars + seq![c]) + split_lines(
                                s@.skip(i as int + 1),
                            )[0]);
                            assert forall|j: int|
                                rr < j < split_lines(s@).len() implies (#[trigger] split_lines(
                                s@,
                            )[j]) == split_lines(s@.skip(i as int + 1))[j - rr] by {
                                assert(split_lines(s@)[j] == split_lines(rem)[j - rr]);
                                assert(split_lines(rem)[j - rr] == split_lines(
                                    s@.skip(i as int + 1),
                                ).drop_first()[j - rr - 1]);
                            }
                            let prev = cur_chars;
                            cur_chars = cur_chars.push(c);
                            assert(cells_of(cur_chars) =~= cells_of(prev) + seq![cell_of(c)]);
                            assert(cur.cells@ == cells_of(cur_chars));
                            lemma_width_sum_concat(cells_of(prev), seq![cell_of(c)]);
                            lemma_width_sum_singleton(cell_of(c));
                            assert(cur.wf());
                        }
                    },
                }
            }
            i = i + 1;
        }
        proof {
            assert(s@.skip(n as int) =~= Seq::<char>::empty());
            assert(split_lines(s@.skip(n as int)).len() == 1);
            assert(split_lines(s@)[lines@.len() as int] =~= cur_chars);
        }
        lines.push(cur);
        let canvas = TextCanvas { lines };
        proof {
            assert(canvas@ =~~= grid_of(s@));
            assert(canvas.wf());
            assert(text_ok(s@)) by {
                assert forall|j: int|
                    0 <= j < split_lines(s@).len() implies width_sum(
                    cells_of(#[trigger] split_lines(s@)[j]),
                ) <= usize::MAX by {
                    assert(canvas.lines@[j].wf());
                    assert(canvas.lines@[j].cells@ == cells_of(split_lines(s@)[j]));
                }
            };
        }
        Some(canvas)
    }

    /// Emits the grid back as a single text: the rows' characters, in cell
    /// order, joined by a single line terminator between consecutive rows,
    /// with no terminator at the end.
    pub fn to_text(&self) -> (r: String)
        ensures
            r@ == text_of(self@),
    {
        let ghost parts = Seq::new(self@.len(), |i: int| line_chars(self@[i]));
        let mut out = String::new();
        let mut y: usize = 0;
        proof {
            assert(parts.take(0) =~= Seq::<Seq<char>>::empty());
        }
        while y < self.lines.len()
            invariant
                y <= self.lines@.len(),
                parts.len() == self.lines@.len(),
                forall|j: int|
                    0 <= j < parts.len() ==> (#[trigger] parts[j]) == line_chars(
                        self.lines@[j].cells@,
                    ),
                out@ == join_lines(parts.take(y as int)),
            decreases self.lines@.len() - y,
        {
            if y > 0 {
                string_push(&mut out, '\n');
            }
            let ghost base = out@;
            let mut i: usize = 0;
            while i < self.lines[y].cells.len()
                invariant
                    y < self.lines@.len(),
                    i <= self.lines@[y as int].cells@.len(),
                    out@ == base + line_chars(self.lines@[y as int].cells@).take(i as int),
                decreases self.lines@[y as int].cells@.len() - i,
            {
                string_push(&mut out, self.lines[y].cells[i].ch);
                proof {
                    let cs = line_chars(self.lines@[y as int].cells@);
                    assert(cs.take(i as int + 1) =~= cs.take(i as int).push(cs[i as int]));
                    assert(out@ =~= base + cs.take(i as int + 1));
                }
                i = i + 1;
            }
            proof {
                let cs = line_chars(self.lines@[y as int].cells@);
                assert(cs.take(cs.len() as int) =~= cs);
                assert(out@ == base + parts[y as int]);
                lemma_join_push(parts.take(y as int), parts[y as int]);
                assert(parts.take(y as int + 1) =~= parts.take(y as int).push(parts[y as int]));
                if y == 0 {
                    assert(out@ =~= parts[0]);
                } else {
                    assert(out@ =~= join_lines(parts.take(y as int)) + seq!['\n']
                        + parts[y as int]);
                }
            }
            y = y + 1;
        }
        proof {
            assert(parts.take(parts.len() as int) =~= parts);
            assert(parts =~~= Seq::new(self@.len(), |i: int| line_chars(self@[i])));
        }
        out
    }
}

} // verus!
