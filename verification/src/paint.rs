//! Painting text into cells: each visible character takes the cells its display width
//! needs, keeps the SGR styling active at its position, and carries the node's action.

use vstd::prelude::*;
use crate::ansi::{cell_width, char_width, esc, escape_end, lemma_escape_end_bounds, consume_ansi, split_text_lines, text_lines_spec};
use crate::canvas::{blank_row, copy_cell, grid_has_size, new_blank_row, row_view, Canvas, Cell, CellV};
use crate::chars::{extend_chars, views};
use crate::error::LayoutError;

verus! {

/// The SGR sequence that resets all styling.
pub open spec fn sgr_reset() -> Seq<char> {
    seq!['\u{1b}', '[', '0', 'm']
}

/// Whether an escape sequence (starting with ESC) is an SGR styling sequence.
pub open spec fn is_sgr(q: Seq<char>) -> bool {
    q.len() >= 2 && q[1] == '[' && q.last() == 'm'
}

/// A row whose cells `from..to` become continuation cells of a wide character: they show
/// no text of their own (the character's first cell shows it) and carry `action`, so the
/// line takes exactly as many terminal columns as the row has cells.
pub open spec fn set_continuation_range(row: Seq<CellV>, from: int, to: int, action: Option<usize>) -> Seq<CellV> {
    Seq::new(row.len(), |k: int| if from <= k < to { CellV { text: Seq::empty(), action } } else { row[k] })
}

/// Attaches zero-width text still pending at the end of a line to the last painted cell.
pub open spec fn finish_row(row: Seq<CellV>, x: int, pending: Seq<char>) -> Seq<CellV> {
    if pending.len() > 0 && x > 0 {
        row.update(x - 1, CellV { text: row[x - 1].text + pending, action: row[x - 1].action })
    } else {
        row
    }
}

/// Paints `line` from index `i` into a row of `width` cells, with `x` the next free cell,
/// `active` the SGR styling in effect, and `pending` zero-width text and non-SGR escapes
/// that wait for the next visible character.
pub open spec fn paint_from(line: Seq<char>, i: int, width: int, action: Option<usize>, x: int, active: Seq<char>, pending: Seq<char>, row: Seq<CellV>) -> Result<Seq<CellV>, LayoutError>
    decreases line.len() - i,
{
    if i < 0 || i >= line.len() {
        Ok(finish_row(row, x, pending))
    } else if line[i] == esc() {
        match escape_end(line, i + 1) {
            Err(e) => Err(e),
            Ok(e) => if e <= i || e > line.len() {
                Err(LayoutError::TruncatedEscape)
            } else {
                let q = line.subrange(i, e);
                if is_sgr(q) {
                    if q == sgr_reset() {
                        paint_from(line, e, width, action, x, Seq::empty(), pending, row)
                    } else {
                        paint_from(line, e, width, action, x, active + q, pending, row)
                    }
                } else {
                    paint_from(line, e, width, action, x, active, pending + q, row)
                }
            },
        }
    } else {
        let ch = line[i];
        let cw = cell_width(ch) as int;
        if cw == 0 {
            paint_from(line, i + 1, width, action, x, active, pending.push(ch), row)
        } else if x + cw > width {
            Ok(finish_row(row, x, pending))
        } else {
            let text = pending + active + seq![ch] + (if active.len() > 0 { sgr_reset() } else { Seq::empty() });
            paint_from(
                line,
                i + 1,
                width,
                action,
                x + cw,
                active,
                Seq::empty(),
                set_continuation_range(row.update(x, CellV { text, action }), x + 1, x + cw, action),
            )
        }
    }
}

/// The row that one line of text paints into `width` cells.
pub open spec fn paint_line_spec(line: Seq<char>, width: nat, action: Option<usize>) -> Result<Seq<CellV>, LayoutError> {
    paint_from(line, 0, width as int, action, 0, Seq::empty(), Seq::empty(), blank_row(width))
}

/// Rows `y..height` of a text canvas, appended to `acc`.
pub open spec fn paint_rows(lines: Seq<Seq<char>>, y: int, width: nat, height: nat, action: Option<usize>, acc: Seq<Seq<CellV>>) -> Result<Seq<Seq<CellV>>, LayoutError>
    decreases height - y,
{
    if y < 0 || y >= height {
        Ok(acc)
    } else if y < lines.len() {
        match paint_line_spec(lines[y], width, action) {
            Err(e) => Err(e),
            Ok(row) => paint_rows(lines, y + 1, width, height, action, acc.push(row)),
        }
    } else {
        paint_rows(lines, y + 1, width, height, action, acc.push(blank_row(width)))
    }
}

/// A `width` x `height` canvas showing `text`, one line per row, clipped to the canvas;
/// every painted cell carries `action`.
pub open spec fn text_canvas_spec(text: Seq<char>, width: nat, height: nat, action: Option<usize>) -> Result<Seq<Seq<CellV>>, LayoutError> {
    match text_lines_spec(text) {
        Err(e) => Err(e),
        Ok(lines) => paint_rows(lines, 0, width, height, action, Seq::empty()),
    }
}

fn copy_chars(v: &[char]) -> (r: Vec<char>)
    ensures
        r@ == v@,
{
    let mut out: Vec<char> = Vec::new();
    extend_chars(&mut out, v);
    proof {
        assert(out@ =~= v@);
    }
    out
}

/// Paints one line of text into a row of `width` cells.
pub fn paint_line(line: &[char], width: usize, action: Option<usize>) -> (r: Result<Vec<Cell>, LayoutError>)
    ensures
        match r {
            Ok(row) => paint_line_spec(line@, width as nat, action) == Ok::<Seq<CellV>, LayoutError>(row_view(row@)),
            Err(e) => paint_line_spec(line@, width as nat, action) == Err::<Seq<CellV>, LayoutError>(e),
        },
{
    let ghost total = paint_line_spec(line@, width as nat, action);
    let mut row = new_blank_row(width);
    let mut x: usize = 0;
    let mut active: Vec<char> = Vec::new();
    let mut pending: Vec<char> = Vec::new();
    let mut i: usize = 0;
    let mut stopped = false;
    while i < line.len() && !stopped
        invariant
            i <= line@.len(),
            x <= width,
            row@.len() == width,
            total == paint_line_spec(line@, width as nat, action),
            !stopped ==> paint_from(line@, i as int, width as int, action, x as int, active@, pending@, row_view(row@)) == total,
            stopped ==> total == Ok::<Seq<CellV>, LayoutError>(finish_row(row_view(row@), x as int, pending@)),
        decreases line@.len() - i, (if stopped { 0int } else { 1int }),
    {
        let ch = line[i];
        if ch == '\u{1b}' {
            proof {
                lemma_escape_end_bounds(line@, i + 1);
            }
            let e = match consume_ansi(line, i + 1) {
                Ok(e) => e,
                Err(err) => return Err(err),
            };
            let q = copy_chars(&line[i..e]);
            proof {
                assert(q@ =~= line@.subrange(i as int, e as int));
            }
            let sgr = q.len() >= 2 && q[1] == '[' && q[q.len() - 1] == 'm';
            if sgr {
                let reset = q.len() == 4 && q[0] == '\u{1b}' && q[1] == '[' && q[2] == '0' && q[3] == 'm';
                proof {
                    if reset {
                        assert(q@ =~= sgr_reset());
                    } else {
                        assert(q@ != sgr_reset()) by {
                            if q@ == sgr_reset() {
                                assert(q@.len() == 4);
                            }
                        }
                    }
                }
                if reset {
                    active = Vec::new();
                } else {
                    extend_chars(&mut active, q.as_slice());
                }
            } else {
                extend_chars(&mut pending, q.as_slice());
            }
            i = e;
        } else {
            let cw = match char_width(ch) {
                Some(w) => w,
                None => 0,
            };
            if cw == 0 {
                pending.push(ch);
                i += 1;
            } else if cw > width - x {
                stopped = true;
            } else {
                let ghost before = row_view(row@);
                let mut text: Vec<char> = Vec::new();
                extend_chars(&mut text, pending.as_slice());
                extend_chars(&mut text, active.as_slice());
                text.push(ch);
                if active.len() > 0 {
                    extend_chars(&mut text, &['\u{1b}', '[', '0', 'm']);
                }
                proof {
                    let expect = pending@ + active@ + seq![ch] + (if active@.len() > 0 { sgr_reset() } else { Seq::empty() });
                    if active@.len() > 0 {
                        assert(['\u{1b}', '[', '0', 'm']@ =~= sgr_reset());
                    }
                    assert(text@ =~= expect);
                }
                row.set(x, Cell { text, action });
                let ghost painted = row_view(row@);
                proof {
                    assert(painted =~= before.update(x as int, CellV { text: text@, action }));
                }
                let mut c: usize = 1;
                while c < cw
                    invariant
                        1 <= c <= cw,
                        x + cw <= width,
                        row@.len() == width,
                        painted.len() == width,
                        row_view(row@) == set_continuation_range(painted, x + 1, x + c, action),
                    decreases cw - c,
                {
                    let t: Vec<char> = Vec::new();
                    let ghost prev = row_view(row@);
                    let ghost prev_cells = row@;
                    let ghost idx = x + c;
                    row.set(x + c, Cell { text: t, action });
                    c += 1;
                    proof {
                        assert(row@ == prev_cells.update(idx as int, Cell { text: t, action }));
                        assert forall|k: int| 0 <= k < row@.len() implies #[trigger] row_view(row@)[k] == set_continuation_range(painted, x + 1, x + c, action)[k] by {
                            if k != idx {
                                assert(row@[k] == prev_cells[k]);
                                assert(prev[k] == set_continuation_range(painted, x + 1, x + c - 1, action)[k]);
                            } else {
                                assert(prev[k] == painted[k]);
                            }
                        }
                        assert(row_view(row@) =~= set_continuation_range(painted, x + 1, x + c, action));
                    }
                }
                pending = Vec::new();
                x = x + cw;
                i += 1;
            }
        }
    }
    if pending.len() > 0 && x > 0 {
        let last = copy_cell(&row[x - 1]);
        let mut text = last.text;
        extend_chars(&mut text, pending.as_slice());
        let ghost before = row_view(row@);
        row.set(x - 1, Cell { text, action: last.action });
        proof {
            assert(row_view(row@) =~= finish_row(before, x as int, pending@));
        }
    } else {
        proof {
            assert(row_view(row@) =~= finish_row(row_view(row@), x as int, pending@));
        }
    }
    Ok(row)
}

/// Paints text into a `width` x `height` canvas; each painted cell carries `action`.
pub fn text_canvas(text: &[char], width: usize, height: usize, action: Option<usize>) -> (r: Result<Canvas, LayoutError>)
    ensures
        match r {
            Ok(c) => text_canvas_spec(text@, width as nat, height as nat, action) == Ok::<Seq<Seq<CellV>>, LayoutError>(c@),
            Err(e) => text_canvas_spec(text@, width as nat, height as nat, action) == Err::<Seq<Seq<CellV>>, LayoutError>(e),
        },
{
    let lines = match split_text_lines(text) {
        Ok(lines) => lines,
        Err(e) => return Err(e),
    };
    let ghost lv = views(lines@);
    let ghost total = text_canvas_spec(text@, width as nat, height as nat, action);
    let mut cells: Vec<Vec<Cell>> = Vec::new();
    let mut y: usize = 0;
    proof {
        assert(Canvas { cells }@ =~= Seq::<Seq<CellV>>::empty());
    }
    while y < height
        invariant
            y <= height,
            lv == views(lines@),
            total == text_canvas_spec(text@, width as nat, height as nat, action),
            total == paint_rows(lv, y as int, width as nat, height as nat, action, Canvas { cells }@),
        decreases height - y,
    {
        let ghost acc = Canvas { cells }@;
        if y < lines.len() {
            proof {
                assert(lv[y as int] == lines@[y as int]@);
            }
            let row = match paint_line(lines[y].as_slice(), width, action) {
                Ok(row) => row,
                Err(e) => return Err(e),
            };
            cells.push(row);
            proof {
                assert(Canvas { cells }@ =~= acc.push(row_view(row@)));
            }
        } else {
            let row = new_blank_row(width);
            cells.push(row);
            proof {
                assert(Canvas { cells }@ =~= acc.push(blank_row(width as nat)));
            }
        }
        y += 1;
    }
    Ok(Canvas { cells })
}


/// Painting a line keeps the row's length.
pub proof fn lemma_paint_from_len(line: Seq<char>, i: int, width: int, action: Option<usize>, x: int, active: Seq<char>, pending: Seq<char>, row: Seq<CellV>)
    requires
        0 <= x <= row.len(),
        width <= row.len(),
    ensures
        paint_from(line, i, width, action, x, active, pending, row) matches Ok(r) ==> r.len() == row.len(),
    decreases line.len() - i,
{
    if 0 <= i < line.len() {
        if line[i] == esc() {
            match escape_end(line, i + 1) {
                Err(_) => {},
                Ok(e) => if i < e <= line.len() {
                    let q = line.subrange(i, e);
                    lemma_paint_from_len(line, e, width, action, x, Seq::empty(), pending, row);
                    lemma_paint_from_len(line, e, width, action, x, active + q, pending, row);
                    lemma_paint_from_len(line, e, width, action, x, active, pending + q, row);
                },
            }
        } else {
            let ch = line[i];
            let cw = cell_width(ch) as int;
            if cw == 0 {
                lemma_paint_from_len(line, i + 1, width, action, x, active, pending.push(ch), row);
            } else if x + cw <= width {
                let text = pending + active + seq![ch] + (if active.len() > 0 { sgr_reset() } else { Seq::empty() });
                let row2 = set_continuation_range(row.update(x, CellV { text, action }), x + 1, x + cw, action);
                lemma_paint_from_len(line, i + 1, width, action, x + cw, active, Seq::empty(), row2);
            }
        }
    }
}

/// Every row that text painting produces has `width` cells, and there are `height` rows.
pub proof fn lemma_text_canvas_size(text: Seq<char>, width: nat, height: nat, action: Option<usize>)
    ensures
        text_canvas_spec(text, width, height, action) matches Ok(g) ==> grid_has_size(g, width, height),
{
    if let Ok(lines) = text_lines_spec(text) {
        lemma_paint_rows_size(lines, 0, width, height, action, Seq::empty());
    }
}

proof fn lemma_paint_rows_size(lines: Seq<Seq<char>>, y: int, width: nat, height: nat, action: Option<usize>, acc: Seq<Seq<CellV>>)
    requires
        0 <= y <= height,
        acc.len() == y,
        forall|r: int| 0 <= r < acc.len() ==> #[trigger] acc[r].len() == width,
    ensures
        paint_rows(lines, y, width, height, action, acc) matches Ok(g) ==> grid_has_size(g, width, height),
    decreases height - y,
{
    if y < height {
        if y < lines.len() {
            lemma_paint_from_len(lines[y], 0, width as int, action, 0, Seq::empty(), Seq::empty(), blank_row(width));
            if let Ok(row) = paint_line_spec(lines[y], width, action) {
                let next = acc.push(row);
                assert forall|r: int| 0 <= r < next.len() implies #[trigger] next[r].len() == width by {
                    if r < acc.len() {
                        assert(next[r] == acc[r]);
                    }
                }
                lemma_paint_rows_size(lines, y + 1, width, height, action, next);
            }
        } else {
            let next = acc.push(blank_row(width));
            assert forall|r: int| 0 <= r < next.len() implies #[trigger] next[r].len() == width by {
                if r < acc.len() {
                    assert(next[r] == acc[r]);
                }
            }
            lemma_paint_rows_size(lines, y + 1, width, height, action, next);
        }
    }
}

} // verus!
