//! Cell grids that layout paints into, and their conversion to terminal lines and hitboxes.

use vstd::prelude::*;
use crate::chars::{extend_chars, string_of, sub_chars};

verus! {

/// One terminal cell: the text it prints (a character plus any escape sequences) and the
/// index of the click action it carries.
#[derive(Debug)]
pub struct Cell {
    pub text: Vec<char>,
    pub action: Option<usize>,
}

/// The value of a cell.
pub struct CellV {
    pub text: Seq<char>,
    pub action: Option<usize>,
}

impl View for Cell {
    type V = CellV;

    open spec fn view(&self) -> CellV {
        CellV { text: self.text@, action: self.action }
    }
}

/// An empty cell prints one space and carries no action.
pub open spec fn blank_cell() -> CellV {
    CellV { text: seq![' '], action: None }
}

/// A row of `width` blank cells.
pub open spec fn blank_row(width: nat) -> Seq<CellV> {
    Seq::new(width, |_i: int| blank_cell())
}

/// A grid of `height` rows of `width` blank cells.
pub open spec fn blank_grid(width: nat, height: nat) -> Seq<Seq<CellV>> {
    Seq::new(height, |_i: int| blank_row(width))
}

/// Values of a row of cells.
pub open spec fn row_view(row: Seq<Cell>) -> Seq<CellV> {
    row.map_values(|c: Cell| c@)
}

/// Values of a grid of cells.
pub open spec fn grid_view(rows: Seq<Vec<Cell>>) -> Seq<Seq<CellV>> {
    rows.map_values(|r: Vec<Cell>| row_view(r@))
}

/// A rectangular grid of cells, row by row.
#[derive(Debug)]
pub struct Canvas {
    pub cells: Vec<Vec<Cell>>,
}

impl View for Canvas {
    type V = Seq<Seq<CellV>>;

    open spec fn view(&self) -> Seq<Seq<CellV>> {
        grid_view(self.cells@)
    }
}

/// Whether every row of a grid has `width` cells and there are `height` rows.
pub open spec fn grid_has_size(g: Seq<Seq<CellV>>, width: nat, height: nat) -> bool {
    &&& g.len() == height
    &&& forall|r: int| 0 <= r < g.len() ==> #[trigger] g[r].len() == width
}

/// Width of a grid: the length of its first row, or zero when it has no rows.
pub open spec fn grid_width(g: Seq<Seq<CellV>>) -> nat {
    if g.len() > 0 { g[0].len() } else { 0 }
}

/// A cell with the same value.
pub fn copy_cell(c: &Cell) -> (r: Cell)
    ensures
        r@ == c@,
{
    let mut text: Vec<char> = Vec::new();
    extend_chars(&mut text, c.text.as_slice());
    proof {
        assert(text@ =~= c.text@);
    }
    Cell { text, action: c.action }
}

/// A blank cell.
pub fn new_blank_cell() -> (r: Cell)
    ensures
        r@ == blank_cell(),
{
    let mut text: Vec<char> = Vec::new();
    text.push(' ');
    proof {
        assert(text@ =~= seq![' ']);
    }
    Cell { text, action: None }
}

/// A row of `width` blank cells.
pub fn new_blank_row(width: usize) -> (r: Vec<Cell>)
    ensures
        row_view(r@) == blank_row(width as nat),
{
    let mut row: Vec<Cell> = Vec::new();
    let mut i: usize = 0;
    while i < width
        invariant
            i <= width,
            row@.len() == i,
            row_view(row@) == blank_row(i as nat),
        decreases width - i,
    {
        let ghost prev = row@;
        let c = new_blank_cell();
        row.push(c);
        i += 1;
        proof {
            assert(row@ == prev.push(c));
            assert(row@.len() == i);
            assert(blank_row(i as nat).len() == i);
            assert(row_view(row@).len() == i);
            assert(row_view(row@)[i - 1] == c@);
            assert(blank_row(i as nat)[i - 1] == blank_cell());
            assert forall|k: int| 0 <= k < row@.len() implies #[trigger] row_view(row@)[k] == blank_row(i as nat)[k] by {
                if k < prev.len() {
                    assert(row@[k] == prev[k]);
                    assert(row_view(prev)[k] == blank_row((i - 1) as nat)[k]);
                }
            }
            assert(row_view(row@) =~= blank_row(i as nat));
        }
    }
    row
}

impl Canvas {
    /// A canvas of `height` rows of `width` blank cells.
    pub fn new(width: usize, height: usize) -> (r: Canvas)
        ensures
            r@ == blank_grid(width as nat, height as nat),
    {
        let mut cells: Vec<Vec<Cell>> = Vec::new();
        let mut i: usize = 0;
        while i < height
            invariant
                i <= height,
                cells@.len() == i,
                grid_view(cells@) == blank_grid(width as nat, i as nat),
            decreases height - i,
        {
            let ghost prev = cells@;
            cells.push(new_blank_row(width));
            i += 1;
            proof {
                assert forall|k: int| 0 <= k < cells@.len() implies #[trigger] grid_view(cells@)[k] == blank_grid(width as nat, i as nat)[k] by {
                    if k < prev.len() {
                        assert(cells@[k] == prev[k]);
                        assert(grid_view(prev)[k] == blank_grid(width as nat, (i - 1) as nat)[k]);
                    }
                }
                assert(grid_view(cells@) =~= blank_grid(width as nat, i as nat));
            }
        }
        Canvas { cells }
    }

    /// Number of cells in the first row.
    pub fn width(&self) -> (r: usize)
        ensures
            r == grid_width(self@),
    {
        if self.cells.len() > 0 {
            self.cells[0].len()
        } else {
            0
        }
    }

    /// Number of rows.
    pub fn height(&self) -> (r: usize)
        ensures
            r == self@.len(),
    {
        self.cells.len()
    }
}


/// The first cell of the character that cell `k` of a row shows: `k` itself when it
/// shows text, else (for a wide character's continuation cell, which shows none) the
/// nearest cell before it that does, or the row's first cell.
pub open spec fn char_start(row: Seq<CellV>, k: int) -> int
    decreases k,
{
    if k <= 0 || k >= row.len() || row[k].text.len() > 0 {
        k
    } else {
        char_start(row, k - 1)
    }
}

/// The last cell of the character that cell `k` of a row shows: `k` followed by the
/// continuation cells (showing no text) right after it.
pub open spec fn char_end(row: Seq<CellV>, k: int) -> int
    decreases row.len() - k,
{
    if k < 0 || k + 1 >= row.len() || row[k + 1].text.len() > 0 {
        k
    } else {
        char_end(row, k + 1)
    }
}

/// Cell `c` of a target row after copying source row cells `sx..sx + cw` to column `x`.
/// A source cell whose character lies wholly inside the copied cells is copied; one of a
/// wide character that the clip cuts becomes a blank keeping its action, so no wide
/// character is drawn in part and the line keeps one column per cell.
pub open spec fn blit_row_cell(target: Seq<CellV>, src: Seq<CellV>, x: int, sx: int, cw: int, c: int) -> CellV {
    let cx = c - x;
    if 0 <= cx < cw && 0 <= sx && sx + cx < src.len() {
        let k = sx + cx;
        if char_start(src, k) >= sx && char_end(src, k) < sx + cw {
            src[k]
        } else {
            CellV { text: seq![' '], action: src[k].action }
        }
    } else {
        target[c]
    }
}

/// A target row after copying source row cells `sx..sx + cw` to column `x`.
pub open spec fn blit_row_spec(target: Seq<CellV>, src: Seq<CellV>, x: int, sx: int, cw: int) -> Seq<CellV> {
    Seq::new(target.len(), |c: int| blit_row_cell(target, src, x, sx, cw, c))
}

/// A target grid after copying the source rectangle at (`sx`, `sy`) of size `cw` x `ch` to
/// (`x`, `y`), clipped to both grids; wide characters cut by the clip become blanks.
pub open spec fn blit_spec(target: Seq<Seq<CellV>>, src: Seq<Seq<CellV>>, x: int, y: int, sx: int, sy: int, cw: int, ch: int) -> Seq<Seq<CellV>> {
    Seq::new(target.len(), |r: int|
        if 0 <= r - y < ch && sy + (r - y) < src.len() {
            blit_row_spec(target[r], src[sy + (r - y)], x, sx, cw)
        } else {
            target[r]
        })
}

/// Whether the character shown by source cell `k` lies wholly in cells `sx..sx + cw`.
fn char_inside(src: &Vec<Cell>, k: usize, sx: usize, cw: usize) -> (r: bool)
    requires
        sx <= k < src@.len(),
    ensures
        r == (char_start(row_view(src@), k as int) >= sx && char_end(row_view(src@), k as int) < sx + cw),
{
    let ghost row = row_view(src@);
    let mut s: usize = k;
    while s > 0 && src[s].text.len() == 0
        invariant
            s <= k < src@.len(),
            row == row_view(src@),
            char_start(row, k as int) == char_start(row, s as int),
        decreases s,
    {
        s -= 1;
    }
    let mut e: usize = k;
    while e < src.len() - 1 && src[e + 1].text.len() == 0
        invariant
            k <= e < src@.len(),
            row == row_view(src@),
            char_end(row, k as int) == char_end(row, e as int),
        decreases src@.len() - e,
    {
        e += 1;
    }
    s >= sx && e - sx < cw
}

fn blit_row(target: &Vec<Cell>, src: &Vec<Cell>, x: usize, sx: usize, cw: usize) -> (r: Vec<Cell>)
    ensures
        row_view(r@) == blit_row_spec(row_view(target@), row_view(src@), x as int, sx as int, cw as int),
{
    let ghost t = row_view(target@);
    let ghost sv = row_view(src@);
    let mut out: Vec<Cell> = Vec::new();
    let mut c: usize = 0;
    while c < target.len()
        invariant
            c <= target@.len(),
            t == row_view(target@),
            sv == row_view(src@),
            out@.len() == c,
            forall|k: int| 0 <= k < c ==> #[trigger] out@[k]@ == blit_row_cell(t, sv, x as int, sx as int, cw as int, k),
        decreases target@.len() - c,
    {
        if c >= x && c - x < cw && sx < src.len() && c - x < src.len() - sx {
            let k = sx + (c - x);
            let s = &src[k];
            if char_inside(src, k, sx, cw) {
                out.push(copy_cell(s));
            } else {
                let mut text: Vec<char> = Vec::new();
                text.push(' ');
                proof {
                    assert(text@ =~= seq![' ']);
                }
                out.push(Cell { text, action: s.action });
            }
        } else {
            out.push(copy_cell(&target[c]));
        }
        c += 1;
    }
    proof {
        assert(row_view(out@) =~= blit_row_spec(t, sv, x as int, sx as int, cw as int));
    }
    out
}

impl Canvas {
    /// Copies the `clip_width` x `clip_height` rectangle of `child` at (`source_x`,
    /// `source_y`) onto this canvas at (`x`, `y`), clipped to both canvases.
    pub fn blit_from(&mut self, child: &Canvas, x: usize, y: usize, source_x: usize, source_y: usize, clip_width: usize, clip_height: usize)
        ensures
            final(self)@ == blit_spec(old(self)@, child@, x as int, y as int, source_x as int, source_y as int, clip_width as int, clip_height as int),
    {
        let ghost start = self@;
        let ghost src = child@;
        let target_rows = if y < self.cells.len() { self.cells.len() - y } else { 0 };
        let source_rows = if source_y < child.cells.len() { child.cells.len() - source_y } else { 0 };
        let mut n = clip_height;
        if target_rows < n {
            n = target_rows;
        }
        if source_rows < n {
            n = source_rows;
        }
        let mut cy: usize = 0;
        assert(self.cells@.len() == self.cells.len());
        assert(child.cells@.len() == child.cells.len());
        proof {
            assert(start =~= blit_spec(start, src, x as int, y as int, source_x as int, source_y as int, clip_width as int, 0));
        }
        while cy < n
            invariant
                cy <= n,
                n <= clip_height,
                n <= target_rows,
                n <= source_rows,
                target_rows == (if y < start.len() { start.len() - y } else { 0 }),
                source_rows == (if source_y < src.len() { src.len() - source_y } else { 0 }),
                src == child@,
                self.cells@.len() == start.len(),
                start.len() <= usize::MAX,
                src.len() <= usize::MAX,
                self@ == blit_spec(start, src, x as int, y as int, source_x as int, source_y as int, clip_width as int, cy as int),
            decreases n - cy,
        {
            let ty = y + cy;
            let syy = source_y + cy;
            let row = blit_row(&self.cells[ty], &child.cells[syy], x, source_x, clip_width);
            let ghost before = self@;
            let ghost before_cells = self.cells@;
            self.cells.set(ty, row);
            cy += 1;
            proof {
                assert(self.cells@ == before_cells.update(ty as int, row));
                assert forall|r: int| 0 <= r < start.len() implies #[trigger] self@[r] == blit_spec(start, src, x as int, y as int, source_x as int, source_y as int, clip_width as int, cy as int)[r] by {
                    if r == ty {
                        assert(self@[r] == row_view(row@));
                        assert(before[r] == start[r]);
                    } else {
                        assert(self.cells@[r] == before_cells[r]);
                        assert(self@[r] == before[r]);
                    }
                }
                assert(self@ =~= blit_spec(start, src, x as int, y as int, source_x as int, source_y as int, clip_width as int, cy as int));
            }
        }
        proof {
            assert(self@ =~= blit_spec(start, src, x as int, y as int, source_x as int, source_y as int, clip_width as int, clip_height as int));
        }
    }
}


/// Concatenated texts of a row's cells.
pub open spec fn row_text(row: Seq<CellV>) -> Seq<char>
    decreases row.len(),
{
    if row.len() == 0 {
        Seq::empty()
    } else {
        row_text(row.drop_last()) + row.last().text
    }
}

/// `s` without its trailing spaces.
pub open spec fn trim_trailing_spaces(s: Seq<char>) -> Seq<char>
    decreases s.len(),
{
    if s.len() > 0 && s.last() == ' ' {
        trim_trailing_spaces(s.drop_last())
    } else {
        s
    }
}

/// The terminal line a row prints: its cell texts with trailing spaces trimmed.
pub open spec fn line_of(row: Seq<CellV>) -> Seq<char> {
    trim_trailing_spaces(row_text(row))
}

/// The action indices a row carries, cell by cell.
pub open spec fn row_actions(row: Seq<CellV>) -> Seq<Option<usize>> {
    row.map_values(|c: CellV| c.action)
}

/// The line a row of cells prints.
pub fn row_line(row: &Vec<Cell>) -> (r: String)
    ensures
        r@ == line_of(row_view(row@)),
{
    let ghost rv = row_view(row@);
    let mut text: Vec<char> = Vec::new();
    let mut i: usize = 0;
    while i < row.len()
        invariant
            i <= row@.len(),
            rv == row_view(row@),
            text@ == row_text(rv.take(i as int)),
        decreases row@.len() - i,
    {
        extend_chars(&mut text, row[i].text.as_slice());
        proof {
            assert(rv.take(i as int + 1).drop_last() =~= rv.take(i as int));
        }
        i += 1;
    }
    proof {
        assert(rv.take(row@.len() as int) =~= rv);
    }
    let ghost full = text@;
    let mut end = text.len();
    proof {
        assert(full.take(end as int) =~= full);
    }
    while end > 0 && text[end - 1] == ' '
        invariant
            end <= text@.len(),
            full == text@,
            trim_trailing_spaces(full) == trim_trailing_spaces(full.take(end as int)),
        decreases end,
    {
        proof {
            assert(full.take(end as int).drop_last() =~= full.take(end as int - 1));
        }
        end -= 1;
    }
    proof {
        assert(trim_trailing_spaces(full.take(end as int)) == full.take(end as int));
        assert(full.take(end as int) =~= text@.subrange(0, end as int));
    }
    let kept = sub_chars(text.as_slice(), 0, end);
    string_of(kept.as_slice())
}

/// The action indices of a row of cells.
pub fn row_action_ids(row: &Vec<Cell>) -> (r: Vec<Option<usize>>)
    ensures
        r@ == row_actions(row_view(row@)),
{
    let mut out: Vec<Option<usize>> = Vec::new();
    let mut i: usize = 0;
    while i < row.len()
        invariant
            i <= row@.len(),
            out@.len() == i,
            forall|k: int| 0 <= k < i ==> #[trigger] out@[k] == row@[k].action,
        decreases row@.len() - i,
    {
        out.push(row[i].action);
        i += 1;
    }
    proof {
        assert(out@ =~= row_actions(row_view(row@)));
    }
    out
}

impl Canvas {
    /// The terminal lines the canvas prints, one per row.
    pub fn lines(&self) -> (r: Vec<String>)
        ensures
            r@.len() == self@.len(),
            forall|k: int| 0 <= k < r@.len() ==> #[trigger] r@[k]@ == line_of(self@[k]),
    {
        let mut out: Vec<String> = Vec::new();
        let mut i: usize = 0;
        while i < self.cells.len()
            invariant
                i <= self.cells@.len(),
                out@.len() == i,
                forall|k: int| 0 <= k < i ==> #[trigger] out@[k]@ == line_of(self@[k]),
            decreases self.cells@.len() - i,
        {
            out.push(row_line(&self.cells[i]));
            i += 1;
        }
        out
    }

    /// The action indices of every cell, row by row.
    pub fn action_ids(&self) -> (r: Vec<Vec<Option<usize>>>)
        ensures
            r@.len() == self@.len(),
            forall|k: int| 0 <= k < r@.len() ==> #[trigger] r@[k]@ == row_actions(self@[k]),
    {
        let mut out: Vec<Vec<Option<usize>>> = Vec::new();
        let mut i: usize = 0;
        while i < self.cells.len()
            invariant
                i <= self.cells@.len(),
                out@.len() == i,
                forall|k: int| 0 <= k < i ==> #[trigger] out@[k]@ == row_actions(self@[k]),
            decreases self.cells@.len() - i,
        {
            out.push(row_action_ids(&self.cells[i]));
            i += 1;
        }
        out
    }
}

} // verus!
