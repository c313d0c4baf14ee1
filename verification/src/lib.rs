//! Template layout rendering for terminal plugins: markup parsing, flex layout,
//! ANSI-aware measurement and clipping, colour filters, and typed click hitboxes.

pub mod actions;
pub mod ansi;
pub mod bench;
pub mod canvas;
pub mod chars;
pub mod clock;
pub mod error;
pub mod filters;
pub mod helpers;
pub mod hitboxes;
pub mod host;
pub mod layout;
pub mod markup;
pub mod node;
pub mod paint;
pub mod paths;
pub mod tabbar;
pub mod timer;

use std::time::Duration;
use vstd::prelude::*;
use crate::ansi::{cell_width, char_width};
use crate::canvas::{line_of, CellV};
use crate::chars::{chars_of, extend_str, string_of};
use crate::error::LayoutError;
use crate::layout::{layout, layout_spec};
use crate::markup::{parse_markup_spec, parse_nodes};
use crate::node::{default_flex_spec, FlexSpec, Node, NodeV};

verus! {

/// Terminal viewport dimensions in cells.
#[derive(Clone, Copy, Debug, PartialEq, Eq, Structural)]
pub struct Viewport {
    pub rows: usize,
    pub cols: usize,
}

impl Viewport {
    /// Whether the viewport has no visible cell, so nothing is rendered.
    pub fn is_empty(&self) -> (r: bool)
        ensures
            r == (self.rows == 0 || self.cols == 0),
    {
        self.rows == 0 || self.cols == 0
    }
}

impl Default for Viewport {
    fn default() -> (r: Self)
        ensures
            r.rows == 0 && r.cols == 0,
    {
        Viewport { rows: 0, cols: 0 }
    }
}

/// Viewport output and coordinate-matched typed click targets.
#[derive(Clone, Debug, PartialEq, Eq)]
pub struct Frame<A> {
    pub lines: Vec<String>,
    pub hitboxes: Vec<Vec<Option<A>>>,
    /// Earliest delay requested by template helpers before rendering again.
    pub refresh_after: Option<Duration>,
}

impl<A> Default for Frame<A> {
    fn default() -> (r: Self)
        ensures
            r.lines@.len() == 0,
            r.hitboxes@.len() == 0,
            r.refresh_after is None,
    {
        Frame { lines: Vec::new(), hitboxes: Vec::new(), refresh_after: None }
    }
}

/// Parsed button input supplied to host presentation policy.
pub struct ButtonView<'a, A> {
    pub label: &'a str,
    pub action: &'a A,
    pub focused: Option<bool>,
}

/// Host-produced button text and resolved focus state.
pub struct ButtonPresentation {
    pub label: String,
    pub focused: bool,
}

/// A render failure: one reported by the template evaluator (with its displayed
/// message), one of markup or layout, an invalid operation, or a missing helper argument.
#[derive(Clone, Debug, PartialEq, Eq)]
pub enum RenderError {
    Template(String),
    Layout(LayoutError),
    InvalidOperation(String),
    MissingArgument(String),
}

/// Displayed text of an invalid-operation failure.
pub open spec fn invalid_operation_text(detail: Seq<char>) -> Seq<char> {
    "invalid operation: "@ + detail
}

/// Displayed text of a render failure.
pub open spec fn render_error_text(e: RenderError) -> Seq<char> {
    match e {
        RenderError::Template(m) => m@,
        RenderError::Layout(l) => invalid_operation_text(crate::error::error_text(l)),
        RenderError::InvalidOperation(d) => invalid_operation_text(d@),
        RenderError::MissingArgument(d) => "missing argument: "@ + d@,
    }
}

impl RenderError {
    /// The failure's displayed text.
    pub fn message(&self) -> (r: String)
        ensures
            r@ == render_error_text(*self),
    {
        match self {
            RenderError::Template(m) => {
                let v = chars_of(m.as_str());
                string_of(v.as_slice())
            },
            RenderError::Layout(e) => {
                let mut v: Vec<char> = Vec::new();
                extend_str(&mut v, "invalid operation: ");
                extend_str(&mut v, e.message());
                string_of(v.as_slice())
            },
            RenderError::InvalidOperation(d) => {
                let mut v: Vec<char> = Vec::new();
                extend_str(&mut v, "invalid operation: ");
                extend_str(&mut v, d.as_str());
                string_of(v.as_slice())
            },
            RenderError::MissingArgument(d) => {
                let mut v: Vec<char> = Vec::new();
                extend_str(&mut v, "missing argument: ");
                extend_str(&mut v, d.as_str());
                string_of(v.as_slice())
            },
        }
    }
}

/// An invalid-operation failure with the given detail.
pub fn layout_error(message: &str) -> (r: RenderError)
    ensures
        r == RenderError::InvalidOperation(r->InvalidOperation_0) && r->InvalidOperation_0@ == message@,
{
    let v = chars_of(message);
    RenderError::InvalidOperation(string_of(v.as_slice()))
}

/// Number of leading characters of `s` (from index `i`, having used `used` columns) that
/// fit in `cols` columns: scanning stops at the first character that would overflow.
pub open spec fn fitting_prefix(s: Seq<char>, i: int, used: int, cols: int) -> int
    decreases s.len() - i,
{
    if i < 0 || i >= s.len() {
        s.len() as int
    } else if used + cell_width(s[i]) > cols {
        i
    } else {
        fitting_prefix(s, i + 1, used + cell_width(s[i]), cols)
    }
}

/// The single line of an error frame: `template error: ` and the message, clipped to the
/// viewport width.
pub open spec fn error_line(message: Seq<char>, cols: usize) -> Seq<char> {
    let text = "template error: "@ + message;
    text.take(fitting_prefix(text, 0, 0, cols as int))
}

proof fn lemma_fitting_prefix_bounds(s: Seq<char>, i: int, used: int, cols: int)
    requires
        0 <= i <= s.len(),
    ensures
        i <= fitting_prefix(s, i, used, cols) <= s.len(),
    decreases s.len() - i,
{
    if i < s.len() && used + cell_width(s[i]) <= cols {
        lemma_fitting_prefix_bounds(s, i + 1, used + cell_width(s[i]), cols);
    }
}

/// Columns that `s` takes on screen: the sum of its characters' cell widths.
pub open spec fn text_width(s: Seq<char>) -> nat
    decreases s.len(),
{
    if s.len() == 0 { 0 } else { text_width(s.drop_last()) + cell_width(s.last()) as nat }
}

proof fn lemma_fitting_prefix_width(s: Seq<char>, i: int, used: int, cols: int)
    requires
        0 <= i <= s.len(),
        0 <= used <= cols,
        text_width(s.take(i)) == used,
    ensures
        text_width(s.take(fitting_prefix(s, i, used, cols))) <= cols,
    decreases s.len() - i,
{
    if i == s.len() {
        assert(s.take(i) =~= s.take(s.len() as int));
    } else if used + cell_width(s[i]) <= cols {
        assert(s.take(i + 1).drop_last() =~= s.take(i));
        lemma_fitting_prefix_width(s, i + 1, used + cell_width(s[i]), cols);
    }
}

/// Law: an error frame's line fits the viewport: its characters take at most `cols` columns.
pub proof fn lemma_error_line_fits(message: Seq<char>, cols: usize)
    ensures
        text_width(error_line(message, cols)) <= cols,
{
    let text = "template error: "@ + message;
    assert(text.take(0) =~= Seq::<char>::empty());
    lemma_fitting_prefix_width(text, 0, 0, cols as int);
}

/// Visible, clipped output for a template or layout failure: one line (none for a viewport
/// without rows) reading `template error: ` and the message, clipped to the viewport width,
/// over a row of empty hitboxes.
pub fn error_frame<A>(error: &RenderError, viewport: Viewport) -> (r: Frame<A>)
    ensures
        r.refresh_after is None,
        viewport.rows == 0 ==> r.lines@.len() == 0 && r.hitboxes@.len() == 0,
        viewport.rows > 0 ==> {
            &&& r.lines@.len() == 1
            &&& r.lines@[0]@ == error_line(render_error_text(*error), viewport.cols)
            &&& r.hitboxes@.len() == 1
            &&& r.hitboxes@[0]@.len() == viewport.cols
            &&& forall|c: int| 0 <= c < viewport.cols ==> #[trigger] r.hitboxes@[0]@[c] is None
        },
{
    if viewport.rows == 0 {
        return Frame { lines: Vec::new(), hitboxes: Vec::new(), refresh_after: None };
    }
    let message = error.message();
    let mut text: Vec<char> = Vec::new();
    extend_str(&mut text, "template error: ");
    extend_str(&mut text, message.as_str());
    let ghost full = text@;
    let mut used: usize = 0;
    let mut i: usize = 0;
    let mut stop = false;
    proof {
        lemma_fitting_prefix_bounds(full, 0, 0, viewport.cols as int);
    }
    while i < text.len() && !stop
        invariant
            i <= text@.len(),
            full == text@,
            used <= viewport.cols,
            !stop ==> fitting_prefix(full, 0, 0, viewport.cols as int) == fitting_prefix(full, i as int, used as int, viewport.cols as int),
            stop ==> fitting_prefix(full, 0, 0, viewport.cols as int) == i,
        decreases text@.len() - i, (if stop { 0int } else { 1int }),
    {
        let w = match char_width(text[i]) {
            Some(w) => w,
            None => 0,
        };
        if w > viewport.cols - used {
            stop = true;
        } else {
            used = used + w;
            i += 1;
        }
    }
    let kept = crate::chars::sub_chars(text.as_slice(), 0, i);
    proof {
        assert(kept@ =~= full.take(i as int));
    }
    let line = string_of(kept.as_slice());
    let mut row: Vec<Option<A>> = Vec::new();
    let mut c: usize = 0;
    while c < viewport.cols
        invariant
            c <= viewport.cols,
            row@.len() == c,
            forall|k: int| 0 <= k < c ==> #[trigger] row@[k] is None,
        decreases viewport.cols - c,
    {
        row.push(None);
        c += 1;
    }
    let mut lines: Vec<String> = Vec::new();
    lines.push(line);
    let mut hitboxes: Vec<Vec<Option<A>>> = Vec::new();
    hitboxes.push(row);
    Frame { lines, hitboxes, refresh_after: None }
}

/// Whether a click at `row` and `col` lands on a cell with an action in `frame`.
pub open spec fn clickable<A>(frame: Frame<A>, row: isize, col: usize) -> bool {
    &&& 0 <= row < frame.hitboxes@.len()
    &&& col < frame.hitboxes@[row as int]@.len()
    &&& frame.hitboxes@[row as int]@[col as int] is Some
}

/// The action of the cell a left click at `row` and `col` lands on (rows above the frame,
/// cells outside it and cells without a button give none).
pub fn hit_action<A: Clone>(frame: &Frame<A>, row: isize, col: usize) -> (r: Option<A>)
    ensures
        r is Some <==> clickable(*frame, row, col),
        r matches Some(a) ==> frame.hitboxes@[row as int]@[col as int] matches Some(h) && cloned::<A>(h, a),
{
    if row < 0 {
        return None;
    }
    let r = row as usize;
    if r >= frame.hitboxes.len() {
        return None;
    }
    let line = &frame.hitboxes[r];
    if col >= line.len() {
        return None;
    }
    match &line[col] {
        Some(a) => Some(a.clone()),
        None => None,
    }
}

/// The text a plugin prints for a frame: one entry per viewport row, each clearing its
/// terminal line before the frame's line for that row (nothing past the frame's lines),
/// joined by newlines.
pub open spec fn screen_text(lines: Seq<String>, rows: nat) -> Seq<char>
    decreases rows,
{
    if rows == 0 {
        Seq::empty()
    } else {
        let row = (rows - 1) as nat;
        let line = if row < lines.len() { lines[row as int]@ } else { Seq::<char>::empty() };
        let entry = "\u{1b}[2K"@ + line;
        if row == 0 { entry } else { screen_text(lines, row) + seq!['\n'] + entry }
    }
}

/// The text a plugin prints for a frame's lines in a viewport of `rows` rows.
pub fn screen_output(lines: &Vec<String>, rows: usize) -> (r: String)
    ensures
        r@ == screen_text(lines@, rows as nat),
{
    let mut v: Vec<char> = Vec::new();
    let mut row: usize = 0;
    while row < rows
        invariant
            row <= rows,
            v@ == screen_text(lines@, row as nat),
        decreases rows - row,
    {
        if row > 0 {
            v.push('\n');
        }
        extend_str(&mut v, "\u{1b}[2K");
        if row < lines.len() {
            extend_str(&mut v, lines[row].as_str());
        }
        proof {
            let line = if row < lines@.len() { lines@[row as int]@ } else { Seq::<char>::empty() };
            if row == 0 {
                assert(v@ =~= "\u{1b}[2K"@ + line);
            } else {
                assert(v@ =~= screen_text(lines@, row as nat) + seq!['\n'] + ("\u{1b}[2K"@ + line));
            }
        }
        row += 1;
    }
    string_of(v.as_slice())
}

/// The grid that rendered markup lays out to: its top-level nodes in a default row
/// container filling the viewport.
pub open spec fn markup_grid(markup: Seq<char>, n_actions: nat, viewport: Viewport) -> Result<Seq<Seq<CellV>>, LayoutError> {
    match parse_markup_spec(markup, n_actions) {
        Err(e) => Err(e),
        Ok(nodes) => layout_spec(NodeV::Flex { spec: default_flex_spec(), children: nodes }, viewport.cols, viewport.rows),
    }
}

/// Law: every cell of the grid laid out from markup that carries an action carries the
/// action of a button in the markup (and so every hitbox of a frame made from markup holds a
/// copy of an action that one of its buttons names).
pub proof fn lemma_grid_actions_come_from_buttons(markup: Seq<char>, n_actions: nat, viewport: Viewport)
    requires
        markup_grid(markup, n_actions, viewport) is Ok,
    ensures
        parse_markup_spec(markup, n_actions) matches Ok(nodes) && crate::hitboxes::actions_in(
            markup_grid(markup, n_actions, viewport).unwrap(),
            |a: usize| crate::hitboxes::has_action(NodeV::Flex { spec: default_flex_spec(), children: nodes }, a),
        ),
{
    let nodes = parse_markup_spec(markup, n_actions).unwrap();
    crate::hitboxes::lemma_layout_actions(NodeV::Flex { spec: default_flex_spec(), children: nodes }, viewport.cols, viewport.rows);
}

/// Whether a frame shows `grid`: one line per row (cell texts, trailing spaces trimmed),
/// and a hitbox per cell holding a copy of the action its index names.
pub open spec fn frame_shows<A: Clone>(f: Frame<A>, grid: Seq<Seq<CellV>>, actions: Seq<A>) -> bool {
    &&& f.lines@.len() == grid.len()
    &&& f.hitboxes@.len() == grid.len()
    &&& forall|r: int| 0 <= r < grid.len() ==> #[trigger] f.lines@[r]@ == line_of(grid[r])
    &&& forall|r: int| 0 <= r < grid.len() ==> #[trigger] f.hitboxes@[r]@.len() == grid[r].len()
    &&& forall|r: int, c: int| 0 <= r < grid.len() && 0 <= c < grid[r].len() ==> {
        let h = #[trigger] f.hitboxes@[r]@[c];
        match grid[r][c].action {
            Some(id) => if id < actions.len() {
                h matches Some(a) && cloned::<A>(actions[id as int], a)
            } else {
                h is None
            },
            None => h is None,
        }
    }
}

fn resolve_row<A: Clone>(ids: &Vec<Option<usize>>, actions: &Vec<A>) -> (r: Vec<Option<A>>)
    ensures
        r@.len() == ids@.len(),
        forall|c: int| 0 <= c < ids@.len() ==> {
            let h = #[trigger] r@[c];
            match ids@[c] {
                Some(id) => if id < actions@.len() {
                    h matches Some(a) && cloned::<A>(actions@[id as int], a)
                } else {
                    h is None
                },
                None => h is None,
            }
        },
{
    let mut out: Vec<Option<A>> = Vec::new();
    let mut c: usize = 0;
    while c < ids.len()
        invariant
            c <= ids@.len(),
            out@.len() == c,
            forall|k: int| 0 <= k < c ==> {
                let h = #[trigger] out@[k];
                match ids@[k] {
                    Some(id) => if id < actions@.len() {
                        h matches Some(a) && cloned::<A>(actions@[id as int], a)
                    } else {
                        h is None
                    },
                    None => h is None,
                }
            },
        decreases ids@.len() - c,
    {
        let h = match ids[c] {
            Some(id) => if id < actions.len() {
                Some(actions[id].clone())
            } else {
                None
            },
            None => None,
        };
        out.push(h);
        c += 1;
    }
    out
}

/// Lays out rendered markup into a frame for `viewport`. Buttons name actions by their
/// index in `actions`; the frame's hitboxes hold copies of those actions.
pub fn frame_from_markup<A: Clone>(markup: &str, actions: &Vec<A>, viewport: Viewport, refresh_after: Option<Duration>) -> (r: Result<Frame<A>, LayoutError>)
    ensures
        viewport.rows == 0 || viewport.cols == 0 ==> (r matches Ok(f) && f.lines@.len() == 0 && f.hitboxes@.len() == 0 && f.refresh_after is None),
        viewport.rows > 0 && viewport.cols > 0 ==> match r {
            Ok(f) => {
                &&& markup_grid(markup@, actions@.len(), viewport) matches Ok(grid)
                &&& frame_shows(f, grid, actions@)
                &&& f.refresh_after == refresh_after
                &&& f.lines@.len() == viewport.rows
                &&& f.hitboxes@.len() == viewport.rows
                &&& forall|k: int| 0 <= k < viewport.rows ==> #[trigger] f.hitboxes@[k]@.len() == viewport.cols
            },
            Err(e) => markup_grid(markup@, actions@.len(), viewport) == Err::<Seq<Seq<CellV>>, LayoutError>(e),
        },
{
    if viewport.rows == 0 || viewport.cols == 0 {
        return Ok(Frame { lines: Vec::new(), hitboxes: Vec::new(), refresh_after: None });
    }
    let input = chars_of(markup);
    let nodes = match parse_nodes(input.as_slice(), actions.len()) {
        Ok(nodes) => nodes,
        Err(e) => return Err(e),
    };
    let root = Node::Flex { spec: FlexSpec::new(), children: nodes };
    let canvas = match layout(&root, viewport.cols, viewport.rows) {
        Ok(c) => c,
        Err(e) => return Err(e),
    };
    proof {
        crate::layout::lemma_layout_size(root@, viewport.cols, viewport.rows);
    }
    let lines = canvas.lines();
    let ids = canvas.action_ids();
    let mut hitboxes: Vec<Vec<Option<A>>> = Vec::new();
    let mut r: usize = 0;
    while r < ids.len()
        invariant
            r <= ids@.len(),
            ids@.len() == canvas@.len(),
            forall|k: int| 0 <= k < ids@.len() ==> #[trigger] ids@[k]@ == crate::canvas::row_actions(canvas@[k]),
            hitboxes@.len() == r,
            forall|k: int| 0 <= k < r ==> #[trigger] hitboxes@[k]@.len() == canvas@[k].len(),
            forall|k: int, c: int| 0 <= k < r && 0 <= c < canvas@[k].len() ==> {
                let h = #[trigger] hitboxes@[k]@[c];
                match canvas@[k][c].action {
                    Some(id) => if id < actions@.len() {
                        h matches Some(a) && cloned::<A>(actions@[id as int], a)
                    } else {
                        h is None
                    },
                    None => h is None,
                }
            },
        decreases ids@.len() - r,
    {
        let row = resolve_row(&ids[r], actions);
        hitboxes.push(row);
        r += 1;
    }
    Ok(Frame { lines, hitboxes, refresh_after })
}

} // verus!
