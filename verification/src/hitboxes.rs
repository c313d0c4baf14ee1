//! Where the actions of a laid-out grid come from: every cell that carries an action
//! carries the action of a button in the tree that was laid out.

use vstd::prelude::*;
use crate::canvas::{blank_grid, blit_row_cell, blit_row_spec, blit_spec, CellV};
use crate::layout::{
    first_overflow, flex_children_spec, layout_flex_spec, layout_spec, lemma_first_overflow, overflow_children,
    place_child, place_from,
};
use crate::node::{FlexSpec, NodeV};
use crate::paint::{finish_row, paint_from, paint_line_spec, paint_rows, set_continuation_range, text_canvas_spec};
use crate::ansi::text_lines_spec;

verus! {

/// Whether tree `n` holds a button whose action is `a`.
pub open spec fn has_action(n: NodeV, a: usize) -> bool
    decreases n, 0nat,
{
    match n {
        NodeV::Button { action, .. } => action == a,
        NodeV::Flex { children, .. } => any_has_action(children, a, 0),
        NodeV::OnOverflow { children } => any_has_action(children, a, 0),
        NodeV::Text(_) => false,
    }
}

/// Whether any tree of `cs` from index `i` on holds a button whose action is `a`.
pub open spec fn any_has_action(cs: Seq<NodeV>, a: usize, i: int) -> bool
    decreases cs, cs.len() - i,
{
    if i < 0 || i >= cs.len() {
        false
    } else {
        has_action(cs[i], a) || any_has_action(cs, a, i + 1)
    }
}

/// Whether every cell of a row that carries an action carries one that `allowed` accepts.
pub open spec fn row_actions_in(row: Seq<CellV>, allowed: spec_fn(usize) -> bool) -> bool {
    forall|c: int| 0 <= c < row.len() && (#[trigger] row[c]).action is Some ==> allowed(row[c].action.unwrap())
}

/// Whether every cell of a grid that carries an action carries one that `allowed` accepts.
pub open spec fn actions_in(g: Seq<Seq<CellV>>, allowed: spec_fn(usize) -> bool) -> bool {
    forall|r: int| 0 <= r < g.len() ==> row_actions_in(#[trigger] g[r], allowed)
}

proof fn lemma_any_has_action(cs: Seq<NodeV>, a: usize, i: int, j: int)
    requires
        0 <= i <= j < cs.len(),
        has_action(cs[j], a),
    ensures
        any_has_action(cs, a, i),
    decreases j - i,
{
    if i < j {
        lemma_any_has_action(cs, a, i + 1, j);
    }
}

proof fn lemma_any_has_action_witness(cs: Seq<NodeV>, a: usize, i: int)
    requires
        0 <= i,
        any_has_action(cs, a, i),
    ensures
        exists|j: int| i <= j < cs.len() && #[trigger] has_action(cs[j], a),
    decreases cs.len() - i,
{
    if !has_action(cs[i], a) {
        lemma_any_has_action_witness(cs, a, i + 1);
    }
}

proof fn lemma_blank_actions(width: nat, height: nat, allowed: spec_fn(usize) -> bool)
    ensures
        actions_in(blank_grid(width, height), allowed),
{
}

proof fn lemma_blit_actions(target: Seq<Seq<CellV>>, src: Seq<Seq<CellV>>, x: int, y: int, sx: int, sy: int, cw: int, ch: int, allowed: spec_fn(usize) -> bool)
    requires
        sx >= 0,
        sy >= 0,
        actions_in(target, allowed),
        actions_in(src, allowed),
    ensures
        actions_in(blit_spec(target, src, x, y, sx, sy, cw, ch), allowed),
{
    let g = blit_spec(target, src, x, y, sx, sy, cw, ch);
    assert forall|r: int| 0 <= r < g.len() implies row_actions_in(#[trigger] g[r], allowed) by {
        if 0 <= r - y < ch && sy + (r - y) < src.len() {
            let t = target[r];
            let s = src[sy + (r - y)];
            assert(row_actions_in(t, allowed));
            assert(row_actions_in(s, allowed));
            assert forall|c: int| 0 <= c < g[r].len() && (#[trigger] g[r][c]).action is Some implies allowed(g[r][c].action.unwrap()) by {
                assert(g[r][c] == blit_row_cell(t, s, x, sx, cw, c));
                let cx = c - x;
                if 0 <= cx < cw && 0 <= sx && sx + cx < s.len() {
                    assert(s[sx + cx] == s[sx + cx]);
                } else {
                    assert(t[c] == t[c]);
                }
            }
        }
    }
}

proof fn lemma_place_child_actions(spec: FlexSpec, canvas: Seq<Seq<CellV>>, child: Seq<Seq<CellV>>, cursor: usize, main: usize, offset: usize, main_available: usize, cross: usize, child_w: usize, child_h: usize, allowed: spec_fn(usize) -> bool)
    requires
        actions_in(canvas, allowed),
        actions_in(child, allowed),
    ensures
        actions_in(place_child(spec, canvas, child, cursor, main, offset, main_available, cross, child_w, child_h), allowed),
{
    let visible_cursor = crate::layout::sat_sub(cursor, offset);
    if crate::ansi::sat_add(cursor, main) > offset && visible_cursor < main_available {
        let skip = crate::layout::sat_sub(offset, cursor);
        let span = crate::layout::min_size(crate::layout::sat_sub(main, skip), (main_available - visible_cursor) as usize);
        lemma_blit_actions(canvas, child, visible_cursor as int, cross as int, skip as int, 0, span as int, child_h as int, allowed);
        lemma_blit_actions(canvas, child, cross as int, visible_cursor as int, 0, skip as int, child_w as int, span as int, allowed);
    }
}

/// Whether every cell of a row carries `action` or none.
pub open spec fn row_actions_only(row: Seq<CellV>, action: Option<usize>) -> bool {
    forall|c: int| 0 <= c < row.len() ==> (#[trigger] row[c]).action is None || row[c].action == action
}

proof fn lemma_paint_from_actions(line: Seq<char>, i: int, width: int, action: Option<usize>, x: int, active: Seq<char>, pending: Seq<char>, row: Seq<CellV>)
    requires
        row_actions_only(row, action),
        0 <= x <= row.len(),
        width == row.len(),
    ensures
        paint_from(line, i, width, action, x, active, pending, row) matches Ok(r) ==> row_actions_only(r, action),
    decreases line.len() - i,
{
    if i < 0 || i >= line.len() {
        let r = finish_row(row, x, pending);
        assert forall|c: int| 0 <= c < r.len() implies (#[trigger] r[c]).action is None || r[c].action == action by {
            assert(r[c].action == row[c].action);
        }
    } else if line[i] == crate::ansi::esc() {
        match crate::ansi::escape_end(line, i + 1) {
            Err(_) => {},
            Ok(e) => if !(e <= i || e > line.len()) {
                let q = line.subrange(i, e);
                if crate::paint::is_sgr(q) {
                    if q == crate::paint::sgr_reset() {
                        lemma_paint_from_actions(line, e, width, action, x, Seq::empty(), pending, row);
                    } else {
                        lemma_paint_from_actions(line, e, width, action, x, active + q, pending, row);
                    }
                } else {
                    lemma_paint_from_actions(line, e, width, action, x, active, pending + q, row);
                }
            },
        }
    } else {
        let ch = line[i];
        let cw = crate::ansi::cell_width(ch) as int;
        if cw == 0 {
            lemma_paint_from_actions(line, i + 1, width, action, x, active, pending.push(ch), row);
        } else if x + cw > width {
            let r = finish_row(row, x, pending);
            assert forall|c: int| 0 <= c < r.len() implies (#[trigger] r[c]).action is None || r[c].action == action by {
                assert(r[c].action == row[c].action);
            }
        } else {
            assert(x + cw <= row.len());
            let text = pending + active + seq![ch] + (if active.len() > 0 { crate::paint::sgr_reset() } else { Seq::empty() });
            let r1 = row.update(x, CellV { text, action });
            let r2 = set_continuation_range(r1, x + 1, x + cw, action);
            assert forall|c: int| 0 <= c < r2.len() implies (#[trigger] r2[c]).action is None || r2[c].action == action by {
                if !(x + 1 <= c < x + cw) {
                    assert(r2[c] == r1[c]);
                    if c != x {
                        assert(r1[c] == row[c]);
                    }
                }
            }
            lemma_paint_from_actions(line, i + 1, width, action, x + cw, active, Seq::empty(), r2);
        }
    }
}

proof fn lemma_paint_rows_actions(lines: Seq<Seq<char>>, y: int, width: nat, height: nat, action: Option<usize>, acc: Seq<Seq<CellV>>)
    requires
        forall|r: int| 0 <= r < acc.len() ==> row_actions_only(#[trigger] acc[r], action),
    ensures
        paint_rows(lines, y, width, height, action, acc) matches Ok(g)
            ==> forall|r: int| 0 <= r < g.len() ==> row_actions_only(#[trigger] g[r], action),
    decreases height - y,
{
    if 0 <= y < height {
        if y < lines.len() {
            let blank = crate::canvas::blank_row(width);
            assert(row_actions_only(blank, action));
            lemma_paint_from_actions(lines[y], 0, width as int, action, 0, Seq::empty(), Seq::empty(), blank);
            match paint_line_spec(lines[y], width, action) {
                Err(_) => {},
                Ok(row) => {
                    let acc2 = acc.push(row);
                    assert forall|r: int| 0 <= r < acc2.len() implies row_actions_only(#[trigger] acc2[r], action) by {
                        if r < acc.len() {
                            assert(acc2[r] == acc[r]);
                        }
                    }
                    lemma_paint_rows_actions(lines, y + 1, width, height, action, acc2);
                },
            }
        } else {
            let acc2 = acc.push(crate::canvas::blank_row(width));
            assert forall|r: int| 0 <= r < acc2.len() implies row_actions_only(#[trigger] acc2[r], action) by {
                if r < acc.len() {
                    assert(acc2[r] == acc[r]);
                }
            }
            lemma_paint_rows_actions(lines, y + 1, width, height, action, acc2);
        }
    }
}

/// A text canvas carries only the action it was painted with.
proof fn lemma_text_canvas_actions(text: Seq<char>, width: nat, height: nat, action: Option<usize>)
    ensures
        text_canvas_spec(text, width, height, action) matches Ok(g)
            ==> forall|r: int| 0 <= r < g.len() ==> row_actions_only(#[trigger] g[r], action),
{
    match text_lines_spec(text) {
        Err(_) => {},
        Ok(lines) => lemma_paint_rows_actions(lines, 0, width, height, action, Seq::empty()),
    }
}

/// Law: every cell of a laid-out tree that carries an action carries the action of a
/// button in that tree.
pub proof fn lemma_layout_actions(n: NodeV, width: usize, height: usize)
    ensures
        layout_spec(n, width, height) matches Ok(g) ==> actions_in(g, |a: usize| has_action(n, a)),
    decreases n, 3int, 0int,
{
    match n {
        NodeV::Text(t) => {
            lemma_text_canvas_actions(t, width as nat, height as nat, None);
        },
        NodeV::Button { action, label, .. } => {
            lemma_text_canvas_actions(label, width as nat, height as nat, Some(action));
        },
        NodeV::Flex { spec, children } => {
            lemma_flex_actions(spec, children, width, height);
            if let Ok(g) = layout_spec(n, width, height) {
                assert forall|r: int| 0 <= r < g.len() implies row_actions_in(#[trigger] g[r], |a: usize| has_action(n, a)) by {
                    assert(row_actions_in(g[r], |a: usize| any_has_action(children, a, 0)));
                }
            }
        },
        NodeV::OnOverflow { .. } => {},
    }
}

proof fn lemma_actions_weaken(g: Seq<Seq<CellV>>, p: spec_fn(usize) -> bool, q: spec_fn(usize) -> bool)
    requires
        actions_in(g, p),
        forall|a: usize| #[trigger] p(a) ==> q(a),
    ensures
        actions_in(g, q),
{
    assert forall|r: int| 0 <= r < g.len() implies row_actions_in(#[trigger] g[r], q) by {
        assert(row_actions_in(g[r], p));
        assert forall|c: int| 0 <= c < g[r].len() && (#[trigger] g[r][c]).action is Some implies q(g[r][c].action.unwrap()) by {
            assert(p(g[r][c].action.unwrap()));
        }
    }
}

proof fn lemma_overflow_subsets(children: Seq<NodeV>, idx: int)
    requires
        0 <= idx < children.len(),
    ensures
        forall|a: usize| #[trigger] any_has_action(children.remove(idx), a, 0) ==> any_has_action(children, a, 0),
        forall|a: usize| #[trigger] any_has_action(overflow_children(children[idx]), a, 0) ==> any_has_action(children, a, 0),
{
    let normal = children.remove(idx);
    assert forall|a: usize| #[trigger] any_has_action(normal, a, 0) implies any_has_action(children, a, 0) by {
        lemma_any_has_action_witness(normal, a, 0);
        let j = choose|j: int| 0 <= j < normal.len() && #[trigger] has_action(normal[j], a);
        if j < idx {
            assert(normal[j] == children[j]);
            lemma_any_has_action(children, a, 0, j);
        } else {
            assert(normal[j] == children[j + 1]);
            lemma_any_has_action(children, a, 0, j + 1);
        }
    }
    assert forall|a: usize| #[trigger] any_has_action(overflow_children(children[idx]), a, 0) implies any_has_action(children, a, 0) by {
        if children[idx] is OnOverflow {
            assert(has_action(children[idx], a));
            lemma_any_has_action(children, a, 0, idx);
        }
    }
}

#[verifier::rlimit(60)]
proof fn lemma_flex_actions(spec: FlexSpec, children: Seq<NodeV>, width: usize, height: usize)
    ensures
        layout_flex_spec(spec, children, width, height) matches Ok(g)
            ==> actions_in(g, |a: usize| any_has_action(children, a, 0)),
    decreases children, 2int, 0int,
{
    let allowed = |a: usize| any_has_action(children, a, 0);
    match first_overflow(children, 0) {
        None => {
            lemma_children_actions(spec, children, width, height);
        },
        Some(idx) => if idx < 0 || idx >= children.len() {
            lemma_children_actions(spec, children, width, height);
        } else if first_overflow(children, idx + 1) is Some {
        } else if spec.overflow != crate::node::Overflow::Scroll {
        } else {
            let normal = children.remove(idx);
            let indicator = overflow_children(children[idx]);
            lemma_first_overflow(children, 0);
            assert forall|i2: int| 0 <= i2 < normal.len() && #[trigger] vstd::pervasive::trigger(normal[i2]) implies exists|i1: int| 0 <= i1 < children.len() && children[i1] == normal[i2] by {
                if i2 < idx {
                    assert(children[i2] == normal[i2]);
                } else {
                    assert(children[i2 + 1] == normal[i2]);
                }
            }
            vstd::seq::axiom_seq_len_decreases(children, normal);
            assert(decreases_to!(children => children[idx]));
            assert(decreases_to!(children[idx] => children[idx]->OnOverflow_children));
            assert(indicator == children[idx]->OnOverflow_children);
            assert(decreases_to!(children => indicator));
            let from_normal = |a: usize| any_has_action(normal, a, 0);
            let from_indicator = |a: usize| any_has_action(indicator, a, 0);
            lemma_overflow_subsets(children, idx);
            let dir = spec.direction;
            let main_available = crate::layout::main_extent(dir, width, height);
            match crate::layout::naturals_spec(normal) {
                Err(_) => {},
                Ok(nats) => {
                    let natural_main = crate::ansi::sat_add(
                        crate::layout::sum_sizes(crate::layout::basis_sizes(dir, normal, nats)),
                        crate::layout::gaps_for(spec.gap, normal.len()),
                    );
                    if natural_main <= main_available {
                        lemma_children_actions(spec, normal, width, height);
                        if let Ok(g) = flex_children_spec(spec, normal, width, height) {
                            lemma_actions_weaken(g, from_normal, allowed);
                        }
                    } else {
                        match crate::layout::naturals_spec(indicator) {
                            Err(_) => {},
                            Ok(inats) => {
                                let indicator_natural = (crate::layout::sum_w(inats), if inats.len() == 0 { 1usize } else { crate::layout::max_h(inats) });
                                let indicator_main = crate::layout::min_size(crate::layout::main_of(dir, indicator_natural), main_available);
                                let indicator_gap = crate::layout::min_size(spec.gap, crate::layout::sat_sub(main_available, indicator_main));
                                let content_main = (main_available - (indicator_main + indicator_gap)) as usize;
                                let content_w = if dir == crate::node::Direction::Row { content_main } else { width };
                                let content_h = if dir == crate::node::Direction::Row { height } else { content_main };
                                let ind_w = if dir == crate::node::Direction::Row { indicator_main } else { width };
                                let ind_h = if dir == crate::node::Direction::Row { height } else { indicator_main };
                                lemma_children_actions(spec, normal, content_w, content_h);
                                lemma_children_actions(crate::node::default_flex_spec(), indicator, ind_w, ind_h);
                                match flex_children_spec(spec, normal, content_w, content_h) {
                                    Err(_) => {},
                                    Ok(content) => match flex_children_spec(crate::node::default_flex_spec(), indicator, ind_w, ind_h) {
                                        Err(_) => {},
                                        Ok(ind) => {
                                            lemma_actions_weaken(content, from_normal, allowed);
                                            lemma_actions_weaken(ind, from_indicator, allowed);
                                            lemma_blank_actions(width as nat, height as nat, allowed);
                                            let c1 = blit_spec(blank_grid(width as nat, height as nat), content, 0, 0, 0, 0, crate::canvas::grid_width(content) as int, content.len() as int);
                                            lemma_blit_actions(blank_grid(width as nat, height as nat), content, 0, 0, 0, 0, crate::canvas::grid_width(content) as int, content.len() as int, allowed);
                                            let at = content_main + indicator_gap;
                                            lemma_blit_actions(c1, ind, at, 0, 0, 0, ind_w as int, ind_h as int, allowed);
                                            lemma_blit_actions(c1, ind, 0, at, 0, 0, ind_w as int, ind_h as int, allowed);
                                        },
                                    },
                                }
                            },
                        }
                    }
                },
            }
        },
    }
}

proof fn lemma_children_actions(spec: FlexSpec, cs: Seq<NodeV>, width: usize, height: usize)
    ensures
        flex_children_spec(spec, cs, width, height) matches Ok(g) ==> actions_in(g, |a: usize| any_has_action(cs, a, 0)),
    decreases cs, 1int, 0int,
{
    match crate::layout::naturals_spec(cs) {
        Err(_) => {},
        Ok(nats) => {
            let main_available = crate::layout::main_extent(spec.direction, width, height);
            let sizes = crate::layout::flex_sizes(spec, cs, nats, main_available);
            let content_size = crate::ansi::sat_add(crate::layout::sum_sizes(sizes), crate::layout::gaps_for(spec.gap, cs.len()));
            let offset = if spec.overflow == crate::node::Overflow::Scroll && content_size > main_available {
                crate::layout::offset_from(cs, sizes, spec.gap, main_available, 0, 0)
            } else {
                0
            };
            let free = crate::layout::sat_sub(main_available, content_size);
            let (cursor, extra) = crate::layout::justify_spec(spec.justify, free, cs.len() as usize);
            lemma_blank_actions(width as nat, height as nat, |a: usize| any_has_action(cs, a, 0));
            lemma_place_actions(spec, cs, nats, sizes, width, height, offset, extra, 0, cursor, blank_grid(width as nat, height as nat));
        },
    }
}

proof fn lemma_place_actions(spec: FlexSpec, cs: Seq<NodeV>, nats: Seq<(usize, usize)>, sizes: Seq<usize>, width: usize, height: usize, offset: usize, extra: usize, i: int, cursor: usize, canvas: Seq<Seq<CellV>>)
    requires
        actions_in(canvas, |a: usize| any_has_action(cs, a, 0)),
    ensures
        place_from(spec, cs, nats, sizes, width, height, offset, extra, i, cursor, canvas) matches Ok(g)
            ==> actions_in(g, |a: usize| any_has_action(cs, a, 0)),
    decreases cs, 0int, cs.len() - i,
{
    let allowed = |a: usize| any_has_action(cs, a, 0);
    if !(i < 0 || i >= cs.len() || i >= nats.len() || i >= sizes.len()) {
        let dir = spec.direction;
        let main_available = crate::layout::main_extent(dir, width, height);
        let cross_available = crate::layout::cross_extent(dir, width, height);
        let main = sizes[i];
        let child_cross = crate::layout::child_cross_size(spec, nats[i], cross_available);
        let cross = crate::layout::cross_position(spec.align, cross_available, child_cross);
        let child_w = if dir == crate::node::Direction::Row { main } else { child_cross };
        let child_h = if dir == crate::node::Direction::Row { child_cross } else { main };
        assert(decreases_to!(cs => cs[i]));
        lemma_layout_actions(cs[i], child_w, child_h);
        match layout_spec(cs[i], child_w, child_h) {
            Err(_) => {},
            Ok(child) => {
                assert forall|a: usize| #[trigger] has_action(cs[i], a) implies allowed(a) by {
                    lemma_any_has_action(cs, a, 0, i);
                }
                lemma_actions_weaken(child, |a: usize| has_action(cs[i], a), allowed);
                let next = place_child(spec, canvas, child, cursor, main, offset, main_available, cross, child_w, child_h);
                lemma_place_child_actions(spec, canvas, child, cursor, main, offset, main_available, cross, child_w, child_h, allowed);
                lemma_place_actions(spec, cs, nats, sizes, width, height, offset, extra, i + 1,
                    crate::ansi::sat_add(crate::ansi::sat_add(crate::ansi::sat_add(cursor, main), spec.gap), extra), next);
            },
        }
    }
}

} // verus!
