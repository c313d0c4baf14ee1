//! Measures layout trees and paints them into viewport-sized cell grids.

use vstd::prelude::*;
use crate::ansi::{sat_add, text_lines_spec, split_text_lines, visible_width, visible_width_spec};
use crate::canvas::{blank_grid, blit_spec, grid_has_size, grid_width, Canvas, CellV};
use crate::chars::views;
use crate::node::default_flex_spec;
use crate::paint::{lemma_text_canvas_size, text_canvas, text_canvas_spec};
use crate::error::LayoutError;
use crate::node::{contains_focus_spec, lemma_view_nodes, view_nodes, Align, Basis, Direction, FlexSpec, Justify, Node, NodeV, Overflow};

verus! {

/// Saturating subtraction.
pub open spec fn sat_sub(a: usize, b: usize) -> usize {
    if a >= b { (a - b) as usize } else { 0 }
}

/// Saturating multiplication.
pub open spec fn sat_mul(a: usize, b: usize) -> usize {
    if a * b > usize::MAX { usize::MAX } else { (a * b) as usize }
}

/// The smaller of two sizes.
pub open spec fn min_size(a: usize, b: usize) -> usize {
    if a <= b { a } else { b }
}

/// The larger of two sizes.
pub open spec fn max_size(a: usize, b: usize) -> usize {
    if a >= b { a } else { b }
}

pub fn saturating_mul(a: usize, b: usize) -> (r: usize)
    ensures
        r == sat_mul(a, b),
{
    match a.checked_mul(b) {
        Some(p) => p,
        None => usize::MAX,
    }
}

/// Widest line of `lines` from index `i`, at least `acc`.
pub open spec fn max_width_from(lines: Seq<Seq<char>>, i: int, acc: usize) -> usize
    decreases lines.len() - i,
{
    if i < 0 || i >= lines.len() {
        acc
    } else {
        max_width_from(lines, i + 1, max_size(acc, visible_width_spec(lines[i])))
    }
}

/// Natural size of text: its widest line, and its number of lines.
pub open spec fn text_natural(t: Seq<char>) -> Result<(usize, usize), LayoutError> {
    match text_lines_spec(t) {
        Err(e) => Err(e),
        Ok(lines) => Ok((max_width_from(lines, 0, 0), if lines.len() >= 1 { lines.len() as usize } else { 1 })),
    }
}

/// Saturating sum of the widths of `s`.
pub open spec fn sum_w(s: Seq<(usize, usize)>) -> usize
    decreases s.len(),
{
    if s.len() == 0 { 0 } else { sat_add(sum_w(s.drop_last()), s.last().0) }
}

/// Saturating sum of the heights of `s`.
pub open spec fn sum_h(s: Seq<(usize, usize)>) -> usize
    decreases s.len(),
{
    if s.len() == 0 { 0 } else { sat_add(sum_h(s.drop_last()), s.last().1) }
}

/// Largest width of `s`, or zero.
pub open spec fn max_w(s: Seq<(usize, usize)>) -> usize
    decreases s.len(),
{
    if s.len() == 0 { 0 } else { max_size(max_w(s.drop_last()), s.last().0) }
}

/// Largest height of `s`, or zero.
pub open spec fn max_h(s: Seq<(usize, usize)>) -> usize
    decreases s.len(),
{
    if s.len() == 0 { 0 } else { max_size(max_h(s.drop_last()), s.last().1) }
}

/// Gap cells between `count` children.
pub open spec fn gaps_for(gap: usize, count: nat) -> usize {
    sat_mul(gap, sat_sub(count as usize, 1))
}

/// Natural (width, height) of a tree: text measures its lines; a row adds widths and gaps
/// and takes the tallest child; a column takes the widest child and adds heights and gaps.
pub open spec fn natural_spec(n: NodeV) -> Result<(usize, usize), LayoutError>
    decreases n, 0int,
{
    match n {
        NodeV::Text(t) => text_natural(t),
        NodeV::Button { label, .. } => text_natural(label),
        NodeV::Flex { spec, children } => match naturals_from(children, 0) {
            Err(e) => Err(e),
            Ok(sizes) => {
                let gaps = gaps_for(spec.gap, children.len());
                match spec.direction {
                    Direction::Row => Ok((sat_add(sum_w(sizes), gaps), if sizes.len() == 0 { 1 } else { max_h(sizes) })),
                    Direction::Column => Ok((max_w(sizes), sat_add(sum_h(sizes), gaps))),
                }
            },
        },
        NodeV::OnOverflow { children } => match naturals_from(children, 0) {
            Err(e) => Err(e),
            Ok(sizes) => Ok((sum_w(sizes), if sizes.len() == 0 { 1 } else { max_h(sizes) })),
        },
    }
}

/// Natural sizes of `cs[i..]`, or the first error among them.
pub open spec fn naturals_from(cs: Seq<NodeV>, i: int) -> Result<Seq<(usize, usize)>, LayoutError>
    decreases cs, cs.len() - i,
{
    if i < 0 || i >= cs.len() {
        Ok(Seq::empty())
    } else {
        match natural_spec(cs[i]) {
            Err(e) => Err(e),
            Ok(n) => match naturals_from(cs, i + 1) {
                Err(e) => Err(e),
                Ok(rest) => Ok(seq![n] + rest),
            },
        }
    }
}

/// Natural sizes of all of `cs`, or the first error among them.
pub open spec fn naturals_spec(cs: Seq<NodeV>) -> Result<Seq<(usize, usize)>, LayoutError> {
    naturals_from(cs, 0)
}

proof fn lemma_naturals_len(cs: Seq<NodeV>, i: int)
    requires
        0 <= i <= cs.len(),
    ensures
        naturals_from(cs, i) matches Ok(s) ==> s.len() == cs.len() - i,
    decreases cs.len() - i,
{
    if i < cs.len() {
        lemma_naturals_len(cs, i + 1);
    }
}

fn text_size(t: &[char]) -> (r: Result<(usize, usize), LayoutError>)
    ensures
        match r {
            Ok(s) => text_natural(t@) == Ok::<(usize, usize), LayoutError>(s),
            Err(e) => text_natural(t@) == Err::<(usize, usize), LayoutError>(e),
        },
{
    let lines = match split_text_lines(t) {
        Ok(lines) => lines,
        Err(e) => return Err(e),
    };
    let ghost lv = views(lines@);
    let mut width: usize = 0;
    let mut i: usize = 0;
    while i < lines.len()
        invariant
            i <= lines@.len(),
            lv == views(lines@),
            max_width_from(lv, 0, 0) == max_width_from(lv, i as int, width),
        decreases lines@.len() - i,
    {
        proof {
            assert(lv[i as int] == lines@[i as int]@);
        }
        let w = visible_width(lines[i].as_slice());
        if w > width {
            width = w;
        }
        i += 1;
    }
    let height = if lines.len() >= 1 { lines.len() } else { 1 };
    Ok((width, height))
}

fn sum_pairs(sizes: &Vec<(usize, usize)>) -> (r: (usize, usize, usize, usize))
    ensures
        r.0 == sum_w(sizes@),
        r.1 == sum_h(sizes@),
        r.2 == max_w(sizes@),
        r.3 == max_h(sizes@),
{
    let mut sw: usize = 0;
    let mut sh: usize = 0;
    let mut mw: usize = 0;
    let mut mh: usize = 0;
    let mut i: usize = 0;
    while i < sizes.len()
        invariant
            i <= sizes@.len(),
            sw == sum_w(sizes@.take(i as int)),
            sh == sum_h(sizes@.take(i as int)),
            mw == max_w(sizes@.take(i as int)),
            mh == max_h(sizes@.take(i as int)),
        decreases sizes@.len() - i,
    {
        let (w, h) = sizes[i];
        proof {
            assert(sizes@.take(i as int + 1).drop_last() =~= sizes@.take(i as int));
        }
        sw = sw.saturating_add(w);
        sh = sh.saturating_add(h);
        if w > mw {
            mw = w;
        }
        if h > mh {
            mh = h;
        }
        i += 1;
    }
    proof {
        assert(sizes@.take(sizes@.len() as int) =~= sizes@);
    }
    (sw, sh, mw, mh)
}

/// Natural (width, height) of a layout tree.
pub fn natural_size(node: &Node) -> (r: Result<(usize, usize), LayoutError>)
    ensures
        match r {
            Ok(s) => natural_spec(node@) == Ok::<(usize, usize), LayoutError>(s),
            Err(e) => natural_spec(node@) == Err::<(usize, usize), LayoutError>(e),
        },
    decreases node, 1int,
{
    match node {
        Node::Text(t) => text_size(t.as_slice()),
        Node::Button { label, .. } => text_size(label.as_slice()),
        Node::Flex { spec, children } => {
            proof {
                assert(decreases_to!(*node => node->Flex_children));
            }
            let sizes = match child_naturals(children, Ghost(node)) {
                Ok(s) => s,
                Err(e) => return Err(e),
            };
            let (sw, sh, mw, mh) = sum_pairs(&sizes);
            let gaps = saturating_mul(spec.gap, children.len().saturating_sub(1));
            proof {
                lemma_view_nodes(children@);
            }
            match spec.direction {
                Direction::Row => Ok((sw.saturating_add(gaps), if sizes.len() == 0 { 1 } else { mh })),
                Direction::Column => Ok((mw, sh.saturating_add(gaps))),
            }
        },
        Node::OnOverflow { children } => {
            proof {
                assert(decreases_to!(*node => node->OnOverflow_children));
            }
            let sizes = match child_naturals(children, Ghost(node)) {
                Ok(s) => s,
                Err(e) => return Err(e),
            };
            let (sw, sh, mw, mh) = sum_pairs(&sizes);
            Ok((sw, if sizes.len() == 0 { 1 } else { mh }))
        },
    }
}

fn child_naturals(children: &Vec<Node>, Ghost(parent): Ghost<&Node>) -> (r: Result<Vec<(usize, usize)>, LayoutError>)
    requires
        decreases_to!(*parent => *children),
    ensures
        match r {
            Ok(s) => naturals_spec(view_nodes(children@)) == Ok::<Seq<(usize, usize)>, LayoutError>(s@),
            Err(e) => naturals_spec(view_nodes(children@)) == Err::<Seq<(usize, usize)>, LayoutError>(e),
        },
    decreases parent, 0int,
{
    let ghost cs = view_nodes(children@);
    let mut out: Vec<(usize, usize)> = Vec::new();
    let mut i: usize = 0;
    while i < children.len()
        invariant
            i <= children@.len(),
            cs == view_nodes(children@),
            decreases_to!(*parent => *children),
            naturals_from(cs, 0) == (match naturals_from(cs, i as int) {
                Ok(rest) => Ok(out@ + rest),
                Err(e) => Err(e),
            }),
        decreases children@.len() - i,
    {
        proof {
            lemma_view_nodes(children@);
            assert(decreases_to!(*children => children@));
            assert(decreases_to!(children@ => children@[i as int]));
        }
        let n = match natural_size(&children[i]) {
            Ok(n) => n,
            Err(e) => return Err(e),
        };
        let ghost prev = out@;
        out.push(n);
        proof {
            assert(cs[i as int] == children@[i as int]@);
            match naturals_from(cs, i as int + 1) {
                Ok(rest) => {
                    assert(out@ + rest =~= prev + (seq![n] + rest));
                },
                Err(e) => {},
            }
        }
        i += 1;
    }
    proof {
        lemma_view_nodes(children@);
        assert(naturals_from(cs, i as int) == Ok::<Seq<(usize, usize)>, LayoutError>(Seq::empty()));
        assert(out@ + Seq::<(usize, usize)>::empty() =~= out@);
    }
    Ok(out)
}

/// Natural sizes of a list of layout trees, or the first error among them.
pub fn naturals(children: &Vec<Node>) -> (r: Result<Vec<(usize, usize)>, LayoutError>)
    ensures
        match r {
            Ok(s) => naturals_spec(view_nodes(children@)) == Ok::<Seq<(usize, usize)>, LayoutError>(s@),
            Err(e) => naturals_spec(view_nodes(children@)) == Err::<Seq<(usize, usize)>, LayoutError>(e),
        },
{
    let ghost cs = view_nodes(children@);
    let mut out: Vec<(usize, usize)> = Vec::new();
    let mut i: usize = 0;
    while i < children.len()
        invariant
            i <= children@.len(),
            cs == view_nodes(children@),
            naturals_from(cs, 0) == (match naturals_from(cs, i as int) {
                Ok(rest) => Ok(out@ + rest),
                Err(e) => Err(e),
            }),
        decreases children@.len() - i,
    {
        proof {
            lemma_view_nodes(children@);
        }
        let n = match natural_size(&children[i]) {
            Ok(n) => n,
            Err(e) => return Err(e),
        };
        let ghost prev = out@;
        out.push(n);
        proof {
            assert(cs[i as int] == children@[i as int]@);
            match naturals_from(cs, i as int + 1) {
                Ok(rest) => {
                    assert(out@ + rest =~= prev + (seq![n] + rest));
                },
                Err(e) => {},
            }
        }
        i += 1;
    }
    proof {
        lemma_view_nodes(children@);
        assert(naturals_from(cs, i as int) == Ok::<Seq<(usize, usize)>, LayoutError>(Seq::empty()));
        assert(out@ + Seq::<(usize, usize)>::empty() =~= out@);
    }
    Ok(out)
}


/// Exact sum of sizes.
pub open spec fn sum_nat(s: Seq<usize>) -> nat
    decreases s.len(),
{
    if s.len() == 0 { 0 } else { sum_nat(s.drop_last()) + s.last() as nat }
}

/// Saturating sum of sizes.
pub open spec fn sum_sizes(s: Seq<usize>) -> usize {
    if sum_nat(s) > usize::MAX { usize::MAX } else { sum_nat(s) as usize }
}

/// One round-robin pass of distribution from child `k`: each child takes up to its weight
/// of the remaining amount (when shrinking, never below zero cells); the pass stops once
/// the amount is used up. Returns the new sizes, the amount left, and whether any size
/// changed.
pub open spec fn pass_from(sizes: Seq<usize>, ws: Seq<usize>, k: int, amount: usize, grow: bool, changed: bool) -> (Seq<usize>, usize, bool)
    decreases sizes.len() - k,
{
    if k < 0 || k >= sizes.len() || k >= ws.len() {
        (sizes, amount, changed)
    } else {
        let step: usize = if grow {
            min_size(ws[k], amount)
        } else {
            min_size(min_size(ws[k], amount), sizes[k])
        };
        let sizes2 = sizes.update(k, if grow { (sizes[k] + step) as usize } else { (sizes[k] - step) as usize });
        let amount2 = (amount - step) as usize;
        let changed2 = changed || step > 0;
        if amount2 == 0 {
            (sizes2, 0usize, changed2)
        } else {
            pass_from(sizes2, ws, k + 1, amount2, grow, changed2)
        }
    }
}

/// Distributes `amount` cells over `sizes` by weight, pass after pass, until the amount is
/// used up or a pass changes nothing.
pub open spec fn distribute_spec(sizes: Seq<usize>, ws: Seq<usize>, amount: usize, grow: bool) -> Seq<usize>
    decreases amount,
{
    if amount == 0 {
        sizes
    } else {
        let (s2, a2, changed) = pass_from(sizes, ws, 0, amount, grow, false);
        if !changed || a2 >= amount {
            s2
        } else {
            distribute_spec(s2, ws, a2, grow)
        }
    }
}

proof fn lemma_sum_nat_update(s: Seq<usize>, k: int, v: usize)
    requires
        0 <= k < s.len(),
    ensures
        sum_nat(s.update(k, v)) + s[k] == sum_nat(s) + v,
    decreases s.len(),
{
    if k < s.len() - 1 {
        assert(s.update(k, v).drop_last() =~= s.drop_last().update(k, v));
        lemma_sum_nat_update(s.drop_last(), k, v);
    } else {
        assert(s.update(k, v).drop_last() =~= s.drop_last());
    }
}

proof fn lemma_sum_nat_ge(s: Seq<usize>, k: int)
    requires
        0 <= k < s.len(),
    ensures
        s[k] <= sum_nat(s),
    decreases s.len(),
{
    if k < s.len() - 1 {
        lemma_sum_nat_ge(s.drop_last(), k);
    }
}

proof fn lemma_pass(sizes: Seq<usize>, ws: Seq<usize>, k: int, amount: usize, grow: bool, changed: bool)
    requires
        0 <= k,
    ensures
        ({
            let (s2, a2, c2) = pass_from(sizes, ws, k, amount, grow, changed);
            &&& a2 <= amount
            &&& c2 ==> (changed || a2 < amount)
            &&& s2.len() == sizes.len()
            &&& (grow && sum_nat(sizes) + amount <= usize::MAX) ==> sum_nat(s2) + a2 == sum_nat(sizes) + amount
        }),
    decreases sizes.len() - k,
{
    if k < sizes.len() && k < ws.len() {
        let step: usize = if grow {
            min_size(ws[k], amount)
        } else {
            min_size(min_size(ws[k], amount), sizes[k])
        };
        let v: usize = if grow { (sizes[k] + step) as usize } else { (sizes[k] - step) as usize };
        let sizes2 = sizes.update(k, v);
        let amount2 = (amount - step) as usize;
        if grow && sum_nat(sizes) + amount <= usize::MAX {
            lemma_sum_nat_ge(sizes, k);
            lemma_sum_nat_update(sizes, k, v);
        }
        if amount2 != 0 {
            lemma_pass(sizes2, ws, k + 1, amount2, grow, changed || step > 0);
        }
    }
}

proof fn lemma_pass_keeps_changed(sizes: Seq<usize>, ws: Seq<usize>, k: int, amount: usize, grow: bool, changed: bool)
    requires
        0 <= k,
        changed,
    ensures
        pass_from(sizes, ws, k, amount, grow, changed).2,
    decreases sizes.len() - k,
{
    if k < sizes.len() && k < ws.len() {
        let step: usize = if grow {
            min_size(ws[k], amount)
        } else {
            min_size(min_size(ws[k], amount), sizes[k])
        };
        let v: usize = if grow { (sizes[k] + step) as usize } else { (sizes[k] - step) as usize };
        if amount - step != 0 {
            lemma_pass_keeps_changed(sizes.update(k, v), ws, k + 1, (amount - step) as usize, grow, true);
        }
    }
}

proof fn lemma_grow_pass_changes(sizes: Seq<usize>, ws: Seq<usize>, k: int, j: int, amount: usize, changed: bool)
    requires
        0 <= k <= j < sizes.len(),
        sizes.len() == ws.len(),
        ws[j] > 0,
        amount > 0,
    ensures
        pass_from(sizes, ws, k, amount, true, changed).2,
    decreases sizes.len() - k,
{
    let step = min_size(ws[k], amount);
    let v = (sizes[k] + step) as usize;
    if step > 0 {
        if amount - step != 0 {
            lemma_pass_keeps_changed(sizes.update(k, v), ws, k + 1, (amount - step) as usize, true, true);
        }
    } else {
        assert(ws[k] == 0);
        assert(k < j);
        lemma_grow_pass_changes(sizes.update(k, v), ws, k + 1, j, amount, changed);
    }
}

/// Law: growing hands out every free cell when some child has a positive grow weight (and
/// the sizes stay representable): the sizes then add up to their old total plus the free
/// cells.
pub proof fn lemma_grow_fills(sizes: Seq<usize>, ws: Seq<usize>, amount: usize, j: int)
    requires
        sizes.len() == ws.len(),
        0 <= j < ws.len(),
        ws[j] > 0,
        sum_nat(sizes) + amount <= usize::MAX,
    ensures
        sum_nat(distribute_spec(sizes, ws, amount, true)) == sum_nat(sizes) + amount,
    decreases amount,
{
    if amount > 0 {
        let (s2, a2, changed) = pass_from(sizes, ws, 0, amount, true, false);
        lemma_pass(sizes, ws, 0, amount, true, false);
        lemma_grow_pass_changes(sizes, ws, 0, j, amount, false);
        assert(changed && a2 < amount);
        assert(sum_nat(s2) + a2 == sum_nat(sizes) + amount);
        assert(distribute_spec(sizes, ws, amount, true) == distribute_spec(s2, ws, a2, true));
        if a2 > 0 {
            lemma_grow_fills(s2, ws, a2, j);
        }
    }
}

proof fn lemma_pass_keeps_weightless(sizes: Seq<usize>, ws: Seq<usize>, k: int, amount: usize, grow: bool, changed: bool, j: int)
    requires
        0 <= k,
        0 <= j < sizes.len(),
        j < ws.len(),
        ws[j] == 0,
    ensures
        pass_from(sizes, ws, k, amount, grow, changed).0.len() == sizes.len(),
        pass_from(sizes, ws, k, amount, grow, changed).0[j] == sizes[j],
    decreases sizes.len() - k,
{
    lemma_pass(sizes, ws, k, amount, grow, changed);
    if k < sizes.len() && k < ws.len() {
        let step: usize = if grow {
            min_size(ws[k], amount)
        } else {
            min_size(min_size(ws[k], amount), sizes[k])
        };
        let v: usize = if grow { (sizes[k] + step) as usize } else { (sizes[k] - step) as usize };
        if amount - step != 0 {
            lemma_pass_keeps_weightless(sizes.update(k, v), ws, k + 1, (amount - step) as usize, grow, changed || step > 0, j);
        }
    }
}

/// Law: a child with zero weight keeps its size: `grow=0` children never grow and
/// `shrink=0` children never shrink, however many cells are shared out or taken back.
pub proof fn lemma_weightless_keeps_size(sizes: Seq<usize>, ws: Seq<usize>, amount: usize, grow: bool, j: int)
    requires
        sizes.len() == ws.len(),
        0 <= j < ws.len(),
        ws[j] == 0,
    ensures
        distribute_spec(sizes, ws, amount, grow).len() == sizes.len(),
        distribute_spec(sizes, ws, amount, grow)[j] == sizes[j],
    decreases amount,
{
    if amount > 0 {
        let (s2, a2, changed) = pass_from(sizes, ws, 0, amount, grow, false);
        lemma_pass_keeps_weightless(sizes, ws, 0, amount, grow, false, j);
        lemma_pass(sizes, ws, 0, amount, grow, false);
        if changed && a2 < amount {
            lemma_weightless_keeps_size(s2, ws, a2, grow, j);
        }
    }
}

/// The cells held by the first `n` children whose weight is positive: what shrinking
/// can take back.
pub open spec fn weighted_cells(sizes: Seq<usize>, ws: Seq<usize>, n: int) -> nat
    decreases n,
{
    if n <= 0 {
        0
    } else {
        weighted_cells(sizes, ws, n - 1) + (if ws[n - 1] > 0 { sizes[n - 1] as nat } else { 0 })
    }
}

proof fn lemma_weighted_cells_update(s: Seq<usize>, ws: Seq<usize>, n: int, k: int, v: usize)
    requires
        0 <= k < s.len(),
        0 <= n <= s.len(),
    ensures
        k < n ==> weighted_cells(s.update(k, v), ws, n) + (if ws[k] > 0 { s[k] as nat } else { 0 })
            == weighted_cells(s, ws, n) + (if ws[k] > 0 { v as nat } else { 0 }),
        k >= n ==> weighted_cells(s.update(k, v), ws, n) == weighted_cells(s, ws, n),
    decreases n,
{
    if n > 0 {
        lemma_weighted_cells_update(s, ws, n - 1, k, v);
    }
}

proof fn lemma_weighted_cells_witness(s: Seq<usize>, ws: Seq<usize>, n: int)
    requires
        0 <= n <= s.len(),
        weighted_cells(s, ws, n) > 0,
    ensures
        exists|j: int| 0 <= j < n && ws[j] > 0 && s[j] > 0,
    decreases n,
{
    if n > 0 {
        if ws[n - 1] > 0 && s[n - 1] > 0 {
            assert(0 <= n - 1 < n && ws[n - 1] > 0 && s[n - 1] > 0);
        } else {
            lemma_weighted_cells_witness(s, ws, n - 1);
            let j = choose|j: int| 0 <= j < n - 1 && ws[j] > 0 && s[j] > 0;
            assert(0 <= j < n && ws[j] > 0 && s[j] > 0);
        }
    }
}

/// One pass, in detail: every size moves only in the direction of `grow`; shrinking
/// takes exactly the used amount from the total and from the weighted cells; the pass
/// reports a change exactly when it used some of the amount; without a positive weight
/// it changes nothing.
proof fn lemma_pass_moves(sizes: Seq<usize>, ws: Seq<usize>, k: int, amount: usize, grow: bool, changed: bool)
    requires
        0 <= k,
        sizes.len() == ws.len(),
        grow ==> sum_nat(sizes) + amount <= usize::MAX,
    ensures
        ({
            let (s2, a2, c2) = pass_from(sizes, ws, k, amount, grow, changed);
            &&& a2 <= amount
            &&& s2.len() == sizes.len()
            &&& c2 == (changed || a2 < amount)
            &&& forall|j: int| 0 <= j < sizes.len() ==> (grow ==> s2[j] >= sizes[j]) && (!grow ==> #[trigger] s2[j] <= sizes[j])
            &&& !grow ==> sum_nat(s2) + (amount - a2) == sum_nat(sizes)
            &&& !grow ==> weighted_cells(s2, ws, s2.len() as int) + (amount - a2) == weighted_cells(sizes, ws, sizes.len() as int)
            &&& (!grow && amount > 0 && (exists|j: int| k <= j < sizes.len() && ws[j] > 0 && sizes[j] > 0)) ==> a2 < amount
            &&& (forall|j: int| 0 <= j < ws.len() ==> ws[j] == 0) ==> s2 == sizes && a2 == amount
        }),
    decreases sizes.len() - k,
{
    lemma_pass(sizes, ws, k, amount, grow, changed);
    if k < sizes.len() && k < ws.len() {
        let step: usize = if grow {
            min_size(ws[k], amount)
        } else {
            min_size(min_size(ws[k], amount), sizes[k])
        };
        let v: usize = if grow { (sizes[k] + step) as usize } else { (sizes[k] - step) as usize };
        let sizes2 = sizes.update(k, v);
        let amount2 = (amount - step) as usize;
        if grow {
            lemma_sum_nat_ge(sizes, k);
            lemma_sum_nat_update(sizes, k, v);
        } else {
            lemma_sum_nat_update(sizes, k, v);
            lemma_weighted_cells_update(sizes, ws, sizes.len() as int, k, v);
            assert(ws[k] == 0 ==> step == 0);
        }
        if (forall|j: int| 0 <= j < ws.len() ==> ws[j] == 0) {
            assert(ws[k] == 0);
            assert(sizes2 =~= sizes);
        }
        if amount2 != 0 {
            lemma_pass_moves(sizes2, ws, k + 1, amount2, grow, changed || step > 0);
            let (s3, a3, c3) = pass_from(sizes2, ws, k + 1, amount2, grow, changed || step > 0);
            assert forall|j: int| 0 <= j < sizes.len() implies (grow ==> s3[j] >= sizes[j]) && (!grow ==> #[trigger] s3[j] <= sizes[j]) by {
                assert(grow ==> s3[j] >= sizes2[j]);
                assert(!grow ==> s3[j] <= sizes2[j]);
            }
            if !grow && amount > 0 && (exists|j: int| k <= j < sizes.len() && ws[j] > 0 && sizes[j] > 0) && step == 0 {
                let j = choose|j: int| k <= j < sizes.len() && ws[j] > 0 && sizes[j] > 0;
                assert(j != k);
                assert(k + 1 <= j < sizes2.len() && ws[j] > 0 && sizes2[j] > 0);
            }
        }
    }
}

/// Law: how distribution moves sizes. Growing only enlarges sizes and shrinking only
/// reduces them; shrinking takes back `min(amount, cells held by children with a positive
/// weight)` cells in total; with no positive weight nothing changes.
pub proof fn lemma_distribute_moves(sizes: Seq<usize>, ws: Seq<usize>, amount: usize, grow: bool)
    requires
        sizes.len() == ws.len(),
        grow ==> sum_nat(sizes) + amount <= usize::MAX,
    ensures
        ({
            let r = distribute_spec(sizes, ws, amount, grow);
            &&& r.len() == sizes.len()
            &&& forall|j: int| 0 <= j < sizes.len() ==> (grow ==> r[j] >= sizes[j]) && (!grow ==> #[trigger] r[j] <= sizes[j])
            &&& !grow ==> sum_nat(r) + min_nat(amount as nat, weighted_cells(sizes, ws, sizes.len() as int)) == sum_nat(sizes)
            &&& (forall|j: int| 0 <= j < ws.len() ==> ws[j] == 0) ==> r == sizes
        }),
    decreases amount,
{
    lemma_distribute_len(sizes, ws, amount, grow);
    if amount > 0 {
        let (s2, a2, changed) = pass_from(sizes, ws, 0, amount, grow, false);
        lemma_pass_moves(sizes, ws, 0, amount, grow, false);
        lemma_pass(sizes, ws, 0, amount, grow, false);
        if !grow && weighted_cells(sizes, ws, sizes.len() as int) > 0 {
            lemma_weighted_cells_witness(sizes, ws, sizes.len() as int);
        }
        if changed && a2 < amount {
            lemma_distribute_moves(s2, ws, a2, grow);
            let r = distribute_spec(s2, ws, a2, grow);
            assert(distribute_spec(sizes, ws, amount, grow) == r);
            assert forall|j: int| 0 <= j < sizes.len() implies (grow ==> r[j] >= sizes[j]) && (!grow ==> #[trigger] r[j] <= sizes[j]) by {
                assert(grow ==> r[j] >= s2[j] && s2[j] >= sizes[j]);
                assert(!grow ==> r[j] <= s2[j] && s2[j] <= sizes[j]);
            }
        }
    }
}

/// The smaller of two naturals.
pub open spec fn min_nat(a: nat, b: nat) -> nat {
    if a <= b { a } else { b }
}

/// Grows (`grow`) or shrinks sizes by `amount` cells as `distribute_spec` says.
pub fn distribute(sizes: &mut Vec<usize>, ws: &Vec<usize>, amount: usize, grow: bool)
    requires
        old(sizes)@.len() == ws@.len(),
        grow ==> sum_nat(old(sizes)@) + amount <= usize::MAX,
    ensures
        final(sizes)@ == distribute_spec(old(sizes)@, ws@, amount, grow),
{
    let ghost total = distribute_spec(sizes@, ws@, amount, grow);
    let mut amount = amount;
    while amount > 0
        invariant_except_break
            sizes@.len() == ws@.len(),
            grow ==> sum_nat(sizes@) + amount <= usize::MAX,
            total == distribute_spec(sizes@, ws@, amount, grow),
        ensures
            sizes@ == total,
        decreases amount,
    {
        let ghost start_sizes = sizes@;
        let ghost start_amount = amount;
        let mut changed = false;
        let mut k: usize = 0;
        proof {
            lemma_pass(sizes@, ws@, 0, amount, grow, false);
        }
        loop
            invariant_except_break
                k <= sizes@.len(),
                sizes@.len() == ws@.len(),
                amount > 0,
                grow ==> sum_nat(sizes@) + amount <= usize::MAX,
                pass_from(start_sizes, ws@, 0, start_amount, grow, false) == pass_from(sizes@, ws@, k as int, amount, grow, changed),
            ensures
                sizes@.len() == ws@.len(),
                pass_from(start_sizes, ws@, 0, start_amount, grow, false) == (sizes@, amount, changed),
            decreases sizes@.len() - k,
        {
            if k >= sizes.len() {
                break;
            }
            let w = ws[k];
            let size = sizes[k];
            let mut step = if w < amount { w } else { amount };
            if !grow && size < step {
                step = size;
            }
            proof {
                if grow {
                    lemma_sum_nat_ge(sizes@, k as int);
                }
                lemma_sum_nat_update(sizes@, k as int, if grow { (size + step) as usize } else { (size - step) as usize });
            }
            if grow {
                sizes.set(k, size + step);
            } else {
                sizes.set(k, size - step);
            }
            amount = amount - step;
            if step > 0 {
                changed = true;
            }
            k += 1;
            if amount == 0 {
                break;
            }
        }
        proof {
            lemma_pass(start_sizes, ws@, 0, start_amount, grow, false);
        }
        if !changed {
            break;
        }
        proof {
            assert(amount < start_amount);
        }
    }
}

/// Cursor start and extra gap between children that justification gives `count` children
/// sharing `free` cells.
pub open spec fn justify_spec(justify: Justify, free: usize, count: usize) -> (usize, usize) {
    match justify {
        Justify::Start => (0, 0),
        Justify::Center => (free / 2, 0),
        Justify::End => (free, 0),
        Justify::SpaceBetween => if count > 1 { (0, free / ((count - 1) as usize)) } else { (0, 0) },
        Justify::SpaceAround => if count > 0 { ((free / count) / 2, free / count) } else { (0, 0) },
    }
}

/// Where the first child starts and how many extra cells separate children.
pub fn justify(mode: Justify, free: usize, count: usize) -> (r: (usize, usize))
    ensures
        r == justify_spec(mode, free, count),
{
    match mode {
        Justify::Start => (0, 0),
        Justify::Center => (free / 2, 0),
        Justify::End => (free, 0),
        Justify::SpaceBetween => if count > 1 { (0, free / (count - 1)) } else { (0, 0) },
        Justify::SpaceAround => if count > 0 {
            let gap = free / count;
            (gap / 2, gap)
        } else {
            (0, 0)
        },
    }
}

/// Scroll offset that brings the end of the first focused child (from index `i`, which
/// starts at `start`) into a viewport of `viewport` cells; zero without a focused child.
pub open spec fn offset_from(children: Seq<NodeV>, sizes: Seq<usize>, gap: usize, viewport: usize, i: int, start: usize) -> usize
    decreases children.len() - i,
{
    if i < 0 || i >= children.len() || i >= sizes.len() {
        0
    } else if contains_focus_spec(children[i]) {
        sat_sub(sat_add(start, sizes[i]), viewport)
    } else {
        offset_from(children, sizes, gap, viewport, i + 1, sat_add(sat_add(start, sizes[i]), gap))
    }
}

/// Scroll offset that keeps the first focused child visible.
pub fn focused_offset(children: &Vec<Node>, sizes: &Vec<usize>, gap: usize, viewport: usize) -> (r: usize)
    ensures
        r == offset_from(view_nodes(children@), sizes@, gap, viewport, 0, 0),
{
    let ghost cs = view_nodes(children@);
    let mut start: usize = 0;
    let mut i: usize = 0;
    while i < children.len() && i < sizes.len()
        invariant
            i <= children@.len(),
            cs == view_nodes(children@),
            offset_from(cs, sizes@, gap, viewport, 0, 0) == offset_from(cs, sizes@, gap, viewport, i as int, start),
        decreases children@.len() - i,
    {
        proof {
            lemma_view_nodes(children@);
            assert(cs[i as int] == children@[i as int]@);
        }
        if children[i].contains_focus() {
            return start.saturating_add(sizes[i]).saturating_sub(viewport);
        }
        start = start.saturating_add(sizes[i]).saturating_add(gap);
        i += 1;
    }
    proof {
        lemma_view_nodes(children@);
    }
    0
}


/// Law: where each justification puts the free cells, with `lead` blank cells before the
/// first child, `gap` extra cells between neighbours, and the rest after the last child:
/// `start` leaves everything after the children; `center` splits the free cells so the
/// blanks before and after differ by at most one (the smaller part before); `end` leaves
/// everything before; `space-between` puts nothing before and shares the free cells
/// between neighbours as evenly as whole cells allow; `space-around` gives each child an
/// equal share with half of it before the first child. Only `space-between` and
/// `space-around` add cells between neighbours.
pub proof fn lemma_justify_places(mode: Justify, free: usize, count: usize)
    requires
        count > 0,
    ensures
        ({
            let (lead, gap) = justify_spec(mode, free, count);
            let trail = free - lead - gap * (count - 1);
            &&& trail >= 0
            &&& (mode is Start ==> lead == 0 && gap == 0)
            &&& (mode is Center ==> gap == 0 && lead <= trail <= lead + 1)
            &&& (mode is End ==> gap == 0 && trail == 0)
            &&& (mode is SpaceBetween ==> lead == 0 && (count > 1 ==> trail < count - 1) && (count == 1 ==> gap == 0))
            &&& (mode is SpaceAround ==> 2 * lead <= gap <= 2 * lead + 1 && trail >= lead && trail - lead < count + 1)
        }),
{
    lemma_justify_fits(mode, free, count);
    let (lead, gap) = justify_spec(mode, free, count);
    match mode {
        Justify::SpaceBetween => {
            if count > 1 {
                let c1 = (count - 1) as usize;
                assert(gap == free / c1);
                assert(free - (free / c1) * c1 < c1) by (nonlinear_arith)
                    requires c1 > 0;
                assert(gap * (count - 1) == (free / c1) * c1);
            }
        },
        Justify::SpaceAround => {
            let g = free / count;
            assert(gap == g && lead == g / 2);
            assert(free - g * count < count) by (nonlinear_arith)
                requires g == free / count, count > 0;
            assert(g * (count - 1) + g == g * count) by (nonlinear_arith);
            assert(gap * (count - 1) == g * (count - 1));
            assert(g - g / 2 >= g / 2);
            assert(free - g * count >= 0) by (nonlinear_arith)
                requires g == free / count, count > 0;
            assert(free - lead - gap * (count - 1) == (free - g * count) + (g - g / 2));
        },
        _ => {},
    }
}

/// Law: justification never places children past the free cells: the first child's
/// offset plus the extra spacing before each later child stays within `free`.
pub proof fn lemma_justify_fits(mode: Justify, free: usize, count: usize)
    requires
        count > 0,
    ensures
        ({
            let (offset, spacing) = justify_spec(mode, free, count);
            offset + spacing * (count - 1) <= free
        }),
{
    let (offset, spacing) = justify_spec(mode, free, count);
    match mode {
        Justify::SpaceBetween => {
            if count > 1 {
                let c1 = (count - 1) as usize;
                assert((free / c1) * c1 <= free) by (nonlinear_arith)
                    requires c1 > 0;
            }
        },
        Justify::SpaceAround => {
            let g = free / count;
            assert(g / 2 + g * (count - 1) <= free) by (nonlinear_arith)
                requires g == free / count, count > 0;
        },
        _ => {},
    }
}

/// Where the first focused child starts along the main axis (children placed one after
/// another with `gap` cells between), and its size; from child `i`, which starts at `start`.
pub open spec fn first_focus(children: Seq<NodeV>, sizes: Seq<usize>, gap: usize, i: int, start: nat) -> Option<(nat, nat)>
    decreases children.len() - i,
{
    if i < 0 || i >= children.len() || i >= sizes.len() {
        None
    } else if contains_focus_spec(children[i]) {
        Some((start, sizes[i] as nat))
    } else {
        first_focus(children, sizes, gap, i + 1, start + sizes[i] as nat + gap as nat)
    }
}

proof fn lemma_offset_follows_focus(children: Seq<NodeV>, sizes: Seq<usize>, gap: usize, viewport: usize, i: int, start: usize)
    requires
        0 <= i,
        first_focus(children, sizes, gap, i, start as nat) matches Some((s, z)) && s + z <= usize::MAX,
    ensures
        first_focus(children, sizes, gap, i, start as nat) matches Some((s, z))
            && offset_from(children, sizes, gap, viewport, i, start) == (if s + z > viewport { s + z - viewport } else { 0 }),
    decreases children.len() - i,
{
    if i < children.len() && i < sizes.len() && !contains_focus_spec(children[i]) {
        let next = start + sizes[i] + gap;
        lemma_first_focus_start(children, sizes, gap, i + 1, next as nat);
        assert(first_focus(children, sizes, gap, i + 1, next as nat) matches Some((s, z)) && s >= next);
        lemma_offset_follows_focus(children, sizes, gap, viewport, i + 1, next as usize);
    }
}

proof fn lemma_first_focus_start(children: Seq<NodeV>, sizes: Seq<usize>, gap: usize, i: int, start: nat)
    requires
        0 <= i,
    ensures
        first_focus(children, sizes, gap, i, start) matches Some((s, z)) ==> s >= start,
    decreases children.len() - i,
{
    if i < children.len() && i < sizes.len() && !contains_focus_spec(children[i]) {
        lemma_first_focus_start(children, sizes, gap, i + 1, start + sizes[i] as nat + gap as nat);
    }
}

/// Law: a scrolling container follows its focused child: the scroll offset brings the end
/// of the first focused child into the viewport, scrolls no further than needed, and keeps
/// the child's start visible too when the child fits (positions taken as exact cell counts).
pub proof fn lemma_scroll_shows_focus(children: Seq<NodeV>, sizes: Seq<usize>, gap: usize, viewport: usize)
    requires
        first_focus(children, sizes, gap, 0, 0) matches Some((s, z)) && s + z <= usize::MAX,
    ensures
        first_focus(children, sizes, gap, 0, 0) matches Some((s, z)) && {
            let offset = offset_from(children, sizes, gap, viewport, 0, 0);
            &&& offset <= s + z
            &&& s + z - offset <= viewport
            &&& (s + z <= viewport ==> offset == 0)
            &&& (z <= viewport ==> offset <= s)
        },
{
    lemma_offset_follows_focus(children, sizes, gap, viewport, 0, 0);
}

/// Main-axis component of a size.
pub open spec fn main_of(dir: Direction, size: (usize, usize)) -> usize {
    match dir {
        Direction::Row => size.0,
        Direction::Column => size.1,
    }
}

/// Cross-axis component of a size.
pub open spec fn cross_of(dir: Direction, size: (usize, usize)) -> usize {
    match dir {
        Direction::Row => size.1,
        Direction::Column => size.0,
    }
}

/// Initial main-axis size of a child: a `Flex` child's cell basis when it sets one, else
/// its natural size along the parent's axis.
pub open spec fn basis_size(dir: Direction, child: NodeV, natural: (usize, usize)) -> usize {
    match child {
        NodeV::Flex { spec, .. } => match spec.basis {
            Basis::Cells(v) => v,
            Basis::Auto => main_of(dir, natural),
        },
        _ => main_of(dir, natural),
    }
}

/// Initial main-axis sizes of all children.
pub open spec fn basis_sizes(dir: Direction, cs: Seq<NodeV>, nats: Seq<(usize, usize)>) -> Seq<usize> {
    Seq::new(cs.len(), |i: int| basis_size(dir, cs[i], nats[i]))
}

/// Share weight of a child: a `Flex` child's grow or shrink factor; other children do not
/// grow and shrink with weight one.
pub open spec fn weight_of(child: NodeV, grow: bool) -> usize {
    match child {
        NodeV::Flex { spec, .. } => if grow { spec.grow } else { spec.shrink },
        _ => if grow { 0 } else { 1 },
    }
}

/// Share weights of all children.
pub open spec fn weights_of(cs: Seq<NodeV>, grow: bool) -> Seq<usize> {
    Seq::new(cs.len(), |i: int| weight_of(cs[i], grow))
}

/// Main-axis sizes after growing into free cells or (with normal overflow) shrinking to fit.
pub open spec fn flex_sizes(spec: FlexSpec, cs: Seq<NodeV>, nats: Seq<(usize, usize)>, main_available: usize) -> Seq<usize> {
    let sizes0 = basis_sizes(spec.direction, cs, nats);
    let child_available = sat_sub(main_available, gaps_for(spec.gap, cs.len()));
    let total = sum_sizes(sizes0);
    if total < child_available {
        distribute_spec(sizes0, weights_of(cs, true), (child_available - total) as usize, true)
    } else if total > child_available && spec.overflow == Overflow::Normal {
        distribute_spec(sizes0, weights_of(cs, false), (total - child_available) as usize, false)
    } else {
        sizes0
    }
}

/// Cross-axis size a child gets.
pub open spec fn child_cross_size(spec: FlexSpec, natural: (usize, usize), cross_available: usize) -> usize {
    if spec.align == Align::Stretch {
        cross_available
    } else {
        min_size(cross_of(spec.direction, natural), cross_available)
    }
}

/// Cross-axis position of a child.
pub open spec fn cross_position(align: Align, cross_available: usize, child_cross: usize) -> usize {
    match align {
        Align::Start | Align::Stretch => 0,
        Align::Center => (sat_sub(cross_available, child_cross) / 2) as usize,
        Align::End => sat_sub(cross_available, child_cross),
    }
}

/// Main-axis extent available to a container of `width` x `height` cells.
pub open spec fn main_extent(dir: Direction, width: usize, height: usize) -> usize {
    match dir {
        Direction::Row => width,
        Direction::Column => height,
    }
}

/// Cross-axis extent available to a container of `width` x `height` cells.
pub open spec fn cross_extent(dir: Direction, width: usize, height: usize) -> usize {
    match dir {
        Direction::Row => height,
        Direction::Column => width,
    }
}

/// Copies a laid-out child into its container: the part from the scroll offset on that
/// falls inside the container's main extent.
pub open spec fn place_child(spec: FlexSpec, canvas: Seq<Seq<CellV>>, child: Seq<Seq<CellV>>, cursor: usize, main: usize, offset: usize, main_available: usize, cross: usize, child_w: usize, child_h: usize) -> Seq<Seq<CellV>> {
    let visible_cursor = sat_sub(cursor, offset);
    if sat_add(cursor, main) > offset && visible_cursor < main_available {
        let skip = sat_sub(offset, cursor);
        let span = min_size(sat_sub(main, skip), (main_available - visible_cursor) as usize);
        match spec.direction {
            Direction::Row => blit_spec(canvas, child, visible_cursor as int, cross as int, skip as int, 0, span as int, child_h as int),
            Direction::Column => blit_spec(canvas, child, cross as int, visible_cursor as int, 0, skip as int, child_w as int, span as int),
        }
    } else {
        canvas
    }
}

/// Lays out a tree into a `width` x `height` grid.
pub open spec fn layout_spec(n: NodeV, width: usize, height: usize) -> Result<Seq<Seq<CellV>>, LayoutError>
    decreases n, 3int, 0int,
{
    match n {
        NodeV::Text(t) => text_canvas_spec(t, width as nat, height as nat, None),
        NodeV::Button { action, label, .. } => text_canvas_spec(label, width as nat, height as nat, Some(action)),
        NodeV::Flex { spec, children } => layout_flex_spec(spec, children, width, height),
        NodeV::OnOverflow { .. } => Err(LayoutError::OnOverflowOutsideFlex),
    }
}

/// Index of the first `OnOverflow` child at or after `i`.
pub open spec fn first_overflow(cs: Seq<NodeV>, i: int) -> Option<int>
    decreases cs.len() - i,
{
    if i < 0 || i >= cs.len() {
        None
    } else if cs[i] is OnOverflow {
        Some(i)
    } else {
        first_overflow(cs, i + 1)
    }
}

/// Children of an `OnOverflow` node.
pub open spec fn overflow_children(n: NodeV) -> Seq<NodeV> {
    match n {
        NodeV::OnOverflow { children } => children,
        _ => Seq::empty(),
    }
}

pub proof fn lemma_first_overflow(cs: Seq<NodeV>, i: int)
    requires
        0 <= i,
    ensures
        first_overflow(cs, i) matches Some(k) ==> i <= k < cs.len() && cs[k] is OnOverflow,
    decreases cs.len() - i,
{
    if i < cs.len() && !(cs[i] is OnOverflow) {
        lemma_first_overflow(cs, i + 1);
    }
}

/// Lays out a `Flex` container. An `OnOverflow` child (at most one, and only under
/// `overflow="scroll"`) is hidden while the other children fit, and otherwise shown at the
/// end of the main axis, after a gap, beside the clipped content.
pub open spec fn layout_flex_spec(spec: FlexSpec, children: Seq<NodeV>, width: usize, height: usize) -> Result<Seq<Seq<CellV>>, LayoutError>
    decreases children, 2int, 0int,
{
    match first_overflow(children, 0) {
        None => flex_children_spec(spec, children, width, height),
        Some(idx) => if idx < 0 || idx >= children.len() {
            flex_children_spec(spec, children, width, height)
        } else if first_overflow(children, idx + 1) is Some {
            Err(LayoutError::MultipleOnOverflow)
        } else if spec.overflow != Overflow::Scroll {
            Err(LayoutError::OnOverflowWithoutScroll)
        } else {
            let normal = children.remove(idx);
            let indicator = overflow_children(children[idx]);
            let dir = spec.direction;
            let main_available = main_extent(dir, width, height);
            proof {
                assert forall|i2: int| 0 <= i2 < normal.len() && #[trigger] vstd::pervasive::trigger(normal[i2]) implies exists|i1: int| 0 <= i1 < children.len() && children[i1] == normal[i2] by {
                    if i2 < idx {
                        assert(children[i2] == normal[i2]);
                    } else {
                        assert(children[i2 + 1] == normal[i2]);
                    }
                }
                vstd::seq::axiom_seq_len_decreases(children, normal);
                lemma_first_overflow(children, 0);
                assert(decreases_to!(children => children[idx]));
                assert(decreases_to!(children[idx] => children[idx]->OnOverflow_children));
                assert(indicator == children[idx]->OnOverflow_children);
                assert(decreases_to!(children => indicator));
            }
            match naturals_spec(normal) {
                Err(e) => Err(e),
                Ok(nats) => {
                    let natural_main = sat_add(sum_sizes(basis_sizes(dir, normal, nats)), gaps_for(spec.gap, normal.len()));
                    if natural_main <= main_available {
                        flex_children_spec(spec, normal, width, height)
                    } else {
                        match naturals_spec(indicator) {
                            Err(e) => Err(e),
                            Ok(inats) => {
                                let indicator_natural = (sum_w(inats), if inats.len() == 0 { 1usize } else { max_h(inats) });
                                let indicator_main = min_size(main_of(dir, indicator_natural), main_available);
                                let indicator_gap = min_size(spec.gap, sat_sub(main_available, indicator_main));
                                let content_main = (main_available - (indicator_main + indicator_gap)) as usize;
                                let content_w = if dir == Direction::Row { content_main } else { width };
                                let content_h = if dir == Direction::Row { height } else { content_main };
                                match flex_children_spec(spec, normal, content_w, content_h) {
                                    Err(e) => Err(e),
                                    Ok(content) => {
                                        let ind_w = if dir == Direction::Row { indicator_main } else { width };
                                        let ind_h = if dir == Direction::Row { height } else { indicator_main };
                                        match flex_children_spec(default_flex_spec(), indicator, ind_w, ind_h) {
                                            Err(e) => Err(e),
                                            Ok(ind) => {
                                                let c1 = blit_spec(blank_grid(width as nat, height as nat), content, 0, 0, 0, 0, grid_width(content) as int, content.len() as int);
                                                let at = content_main + indicator_gap;
                                                if dir == Direction::Row {
                                                    Ok(blit_spec(c1, ind, at, 0, 0, 0, ind_w as int, ind_h as int))
                                                } else {
                                                    Ok(blit_spec(c1, ind, 0, at, 0, 0, ind_w as int, ind_h as int))
                                                }
                                            },
                                        }
                                    },
                                }
                            },
                        }
                    }
                },
            }
        },
    }
}

/// Lays out the children of a `Flex` container: sizes from natural size and basis, grown
/// or shrunk by weight, scrolled to the focused child when overflow is `scroll`, justified
/// and aligned, each child painted into its slot.
pub open spec fn flex_children_spec(spec: FlexSpec, cs: Seq<NodeV>, width: usize, height: usize) -> Result<Seq<Seq<CellV>>, LayoutError>
    decreases cs, 1int, 0int,
{
    match naturals_spec(cs) {
        Err(e) => Err(e),
        Ok(nats) => {
            let main_available = main_extent(spec.direction, width, height);
            let sizes = flex_sizes(spec, cs, nats, main_available);
            let content_size = sat_add(sum_sizes(sizes), gaps_for(spec.gap, cs.len()));
            let offset = if spec.overflow == Overflow::Scroll && content_size > main_available {
                offset_from(cs, sizes, spec.gap, main_available, 0, 0)
            } else {
                0
            };
            let free = sat_sub(main_available, content_size);
            let (cursor, extra) = justify_spec(spec.justify, free, cs.len() as usize);
            place_from(spec, cs, nats, sizes, width, height, offset, extra, 0, cursor, blank_grid(width as nat, height as nat))
        },
    }
}

/// Lays out and places children `i..` from main-axis position `cursor` onto `canvas`.
pub open spec fn place_from(spec: FlexSpec, cs: Seq<NodeV>, nats: Seq<(usize, usize)>, sizes: Seq<usize>, width: usize, height: usize, offset: usize, extra: usize, i: int, cursor: usize, canvas: Seq<Seq<CellV>>) -> Result<Seq<Seq<CellV>>, LayoutError>
    decreases cs, 0int, cs.len() - i,
{
    if i < 0 || i >= cs.len() || i >= nats.len() || i >= sizes.len() {
        Ok(canvas)
    } else {
        let dir = spec.direction;
        let main_available = main_extent(dir, width, height);
        let cross_available = cross_extent(dir, width, height);
        let main = sizes[i];
        let child_cross = child_cross_size(spec, nats[i], cross_available);
        let cross = cross_position(spec.align, cross_available, child_cross);
        let child_w = if dir == Direction::Row { main } else { child_cross };
        let child_h = if dir == Direction::Row { child_cross } else { main };
        match layout_spec(cs[i], child_w, child_h) {
            Err(e) => Err(e),
            Ok(child) => {
                let next = place_child(spec, canvas, child, cursor, main, offset, main_available, cross, child_w, child_h);
                place_from(spec, cs, nats, sizes, width, height, offset, extra, i + 1, sat_add(sat_add(sat_add(cursor, main), spec.gap), extra), next)
            },
        }
    }
}


fn sum_usizes(v: &Vec<usize>) -> (r: usize)
    ensures
        r == sum_sizes(v@),
{
    let mut acc: usize = 0;
    let mut i: usize = 0;
    while i < v.len()
        invariant
            i <= v@.len(),
            acc == sum_sizes(v@.take(i as int)),
        decreases v@.len() - i,
    {
        proof {
            assert(v@.take(i as int + 1).drop_last() =~= v@.take(i as int));
        }
        acc = acc.saturating_add(v[i]);
        i += 1;
    }
    proof {
        assert(v@.take(v@.len() as int) =~= v@);
    }
    acc
}

fn basis_vec(dir: Direction, children: &Vec<Node>, nats: &Vec<(usize, usize)>) -> (r: Vec<usize>)
    requires
        nats@.len() == children@.len(),
    ensures
        r@ == basis_sizes(dir, view_nodes(children@), nats@),
{
    let ghost cs = view_nodes(children@);
    let mut out: Vec<usize> = Vec::new();
    let mut i: usize = 0;
    while i < children.len()
        invariant
            i <= children@.len(),
            nats@.len() == children@.len(),
            cs == view_nodes(children@),
            out@.len() == i,
            forall|k: int| 0 <= k < i ==> #[trigger] out@[k] == basis_size(dir, cs[k], nats@[k]),
        decreases children@.len() - i,
    {
        proof {
            lemma_view_nodes(children@);
        }
        let (w, h) = nats[i];
        let natural_main = match dir {
            Direction::Row => w,
            Direction::Column => h,
        };
        let size = match &children[i] {
            Node::Flex { spec, .. } => match spec.basis {
                Basis::Cells(v) => v,
                Basis::Auto => natural_main,
            },
            _ => natural_main,
        };
        out.push(size);
        i += 1;
    }
    proof {
        lemma_view_nodes(children@);
        assert(out@ =~= basis_sizes(dir, cs, nats@));
    }
    out
}

fn weight_vec(children: &Vec<Node>, grow: bool) -> (r: Vec<usize>)
    ensures
        r@ == weights_of(view_nodes(children@), grow),
{
    let ghost cs = view_nodes(children@);
    let mut out: Vec<usize> = Vec::new();
    let mut i: usize = 0;
    while i < children.len()
        invariant
            i <= children@.len(),
            cs == view_nodes(children@),
            out@.len() == i,
            forall|k: int| 0 <= k < i ==> #[trigger] out@[k] == weight_of(cs[k], grow),
        decreases children@.len() - i,
    {
        proof {
            lemma_view_nodes(children@);
        }
        let w = match &children[i] {
            Node::Flex { spec, .. } => if grow { spec.grow } else { spec.shrink },
            _ => if grow { 0 } else { 1 },
        };
        out.push(w);
        i += 1;
    }
    proof {
        lemma_view_nodes(children@);
        assert(out@ =~= weights_of(cs, grow));
    }
    out
}

/// Lays out a layout tree into a `width` x `height` canvas.
pub fn layout(node: &Node, width: usize, height: usize) -> (r: Result<Canvas, LayoutError>)
    ensures
        match r {
            Ok(c) => layout_spec(node@, width, height) == Ok::<Seq<Seq<CellV>>, LayoutError>(c@),
            Err(e) => layout_spec(node@, width, height) == Err::<Seq<Seq<CellV>>, LayoutError>(e),
        },
    decreases node@, 3int, 0int,
{
    match node {
        Node::Text(t) => text_canvas(t.as_slice(), width, height, None),
        Node::Button { action, label, .. } => text_canvas(label.as_slice(), width, height, Some(*action)),
        Node::Flex { spec, children } => {
            proof {
                assert(node@ == NodeV::Flex { spec: *spec, children: view_nodes(children@) });
                assert(decreases_to!(node@ => view_nodes(children@)));
            }
            layout_flex(spec, children, width, height)
        },
        Node::OnOverflow { .. } => Err(LayoutError::OnOverflowOutsideFlex),
    }
}

#[verifier::rlimit(60)]
fn layout_flex(spec: &FlexSpec, children: &Vec<Node>, width: usize, height: usize) -> (r: Result<Canvas, LayoutError>)
    ensures
        match r {
            Ok(c) => layout_flex_spec(*spec, view_nodes(children@), width, height) == Ok::<Seq<Seq<CellV>>, LayoutError>(c@),
            Err(e) => layout_flex_spec(*spec, view_nodes(children@), width, height) == Err::<Seq<Seq<CellV>>, LayoutError>(e),
        },
    decreases view_nodes(children@), 2int, 0int,
{
    let ghost cs = view_nodes(children@);
    proof {
        lemma_view_nodes(children@);
        lemma_first_overflow(cs, 0);
    }
    let mut found: Option<usize> = None;
    let mut i: usize = 0;
    while i < children.len() && found.is_none()
        invariant
            i <= children@.len(),
            cs == view_nodes(children@),
            cs.len() == children@.len(),
            forall|k: int| 0 <= k < cs.len() ==> #[trigger] cs[k] == children@[k]@,
            match found {
                None => first_overflow(cs, 0) == first_overflow(cs, i as int),
                Some(k) => first_overflow(cs, 0) == Some(k as int) && k < children@.len(),
            },
        decreases children@.len() - i,
    {
        if let Node::OnOverflow { .. } = &children[i] {
            proof {
                assert(cs[i as int] is OnOverflow);
                assert(first_overflow(cs, i as int) == Some(i as int));
            }
            found = Some(i);
        } else {
            proof {
                assert(!(cs[i as int] is OnOverflow));
                assert(first_overflow(cs, i as int) == first_overflow(cs, i as int + 1));
            }
        }
        i += 1;
    }
    let idx = match found {
        None => {
            proof {
                assert(first_overflow(cs, i as int) is None);
            }
            return layout_flex_children(spec, children, width, height);
        },
        Some(idx) => idx,
    };
    let mut j = idx + 1;
    while j < children.len()
        invariant
            idx < j <= children@.len(),
            cs == view_nodes(children@),
            cs.len() == children@.len(),
            forall|k: int| 0 <= k < cs.len() ==> #[trigger] cs[k] == children@[k]@,
            first_overflow(cs, idx as int + 1) == first_overflow(cs, j as int),
            first_overflow(cs, 0) == Some(idx as int),
        decreases children@.len() - j,
    {
        if let Node::OnOverflow { .. } = &children[j] {
            proof {
                assert(cs[j as int] is OnOverflow);
                assert(first_overflow(cs, j as int) == Some(j as int));
            }
            return Err(LayoutError::MultipleOnOverflow);
        }
        proof {
            assert(!(cs[j as int] is OnOverflow));
            assert(first_overflow(cs, j as int) == first_overflow(cs, j as int + 1));
        }
        j += 1;
    }
    proof {
        assert(first_overflow(cs, j as int) is None);
    }
    if spec.overflow != Overflow::Scroll {
        return Err(LayoutError::OnOverflowWithoutScroll);
    }
    let mut normal: Vec<Node> = Vec::new();
    let mut k: usize = 0;
    while k < children.len()
        invariant
            k <= children@.len(),
            idx < children@.len(),
            normal@.len() == (if k <= idx { k as int } else { k - 1 }),
            forall|m: int| 0 <= m < normal@.len() ==> #[trigger] normal@[m]@ == (if m < idx { children@[m]@ } else { children@[m + 1]@ }),
        decreases children@.len() - k,
    {
        if k != idx {
            normal.push(children[k].deep_clone());
        }
        k += 1;
    }
    let ghost nv = view_nodes(normal@);
    proof {
        lemma_view_nodes(normal@);
        assert(nv =~= cs.remove(idx as int));
        assert forall|i2: int| 0 <= i2 < nv.len() && #[trigger] vstd::pervasive::trigger(nv[i2]) implies exists|i1: int| 0 <= i1 < cs.len() && cs[i1] == nv[i2] by {
            if i2 < idx {
                assert(cs[i2] == nv[i2]);
            } else {
                assert(cs[i2 + 1] == nv[i2]);
            }
        }
        vstd::seq::axiom_seq_len_decreases(cs, nv);
    }
    let indicator: &Vec<Node> = match &children[idx] {
        Node::OnOverflow { children: ic } => ic,
        _ => {
            proof {
                assert(false);
            }
            return Err(LayoutError::OnOverflowOutsideFlex);
        },
    };
    proof {
        assert(cs[idx as int] == children@[idx as int]@);
        assert(overflow_children(cs[idx as int]) == view_nodes(indicator@));
        assert(decreases_to!(cs => cs[idx as int]));
        assert(decreases_to!(cs[idx as int] => cs[idx as int]->OnOverflow_children));
    }
    let dir = spec.direction;
    let main_available = match dir {
        Direction::Row => width,
        Direction::Column => height,
    };
    let nats = match naturals(&normal) {
        Ok(n) => n,
        Err(e) => return Err(e),
    };
    proof {
        lemma_naturals_len(nv, 0);
    }
    let bases = basis_vec(dir, &normal, &nats);
    let natural_main = sum_usizes(&bases).saturating_add(saturating_mul(spec.gap, normal.len().saturating_sub(1)));
    if natural_main <= main_available {
        return layout_flex_children(spec, &normal, width, height);
    }
    let inats = match naturals(indicator) {
        Ok(n) => n,
        Err(e) => return Err(e),
    };
    let (isw, ish, imw, imh) = sum_pairs(&inats);
    let indicator_natural = (isw, if inats.len() == 0 { 1usize } else { imh });
    let ind_axis = match dir {
        Direction::Row => indicator_natural.0,
        Direction::Column => indicator_natural.1,
    };
    let indicator_main = if ind_axis <= main_available { ind_axis } else { main_available };
    let room = main_available - indicator_main;
    let indicator_gap = if spec.gap <= room { spec.gap } else { room };
    let content_main = main_available - (indicator_main + indicator_gap);
    let content_w = if dir == Direction::Row { content_main } else { width };
    let content_h = if dir == Direction::Row { height } else { content_main };
    let content = match layout_flex_children(spec, &normal, content_w, content_h) {
        Ok(c) => c,
        Err(e) => return Err(e),
    };
    let ind_w = if dir == Direction::Row { indicator_main } else { width };
    let ind_h = if dir == Direction::Row { height } else { indicator_main };
    let default_spec = FlexSpec::new();
    let ind = match layout_flex_children(&default_spec, indicator, ind_w, ind_h) {
        Ok(c) => c,
        Err(e) => return Err(e),
    };
    let mut canvas = Canvas::new(width, height);
    let cw = content.width();
    let chh = content.height();
    canvas.blit_from(&content, 0, 0, 0, 0, cw, chh);
    let at = content_main + indicator_gap;
    if dir == Direction::Row {
        canvas.blit_from(&ind, at, 0, 0, 0, ind_w, ind_h);
    } else {
        canvas.blit_from(&ind, 0, at, 0, 0, ind_w, ind_h);
    }
    Ok(canvas)
}

proof fn lemma_distribute_len(sizes: Seq<usize>, ws: Seq<usize>, amount: usize, grow: bool)
    ensures
        distribute_spec(sizes, ws, amount, grow).len() == sizes.len(),
    decreases amount,
{
    if amount > 0 {
        lemma_pass(sizes, ws, 0, amount, grow, false);
        let (s2, a2, changed) = pass_from(sizes, ws, 0, amount, grow, false);
        if changed && a2 < amount {
            lemma_distribute_len(s2, ws, a2, grow);
        }
    }
}

/// Exact sums never fall below the saturated sum.
proof fn lemma_sum_sizes(s: Seq<usize>)
    ensures
        sum_sizes(s) < usize::MAX ==> sum_nat(s) == sum_sizes(s),
{
}

fn flex_sizes_exec(spec: &FlexSpec, children: &Vec<Node>, nats: &Vec<(usize, usize)>, main_available: usize) -> (r: Vec<usize>)
    requires
        nats@.len() == children@.len(),
    ensures
        r@ == flex_sizes(*spec, view_nodes(children@), nats@, main_available),
        r@.len() == children@.len(),
{
    let ghost cs = view_nodes(children@);
    proof {
        lemma_view_nodes(children@);
    }
    let mut sizes = basis_vec(spec.direction, children, nats);
    let fixed_gaps = saturating_mul(spec.gap, children.len().saturating_sub(1));
    let child_available = main_available.saturating_sub(fixed_gaps);
    let total = sum_usizes(&sizes);
    let ghost sizes0 = sizes@;
    if total < child_available {
        let ws = weight_vec(children, true);
        proof {
            lemma_sum_sizes(sizes0);
        }
        distribute(&mut sizes, &ws, child_available - total, true);
        proof {
            lemma_distribute_len(sizes0, ws@, (child_available - total) as usize, true);
        }
    } else if total > child_available && spec.overflow == Overflow::Normal {
        let ws = weight_vec(children, false);
        distribute(&mut sizes, &ws, total - child_available, false);
        proof {
            lemma_distribute_len(sizes0, ws@, (total - child_available) as usize, false);
        }
    }
    sizes
}

fn place_child_exec(spec: &FlexSpec, canvas: &mut Canvas, child: &Canvas, cursor: usize, main: usize, offset: usize, main_available: usize, cross: usize, child_w: usize, child_h: usize)
    ensures
        final(canvas)@ == place_child(*spec, old(canvas)@, child@, cursor, main, offset, main_available, cross, child_w, child_h),
{
    let visible_cursor = cursor.saturating_sub(offset);
    if cursor.saturating_add(main) > offset && visible_cursor < main_available {
        let skip = offset.saturating_sub(cursor);
        let rest = main.saturating_sub(skip);
        let span = if rest <= main_available - visible_cursor { rest } else { main_available - visible_cursor };
        if spec.direction == Direction::Row {
            canvas.blit_from(child, visible_cursor, cross, skip, 0, span, child_h);
        } else {
            canvas.blit_from(child, cross, visible_cursor, 0, skip, child_w, span);
        }
    }
}

fn child_geometry(spec: &FlexSpec, natural: (usize, usize), main: usize, cross_available: usize) -> (r: (usize, usize, usize))
    ensures
        ({
            let child_cross = child_cross_size(*spec, natural, cross_available);
            &&& r.2 == cross_position(spec.align, cross_available, child_cross)
            &&& r.0 == (if spec.direction == Direction::Row { main } else { child_cross })
            &&& r.1 == (if spec.direction == Direction::Row { child_cross } else { main })
        }),
{
    let natural_cross = match spec.direction {
        Direction::Row => natural.1,
        Direction::Column => natural.0,
    };
    let child_cross = if spec.align == Align::Stretch {
        cross_available
    } else if natural_cross <= cross_available {
        natural_cross
    } else {
        cross_available
    };
    let cross = match spec.align {
        Align::Start | Align::Stretch => 0,
        Align::Center => cross_available.saturating_sub(child_cross) / 2,
        Align::End => cross_available.saturating_sub(child_cross),
    };
    let child_w = if spec.direction == Direction::Row { main } else { child_cross };
    let child_h = if spec.direction == Direction::Row { child_cross } else { main };
    (child_w, child_h, cross)
}

fn layout_flex_children(spec: &FlexSpec, children: &Vec<Node>, width: usize, height: usize) -> (r: Result<Canvas, LayoutError>)
    ensures
        match r {
            Ok(c) => flex_children_spec(*spec, view_nodes(children@), width, height) == Ok::<Seq<Seq<CellV>>, LayoutError>(c@),
            Err(e) => flex_children_spec(*spec, view_nodes(children@), width, height) == Err::<Seq<Seq<CellV>>, LayoutError>(e),
        },
    decreases view_nodes(children@), 1int, 0int,
{
    let ghost cs = view_nodes(children@);
    proof {
        lemma_view_nodes(children@);
    }
    let nats = match naturals(children) {
        Ok(n) => n,
        Err(e) => return Err(e),
    };
    proof {
        lemma_naturals_len(cs, 0);
    }
    let main_available = match spec.direction {
        Direction::Row => width,
        Direction::Column => height,
    };
    let cross_available = match spec.direction {
        Direction::Row => height,
        Direction::Column => width,
    };
    let sizes = flex_sizes_exec(spec, children, &nats, main_available);
    let fixed_gaps = saturating_mul(spec.gap, children.len().saturating_sub(1));
    let content_size = sum_usizes(&sizes).saturating_add(fixed_gaps);
    let offset = if spec.overflow == Overflow::Scroll && content_size > main_available {
        focused_offset(children, &sizes, spec.gap, main_available)
    } else {
        0
    };
    let free = main_available.saturating_sub(content_size);
    let (start, extra) = justify(spec.justify, free, children.len());
    let mut canvas = Canvas::new(width, height);
    let ghost total_place = place_from(*spec, cs, nats@, sizes@, width, height, offset, extra, 0, start, canvas@);
    proof {
        assert(flex_children_spec(*spec, cs, width, height) == total_place);
    }
    let mut cursor = start;
    let mut i: usize = 0;
    while i < children.len()
        invariant
            i <= children@.len(),
            cs == view_nodes(children@),
            cs.len() == children@.len(),
            nats@.len() == children@.len(),
            sizes@.len() == children@.len(),
            forall|k: int| 0 <= k < cs.len() ==> #[trigger] cs[k] == children@[k]@,
            main_available == main_extent(spec.direction, width, height),
            cross_available == cross_extent(spec.direction, width, height),
            place_from(*spec, cs, nats@, sizes@, width, height, offset, extra, i as int, cursor, canvas@) == total_place,
            flex_children_spec(*spec, cs, width, height) == total_place,
        decreases children@.len() - i,
    {
        let main = sizes[i];
        let (child_w, child_h, cross) = child_geometry(spec, nats[i], main, cross_available);
        proof {
            assert(decreases_to!(cs => cs[i as int]));
        }
        let child = match layout(&children[i], child_w, child_h) {
            Ok(c) => c,
            Err(e) => {
                proof {
                    assert(layout_spec(cs[i as int], child_w, child_h) == Err::<Seq<Seq<CellV>>, LayoutError>(e));
                    assert(place_from(*spec, cs, nats@, sizes@, width, height, offset, extra, i as int, cursor, canvas@) == Err::<Seq<Seq<CellV>>, LayoutError>(e));
                }
                return Err(e);
            },
        };
        place_child_exec(spec, &mut canvas, &child, cursor, main, offset, main_available, cross, child_w, child_h);
        cursor = cursor.saturating_add(main).saturating_add(spec.gap).saturating_add(extra);
        i += 1;
    }
    Ok(canvas)
}


proof fn lemma_blit_size(target: Seq<Seq<CellV>>, src: Seq<Seq<CellV>>, x: int, y: int, sx: int, sy: int, cw: int, ch: int, width: nat, height: nat)
    requires
        grid_has_size(target, width, height),
    ensures
        grid_has_size(blit_spec(target, src, x, y, sx, sy, cw, ch), width, height),
{
    let g = blit_spec(target, src, x, y, sx, sy, cw, ch);
    assert forall|r: int| 0 <= r < g.len() implies #[trigger] g[r].len() == width by {
        assert(target[r].len() == width);
    }
}

proof fn lemma_blank_grid_size(width: nat, height: nat)
    ensures
        grid_has_size(blank_grid(width, height), width, height),
{
}

proof fn lemma_place_size(spec: FlexSpec, cs: Seq<NodeV>, nats: Seq<(usize, usize)>, sizes: Seq<usize>, width: usize, height: usize, offset: usize, extra: usize, i: int, cursor: usize, canvas: Seq<Seq<CellV>>)
    requires
        grid_has_size(canvas, width as nat, height as nat),
    ensures
        place_from(spec, cs, nats, sizes, width, height, offset, extra, i, cursor, canvas) matches Ok(g) ==> grid_has_size(g, width as nat, height as nat),
    decreases cs.len() - i,
{
    if 0 <= i < cs.len() && i < nats.len() && i < sizes.len() {
        let dir = spec.direction;
        let main_available = main_extent(dir, width, height);
        let cross_available = cross_extent(dir, width, height);
        let main = sizes[i];
        let child_cross = child_cross_size(spec, nats[i], cross_available);
        let cross = cross_position(spec.align, cross_available, child_cross);
        let child_w = if dir == Direction::Row { main } else { child_cross };
        let child_h = if dir == Direction::Row { child_cross } else { main };
        if let Ok(child) = layout_spec(cs[i], child_w, child_h) {
            let visible_cursor = sat_sub(cursor, offset);
            if sat_add(cursor, main) > offset && visible_cursor < main_available {
                let skip = sat_sub(offset, cursor);
                let span = min_size(sat_sub(main, skip), (main_available - visible_cursor) as usize);
                lemma_blit_size(canvas, child, visible_cursor as int, cross as int, skip as int, 0, span as int, child_h as int, width as nat, height as nat);
                lemma_blit_size(canvas, child, cross as int, visible_cursor as int, 0, skip as int, child_w as int, span as int, width as nat, height as nat);
            }
            let next = place_child(spec, canvas, child, cursor, main, offset, main_available, cross, child_w, child_h);
            lemma_place_size(spec, cs, nats, sizes, width, height, offset, extra, i + 1, sat_add(sat_add(sat_add(cursor, main), spec.gap), extra), next);
        }
    }
}

/// A laid-out `Flex` container's children fill exactly its `width` x `height` cells.
pub proof fn lemma_flex_children_size(spec: FlexSpec, cs: Seq<NodeV>, width: usize, height: usize)
    ensures
        flex_children_spec(spec, cs, width, height) matches Ok(g) ==> grid_has_size(g, width as nat, height as nat),
{
    if let Ok(nats) = naturals_spec(cs) {
        let main_available = main_extent(spec.direction, width, height);
        let sizes = flex_sizes(spec, cs, nats, main_available);
        let content_size = sat_add(sum_sizes(sizes), gaps_for(spec.gap, cs.len()));
        let offset = if spec.overflow == Overflow::Scroll && content_size > main_available {
            offset_from(cs, sizes, spec.gap, main_available, 0, 0)
        } else {
            0
        };
        let free = sat_sub(main_available, content_size);
        let (cursor, extra) = justify_spec(spec.justify, free, cs.len() as usize);
        lemma_place_size(spec, cs, nats, sizes, width, height, offset, extra, 0, cursor, blank_grid(width as nat, height as nat));
    }
}

/// Layout fills exactly the `width` x `height` cells it is given.
pub proof fn lemma_layout_size(n: NodeV, width: usize, height: usize)
    ensures
        layout_spec(n, width, height) matches Ok(g) ==> grid_has_size(g, width as nat, height as nat),
{
    match n {
        NodeV::Text(t) => lemma_text_canvas_size(t, width as nat, height as nat, None),
        NodeV::Button { action, label, .. } => lemma_text_canvas_size(label, width as nat, height as nat, Some(action)),
        NodeV::Flex { spec, children } => {
            lemma_flex_children_size(spec, children, width, height);
            lemma_first_overflow(children, 0);
            if let Some(idx) = first_overflow(children, 0) {
                let normal = children.remove(idx);
                let indicator = overflow_children(children[idx]);
                lemma_flex_children_size(spec, normal, width, height);
                if let Ok(nats) = naturals_spec(normal) {
                    if let Ok(inats) = naturals_spec(indicator) {
                        let dir = spec.direction;
                        let main_available = main_extent(dir, width, height);
                        let indicator_natural = (sum_w(inats), if inats.len() == 0 { 1usize } else { max_h(inats) });
                        let indicator_main = min_size(main_of(dir, indicator_natural), main_available);
                        let indicator_gap = min_size(spec.gap, sat_sub(main_available, indicator_main));
                        let content_main = (main_available - (indicator_main + indicator_gap)) as usize;
                        let content_w = if dir == Direction::Row { content_main } else { width };
                        let content_h = if dir == Direction::Row { height } else { content_main };
                        if let Ok(content) = flex_children_spec(spec, normal, content_w, content_h) {
                            let ind_w = if dir == Direction::Row { indicator_main } else { width };
                            let ind_h = if dir == Direction::Row { height } else { indicator_main };
                            if let Ok(ind) = flex_children_spec(default_flex_spec(), indicator, ind_w, ind_h) {
                                let b = blank_grid(width as nat, height as nat);
                                lemma_blank_grid_size(width as nat, height as nat);
                                let c1 = blit_spec(b, content, 0, 0, 0, 0, grid_width(content) as int, content.len() as int);
                                lemma_blit_size(b, content, 0, 0, 0, 0, grid_width(content) as int, content.len() as int, width as nat, height as nat);
                                let at = content_main + indicator_gap;
                                lemma_blit_size(c1, ind, at, 0, 0, 0, ind_w as int, ind_h as int, width as nat, height as nat);
                                lemma_blit_size(c1, ind, 0, at, 0, 0, ind_w as int, ind_h as int, width as nat, height as nat);
                            }
                        }
                    }
                }
            }
        },
        NodeV::OnOverflow { .. } => {},
    }
}

} // verus!
