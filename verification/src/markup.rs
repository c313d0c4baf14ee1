//! The internal markup protocol between template helpers and the layout engine:
//! `Flex`, `Button` and `OnOverflow` calls render to private-use markers that
//! this module parses back into a layout tree.

use vstd::prelude::*;
use crate::chars::{eq_str, extend_chars, lemma_split_nonempty, parse_unsigned, parse_usize, split_chars, split_spec, sub_chars, views};
use crate::error::LayoutError;
use crate::node::{view_nodes, Align, Basis, Direction, FlexSpec, Justify, Node, NodeV, Overflow};

verus! {

/// Characters that open every marker (`U+E000` then `ZT:`).
pub open spec fn marker_seq() -> Seq<char> {
    seq!['\u{e000}', 'Z', 'T', ':']
}

/// The character that closes a marker's header.
pub open spec fn marker_end() -> char {
    '\u{e001}'
}

/// Whether a marker opening starts at index `j` of `s`.
pub open spec fn is_marker_at(s: Seq<char>, j: int) -> bool {
    &&& 0 <= j
    &&& j + 4 <= s.len()
    &&& s[j] == '\u{e000}'
    &&& s[j + 1] == 'Z'
    &&& s[j + 2] == 'T'
    &&& s[j + 3] == ':'
}

/// First marker opening at or after index `i`.
pub open spec fn find_marker(s: Seq<char>, i: int) -> Option<int>
    decreases s.len() - i,
{
    if i < 0 || i + 4 > s.len() {
        None
    } else if is_marker_at(s, i) {
        Some(i)
    } else {
        find_marker(s, i + 1)
    }
}

/// First occurrence of `c` at or after index `i`.
pub open spec fn find_char(s: Seq<char>, i: int, c: char) -> Option<int>
    decreases s.len() - i,
{
    if i < 0 || i >= s.len() {
        None
    } else if s[i] == c {
        Some(i)
    } else {
        find_char(s, i + 1, c)
    }
}

proof fn lemma_find_marker(s: Seq<char>, i: int)
    requires
        0 <= i,
    ensures
        find_marker(s, i) matches Some(j) ==> i <= j && is_marker_at(s, j),
    decreases s.len() - i,
{
    if i + 4 <= s.len() && !is_marker_at(s, i) {
        lemma_find_marker(s, i + 1);
    }
}

proof fn lemma_find_char(s: Seq<char>, i: int, c: char)
    requires
        0 <= i,
    ensures
        find_char(s, i, c) matches Some(j) ==> i <= j < s.len() && s[j] == c,
    decreases s.len() - i,
{
    if i < s.len() && s[i] != c {
        lemma_find_char(s, i + 1, c);
    }
}

/// An open element on the parser's stack.
#[derive(Debug)]
pub enum ParseOpen {
    Root(Vec<Node>),
    Flex(FlexSpec, Vec<Node>),
    Button(usize, bool, Vec<char>),
    OnOverflow(Vec<Node>),
}

/// The value of an open element.
pub enum OpenV {
    Root(Seq<NodeV>),
    Flex(FlexSpec, Seq<NodeV>),
    Button(usize, bool, Seq<char>),
    OnOverflow(Seq<NodeV>),
}

impl View for ParseOpen {
    type V = OpenV;

    open spec fn view(&self) -> OpenV {
        match self {
            ParseOpen::Root(nodes) => OpenV::Root(view_nodes(nodes@)),
            ParseOpen::Flex(spec, nodes) => OpenV::Flex(*spec, view_nodes(nodes@)),
            ParseOpen::Button(action, focused, label) => OpenV::Button(*action, *focused, label@),
            ParseOpen::OnOverflow(nodes) => OpenV::OnOverflow(view_nodes(nodes@)),
        }
    }
}

/// Values of a parser stack.
pub open spec fn open_views(s: Seq<ParseOpen>) -> Seq<OpenV> {
    s.map_values(|o: ParseOpen| o@)
}

/// Adds text to the innermost open element: a text node for containers, label text for a
/// button.
pub open spec fn push_text_spec(stack: Seq<OpenV>, text: Seq<char>) -> Result<Seq<OpenV>, LayoutError> {
    if text.len() == 0 {
        Ok(stack)
    } else if stack.len() == 0 {
        Err(LayoutError::TextOutsideRoot)
    } else {
        let rest = stack.drop_last();
        match stack.last() {
            OpenV::Root(nodes) => Ok(rest.push(OpenV::Root(nodes.push(NodeV::Text(text))))),
            OpenV::Flex(spec, nodes) => Ok(rest.push(OpenV::Flex(spec, nodes.push(NodeV::Text(text))))),
            OpenV::OnOverflow(nodes) => Ok(rest.push(OpenV::OnOverflow(nodes.push(NodeV::Text(text))))),
            OpenV::Button(action, focused, label) => Ok(rest.push(OpenV::Button(action, focused, label + text))),
        }
    }
}

/// Adds a closed node to the innermost open element.
pub open spec fn push_node_spec(stack: Seq<OpenV>, node: NodeV) -> Result<Seq<OpenV>, LayoutError> {
    if stack.len() == 0 {
        Err(LayoutError::NodeOutsideRoot)
    } else {
        let rest = stack.drop_last();
        match stack.last() {
            OpenV::Root(nodes) => if node is OnOverflow {
                Err(LayoutError::OnOverflowOutsideFlex)
            } else {
                Ok(rest.push(OpenV::Root(nodes.push(node))))
            },
            OpenV::Flex(spec, nodes) => Ok(rest.push(OpenV::Flex(spec, nodes.push(node)))),
            OpenV::OnOverflow(nodes) => Ok(rest.push(OpenV::OnOverflow(nodes.push(node)))),
            OpenV::Button(..) => Err(LayoutError::ButtonContainsHelpers),
        }
    }
}

proof fn lemma_view_nodes_push(nodes: Seq<Node>, n: Node)
    ensures
        view_nodes(nodes.push(n)) == view_nodes(nodes).push(n@),
{
    assert(nodes.push(n).drop_last() =~= nodes);
}

/// Adds text to the innermost open element of the parser stack.
pub fn push_text(stack: &mut Vec<ParseOpen>, text: Vec<char>) -> (r: Result<(), LayoutError>)
    ensures
        match r {
            Ok(()) => push_text_spec(open_views(old(stack)@), text@) == Ok::<Seq<OpenV>, LayoutError>(open_views(final(stack)@)),
            Err(e) => push_text_spec(open_views(old(stack)@), text@) == Err::<Seq<OpenV>, LayoutError>(e),
        },
{
    if text.len() == 0 {
        return Ok(());
    }
    let ghost before = open_views(stack@);
    match stack.pop() {
        None => Err(LayoutError::TextOutsideRoot),
        Some(top) => {
            proof {
                assert(open_views(stack@) =~= before.drop_last());
            }
            let ghost rest = open_views(stack@);
            let next = match top {
                ParseOpen::Root(mut nodes) => {
                    proof { lemma_view_nodes_push(nodes@, Node::Text(text)); }
                    nodes.push(Node::Text(text));
                    ParseOpen::Root(nodes)
                },
                ParseOpen::Flex(spec, mut nodes) => {
                    proof { lemma_view_nodes_push(nodes@, Node::Text(text)); }
                    nodes.push(Node::Text(text));
                    ParseOpen::Flex(spec, nodes)
                },
                ParseOpen::OnOverflow(mut nodes) => {
                    proof { lemma_view_nodes_push(nodes@, Node::Text(text)); }
                    nodes.push(Node::Text(text));
                    ParseOpen::OnOverflow(nodes)
                },
                ParseOpen::Button(action, focused, mut label) => {
                    extend_chars(&mut label, text.as_slice());
                    ParseOpen::Button(action, focused, label)
                },
            };
            stack.push(next);
            proof {
                assert(open_views(stack@) =~= rest.push(next@));
            }
            Ok(())
        },
    }
}

/// Adds a closed node to the innermost open element of the parser stack.
pub fn push_node(stack: &mut Vec<ParseOpen>, node: Node) -> (r: Result<(), LayoutError>)
    ensures
        match r {
            Ok(()) => push_node_spec(open_views(old(stack)@), node@) == Ok::<Seq<OpenV>, LayoutError>(open_views(final(stack)@)),
            Err(e) => push_node_spec(open_views(old(stack)@), node@) == Err::<Seq<OpenV>, LayoutError>(e),
        },
{
    let ghost before = open_views(stack@);
    let ghost nv = node@;
    match stack.pop() {
        None => Err(LayoutError::NodeOutsideRoot),
        Some(top) => {
            proof {
                assert(open_views(stack@) =~= before.drop_last());
            }
            let ghost rest = open_views(stack@);
            let next = match top {
                ParseOpen::Root(mut nodes) => {
                    if let Node::OnOverflow { .. } = node {
                        return Err(LayoutError::OnOverflowOutsideFlex);
                    }
                    proof { lemma_view_nodes_push(nodes@, node); }
                    nodes.push(node);
                    ParseOpen::Root(nodes)
                },
                ParseOpen::Flex(spec, mut nodes) => {
                    proof { lemma_view_nodes_push(nodes@, node); }
                    nodes.push(node);
                    ParseOpen::Flex(spec, nodes)
                },
                ParseOpen::OnOverflow(mut nodes) => {
                    proof { lemma_view_nodes_push(nodes@, node); }
                    nodes.push(node);
                    ParseOpen::OnOverflow(nodes)
                },
                ParseOpen::Button(..) => {
                    return Err(LayoutError::ButtonContainsHelpers);
                },
            };
            stack.push(next);
            proof {
                assert(open_views(stack@) =~= rest.push(next@));
            }
            Ok(())
        },
    }
}


/// The eight `|`-separated fields of a `Flex` marker: direction, grow, shrink, basis, gap,
/// justify, align and overflow, checked in that order.
pub open spec fn parse_flex_spec_spec(v: Seq<char>) -> Result<FlexSpec, LayoutError> {
    let f = split_spec(v, '|');
    if f.len() != 8 {
        Err(LayoutError::InvalidFlexMarker)
    } else if f[0] != "row"@ && f[0] != "column"@ {
        Err(LayoutError::InvalidFlexDirection)
    } else if parse_unsigned(f[1], usize::MAX as nat) is None {
        Err(LayoutError::InvalidFlexGrow)
    } else if parse_unsigned(f[2], usize::MAX as nat) is None {
        Err(LayoutError::InvalidFlexShrink)
    } else if f[3] != "auto"@ && parse_unsigned(f[3], usize::MAX as nat) is None {
        Err(LayoutError::InvalidFlexBasis)
    } else if parse_unsigned(f[4], usize::MAX as nat) is None {
        Err(LayoutError::InvalidFlexGap)
    } else if f[5] != "start"@ && f[5] != "center"@ && f[5] != "end"@ && f[5] != "space-between"@
        && f[5] != "space-around"@ {
        Err(LayoutError::InvalidFlexJustify)
    } else if f[6] != "start"@ && f[6] != "center"@ && f[6] != "end"@ && f[6] != "stretch"@ {
        Err(LayoutError::InvalidFlexAlign)
    } else if f[7] != "normal"@ && f[7] != "scroll"@ {
        Err(LayoutError::InvalidFlexOverflow)
    } else {
        Ok(FlexSpec {
            direction: if f[0] == "row"@ { Direction::Row } else { Direction::Column },
            grow: parse_unsigned(f[1], usize::MAX as nat).unwrap() as usize,
            shrink: parse_unsigned(f[2], usize::MAX as nat).unwrap() as usize,
            basis: if f[3] == "auto"@ {
                Basis::Auto
            } else {
                Basis::Cells(parse_unsigned(f[3], usize::MAX as nat).unwrap() as usize)
            },
            gap: parse_unsigned(f[4], usize::MAX as nat).unwrap() as usize,
            justify: if f[5] == "start"@ {
                Justify::Start
            } else if f[5] == "center"@ {
                Justify::Center
            } else if f[5] == "end"@ {
                Justify::End
            } else if f[5] == "space-between"@ {
                Justify::SpaceBetween
            } else {
                Justify::SpaceAround
            },
            align: if f[6] == "start"@ {
                Align::Start
            } else if f[6] == "center"@ {
                Align::Center
            } else if f[6] == "end"@ {
                Align::End
            } else {
                Align::Stretch
            },
            overflow: if f[7] == "normal"@ { Overflow::Normal } else { Overflow::Scroll },
        })
    }
}

/// Parses the fields of a `Flex` marker.
pub fn parse_flex_spec(v: &[char]) -> (r: Result<FlexSpec, LayoutError>)
    ensures
        r == parse_flex_spec_spec(v@),
{
    let f = split_chars(v, '|');
    let ghost fv = views(f@);
    if f.len() != 8 {
        return Err(LayoutError::InvalidFlexMarker);
    }
    proof {
        assert(fv.len() == 8);
        assert forall|k: int| 0 <= k < 8 implies #[trigger] fv[k] == f@[k]@ by {}
    }
    let direction = if eq_str(f[0].as_slice(), "row") {
        Direction::Row
    } else if eq_str(f[0].as_slice(), "column") {
        Direction::Column
    } else {
        return Err(LayoutError::InvalidFlexDirection);
    };
    let grow = match parse_usize(f[1].as_slice()) {
        Some(n) => n,
        None => return Err(LayoutError::InvalidFlexGrow),
    };
    let shrink = match parse_usize(f[2].as_slice()) {
        Some(n) => n,
        None => return Err(LayoutError::InvalidFlexShrink),
    };
    let basis = if eq_str(f[3].as_slice(), "auto") {
        Basis::Auto
    } else {
        match parse_usize(f[3].as_slice()) {
            Some(n) => Basis::Cells(n),
            None => return Err(LayoutError::InvalidFlexBasis),
        }
    };
    let gap = match parse_usize(f[4].as_slice()) {
        Some(n) => n,
        None => return Err(LayoutError::InvalidFlexGap),
    };
    let justify = if eq_str(f[5].as_slice(), "start") {
        Justify::Start
    } else if eq_str(f[5].as_slice(), "center") {
        Justify::Center
    } else if eq_str(f[5].as_slice(), "end") {
        Justify::End
    } else if eq_str(f[5].as_slice(), "space-between") {
        Justify::SpaceBetween
    } else if eq_str(f[5].as_slice(), "space-around") {
        Justify::SpaceAround
    } else {
        return Err(LayoutError::InvalidFlexJustify);
    };
    let align = if eq_str(f[6].as_slice(), "start") {
        Align::Start
    } else if eq_str(f[6].as_slice(), "center") {
        Align::Center
    } else if eq_str(f[6].as_slice(), "end") {
        Align::End
    } else if eq_str(f[6].as_slice(), "stretch") {
        Align::Stretch
    } else {
        return Err(LayoutError::InvalidFlexAlign);
    };
    let overflow = if eq_str(f[7].as_slice(), "normal") {
        Overflow::Normal
    } else if eq_str(f[7].as_slice(), "scroll") {
        Overflow::Scroll
    } else {
        return Err(LayoutError::InvalidFlexOverflow);
    };
    Ok(FlexSpec { direction, grow, shrink, basis, gap, justify, align, overflow })
}


/// Opens a button from the fields of a `Button` marker: action index, focus flag (`0` or
/// `1`), and nothing else; the index must name one of the `n_actions` recorded actions.
pub open spec fn button_marker_spec(stack: Seq<OpenV>, m: Seq<char>, n_actions: nat) -> Result<Seq<OpenV>, LayoutError> {
    let f = split_spec(m, '|');
    match parse_unsigned(f[0], usize::MAX as nat) {
        None => Err(LayoutError::InvalidButtonActionMarker),
        Some(id) => if f.len() < 2 || (f[1] != seq!['0'] && f[1] != seq!['1']) {
            Err(LayoutError::InvalidButtonFocusedMarker)
        } else if f.len() > 2 {
            Err(LayoutError::InvalidButtonMarker)
        } else if id >= n_actions {
            Err(LayoutError::InvalidButtonActionMarker)
        } else {
            Ok(stack.push(OpenV::Button(id as usize, f[1] == seq!['1'], Seq::empty())))
        },
    }
}

/// The node that a closing marker completes, when it matches the innermost open element.
pub open spec fn closed_node(m: Seq<char>, open: OpenV) -> Option<NodeV> {
    match open {
        OpenV::Flex(spec, children) => if m == seq!['/', 'F'] {
            Some(NodeV::Flex { spec, children })
        } else {
            None
        },
        OpenV::Button(action, focused, label) => if m == seq!['/', 'B'] {
            Some(NodeV::Button { action, focused, label })
        } else {
            None
        },
        OpenV::OnOverflow(children) => if m == seq!['/', 'O'] {
            Some(NodeV::OnOverflow { children })
        } else {
            None
        },
        OpenV::Root(_) => None,
    }
}

/// Applies one marker header (the text between the marker opening and its end character).
pub open spec fn apply_marker_spec(stack: Seq<OpenV>, m: Seq<char>, n_actions: nat) -> Result<Seq<OpenV>, LayoutError> {
    if m == seq!['/', 'F'] || m == seq!['/', 'B'] || m == seq!['/', 'O'] {
        if stack.len() == 0 {
            Err(LayoutError::UnexpectedClosingMarker)
        } else {
            match closed_node(m, stack.last()) {
                None => Err(LayoutError::MismatchedClosingMarker),
                Some(node) => push_node_spec(stack.drop_last(), node),
            }
        }
    } else if m.len() >= 2 && m[0] == 'F' && m[1] == '|' {
        match parse_flex_spec_spec(m.skip(2)) {
            Ok(spec) => Ok(stack.push(OpenV::Flex(spec, Seq::empty()))),
            Err(e) => Err(e),
        }
    } else if m.len() >= 2 && m[0] == 'B' && m[1] == '|' {
        button_marker_spec(stack, m.skip(2), n_actions)
    } else if m == seq!['O'] {
        Ok(stack.push(OpenV::OnOverflow(Seq::empty())))
    } else {
        Err(LayoutError::UnknownMarker)
    }
}

/// Parses markup from index `i` with the given open elements.
pub open spec fn parse_from(s: Seq<char>, i: int, stack: Seq<OpenV>, n_actions: nat) -> Result<Seq<NodeV>, LayoutError>
    decreases s.len() - i,
{
    if i < 0 || i > s.len() {
        Err(LayoutError::UnclosedHelper)
    } else {
        match find_marker(s, i) {
            None => match push_text_spec(stack, s.subrange(i, s.len() as int)) {
                Err(e) => Err(e),
                Ok(st) => if st.len() != 1 {
                    Err(LayoutError::UnclosedHelper)
                } else {
                    match st[0] {
                        OpenV::Root(nodes) => Ok(nodes),
                        _ => Err(LayoutError::UnclosedHelper),
                    }
                },
            },
            Some(at) => if at < i || at + 4 > s.len() {
                Err(LayoutError::UnclosedHelper)
            } else {
                match push_text_spec(stack, s.subrange(i, at)) {
                    Err(e) => Err(e),
                    Ok(st) => match find_char(s, at + 4, marker_end()) {
                        None => Err(LayoutError::UnterminatedMarker),
                        Some(end) => if end < at + 4 || end >= s.len() {
                            Err(LayoutError::UnterminatedMarker)
                        } else {
                            match apply_marker_spec(st, s.subrange(at + 4, end), n_actions) {
                                Err(e) => Err(e),
                                Ok(st2) => parse_from(s, end + 1, st2, n_actions),
                            }
                        },
                    },
                }
            },
        }
    }
}

/// The top-level nodes that markup describes, given how many actions were recorded.
pub open spec fn parse_markup_spec(s: Seq<char>, n_actions: nat) -> Result<Seq<NodeV>, LayoutError> {
    parse_from(s, 0, seq![OpenV::Root(Seq::empty())], n_actions)
}

fn is_pair(m: &[char], a: char, b: char) -> (r: bool)
    ensures
        r == (m@ == seq![a, b]),
{
    let r = m.len() == 2 && m[0] == a && m[1] == b;
    proof {
        if r {
            assert(m@ =~= seq![a, b]);
        }
    }
    r
}

/// Applies one marker header to the parser stack.
pub fn apply_marker(stack: &mut Vec<ParseOpen>, m: &[char], n_actions: usize) -> (r: Result<(), LayoutError>)
    ensures
        match r {
            Ok(()) => apply_marker_spec(open_views(old(stack)@), m@, n_actions as nat) == Ok::<Seq<OpenV>, LayoutError>(open_views(final(stack)@)),
            Err(e) => apply_marker_spec(open_views(old(stack)@), m@, n_actions as nat) == Err::<Seq<OpenV>, LayoutError>(e),
        },
{
    let ghost before = open_views(stack@);
    let close_f = is_pair(m, '/', 'F');
    let close_b = is_pair(m, '/', 'B');
    let close_o = is_pair(m, '/', 'O');
    if close_f || close_b || close_o {
        match stack.pop() {
            None => {
                return Err(LayoutError::UnexpectedClosingMarker);
            },
            Some(top) => {
                proof {
                    assert(open_views(stack@) =~= before.drop_last());
                    assert(before.last() == top@);
                }
                let node = match top {
                    ParseOpen::Flex(spec, children) => {
                        if !close_f {
                            return Err(LayoutError::MismatchedClosingMarker);
                        }
                        Node::Flex { spec, children }
                    },
                    ParseOpen::Button(action, focused, label) => {
                        if !close_b {
                            return Err(LayoutError::MismatchedClosingMarker);
                        }
                        Node::Button { action, focused, label }
                    },
                    ParseOpen::OnOverflow(children) => {
                        if !close_o {
                            return Err(LayoutError::MismatchedClosingMarker);
                        }
                        Node::OnOverflow { children }
                    },
                    ParseOpen::Root(_) => {
                        return Err(LayoutError::MismatchedClosingMarker);
                    },
                };
                proof {
                    assert(closed_node(m@, before.last()) == Some(node@));
                }
                return push_node(stack, node);
            },
        }
    }
    if m.len() >= 2 && m[0] == 'F' && m[1] == '|' {
        let fields = sub_chars(m, 2, m.len());
        proof {
            assert(fields@ =~= m@.skip(2));
        }
        let spec = match parse_flex_spec(fields.as_slice()) {
            Ok(spec) => spec,
            Err(e) => return Err(e),
        };
        stack.push(ParseOpen::Flex(spec, Vec::new()));
        proof {
            assert(view_nodes(Seq::<Node>::empty()) == Seq::<NodeV>::empty());
            assert(open_views(stack@) =~= before.push(OpenV::Flex(spec, Seq::empty())));
        }
        return Ok(());
    }
    if m.len() >= 2 && m[0] == 'B' && m[1] == '|' {
        let rest = sub_chars(m, 2, m.len());
        proof {
            assert(rest@ =~= m@.skip(2));
        }
        let f = split_chars(rest.as_slice(), '|');
        proof {
            lemma_split_nonempty(rest@, '|');
        }
        let ghost fv = views(f@);
        proof {
            assert(fv[0] == f@[0]@);
        }
        let id = match parse_usize(f[0].as_slice()) {
            Some(id) => id,
            None => return Err(LayoutError::InvalidButtonActionMarker),
        };
        if f.len() < 2 {
            return Err(LayoutError::InvalidButtonFocusedMarker);
        }
        proof {
            assert(fv[1] == f@[1]@);
        }
        let focused = if f[1].len() == 1 && f[1][0] == '0' {
            proof { assert(f@[1]@ =~= seq!['0']); }
            false
        } else if f[1].len() == 1 && f[1][0] == '1' {
            proof { assert(f@[1]@ =~= seq!['1']); }
            true
        } else {
            proof {
                assert(f@[1]@ != seq!['0'] && f@[1]@ != seq!['1']) by {
                    if f@[1]@ == seq!['0'] || f@[1]@ == seq!['1'] {
                        assert(f@[1]@.len() == 1);
                    }
                }
            }
            return Err(LayoutError::InvalidButtonFocusedMarker);
        };
        if f.len() > 2 {
            return Err(LayoutError::InvalidButtonMarker);
        }
        if id >= n_actions {
            return Err(LayoutError::InvalidButtonActionMarker);
        }
        stack.push(ParseOpen::Button(id, focused, Vec::new()));
        proof {
            assert(open_views(stack@) =~= before.push(OpenV::Button(id, focused, Seq::empty())));
        }
        return Ok(());
    }
    if m.len() == 1 && m[0] == 'O' {
        proof {
            assert(m@ =~= seq!['O']);
        }
        stack.push(ParseOpen::OnOverflow(Vec::new()));
        proof {
            assert(view_nodes(Seq::<Node>::empty()) == Seq::<NodeV>::empty());
            assert(open_views(stack@) =~= before.push(OpenV::OnOverflow(Seq::empty())));
        }
        return Ok(());
    }
    proof {
        assert(m@ != seq!['O']) by {
            if m@ == seq!['O'] {
                assert(m@.len() == 1);
            }
        }
    }
    Err(LayoutError::UnknownMarker)
}


fn next_marker(s: &[char], i: usize) -> (r: Option<usize>)
    requires
        i <= s@.len(),
    ensures
        match r {
            Some(j) => find_marker(s@, i as int) == Some(j as int),
            None => find_marker(s@, i as int) is None,
        },
{
    let mut j = i;
    while j < s.len() && s.len() - j >= 4
        invariant
            i <= j <= s@.len(),
            find_marker(s@, i as int) == find_marker(s@, j as int),
        decreases s@.len() - j,
    {
        if s[j] == '\u{e000}' && s[j + 1] == 'Z' && s[j + 2] == 'T' && s[j + 3] == ':' {
            return Some(j);
        }
        j += 1;
    }
    None
}

fn next_char(s: &[char], i: usize, c: char) -> (r: Option<usize>)
    requires
        i <= s@.len(),
    ensures
        match r {
            Some(j) => find_char(s@, i as int, c) == Some(j as int),
            None => find_char(s@, i as int, c) is None,
        },
{
    let mut j = i;
    while j < s.len()
        invariant
            i <= j <= s@.len(),
            find_char(s@, i as int, c) == find_char(s@, j as int, c),
        decreases s@.len() - j,
    {
        if s[j] == c {
            return Some(j);
        }
        j += 1;
    }
    None
}

/// Parses rendered markup into its top-level layout nodes. Button markers must name one of
/// the `n_actions` actions recorded while the template rendered.
pub fn parse_nodes(input: &[char], n_actions: usize) -> (r: Result<Vec<Node>, LayoutError>)
    ensures
        match r {
            Ok(nodes) => parse_markup_spec(input@, n_actions as nat) == Ok::<Seq<NodeV>, LayoutError>(view_nodes(nodes@)),
            Err(e) => parse_markup_spec(input@, n_actions as nat) == Err::<Seq<NodeV>, LayoutError>(e),
        },
{
    let mut stack: Vec<ParseOpen> = Vec::new();
    stack.push(ParseOpen::Root(Vec::new()));
    proof {
        assert(view_nodes(Seq::<Node>::empty()) == Seq::<NodeV>::empty());
        assert(open_views(stack@) =~= seq![OpenV::Root(Seq::empty())]);
    }
    let ghost total = parse_markup_spec(input@, n_actions as nat);
    let len = input.len();
    let mut i: usize = 0;
    loop
        invariant
            i <= input@.len(),
            len == input@.len(),
            total == parse_markup_spec(input@, n_actions as nat),
            parse_from(input@, i as int, open_views(stack@), n_actions as nat) == total,
        decreases input@.len() - i,
    {
        proof {
            lemma_find_marker(input@, i as int);
        }
        match next_marker(input, i) {
            None => {
                let text = sub_chars(input, i, input.len());
                proof {
                    assert(find_marker(input@, i as int) is None);
                    assert(parse_from(input@, i as int, open_views(stack@), n_actions as nat) == (match push_text_spec(open_views(stack@), input@.subrange(i as int, input@.len() as int)) {
                        Err(e) => Err(e),
                        Ok(st) => if st.len() != 1 {
                            Err(LayoutError::UnclosedHelper)
                        } else {
                            match st[0] {
                                OpenV::Root(nodes) => Ok(nodes),
                                _ => Err(LayoutError::UnclosedHelper),
                            }
                        },
                    }));
                }
                match push_text(&mut stack, text) {
                    Ok(()) => {},
                    Err(e) => return Err(e),
                }
                if stack.len() != 1 {
                    return Err(LayoutError::UnclosedHelper);
                }
                let ghost sv = open_views(stack@);
                match stack.pop() {
                    Some(ParseOpen::Root(nodes)) => {
                        proof {
                            assert(sv[0] == OpenV::Root(view_nodes(nodes@)));
                        }
                        return Ok(nodes);
                    },
                    _ => {
                        return Err(LayoutError::UnclosedHelper);
                    },
                }
            },
            Some(at) => {
                proof {
                    assert(is_marker_at(input@, at as int));
                }
                assert(at + 4 <= len);
                let text = sub_chars(input, i, at);
                match push_text(&mut stack, text) {
                    Ok(()) => {},
                    Err(e) => return Err(e),
                }
                proof {
                    lemma_find_char(input@, at + 4, marker_end());
                }
                let end = match next_char(input, at + 4, '\u{e001}') {
                    Some(end) => end,
                    None => return Err(LayoutError::UnterminatedMarker),
                };
                proof {
                    assert(input@[end as int] == marker_end());
                }
                assert(end < len);
                let m = sub_chars(input, at + 4, end);
                match apply_marker(&mut stack, m.as_slice(), n_actions) {
                    Ok(()) => {},
                    Err(e) => return Err(e),
                }
                i = end + 1;
            },
        }
    }
}

/// The text a layout tree shows, in reading order: text nodes and button labels, with
/// containers contributing their children left to right.
pub open spec fn shown_text(n: NodeV) -> Seq<char>
    decreases n, 0nat,
{
    match n {
        NodeV::Text(t) => t,
        NodeV::Button { label, .. } => label,
        NodeV::Flex { children, .. } => shown_text_from(children, 0),
        NodeV::OnOverflow { children } => shown_text_from(children, 0),
    }
}

/// The text that the trees of `cs` from index `i` on show, in order.
pub open spec fn shown_text_from(cs: Seq<NodeV>, i: int) -> Seq<char>
    decreases cs, cs.len() - i,
{
    if i < 0 || i >= cs.len() {
        Seq::empty()
    } else {
        shown_text(cs[i]) + shown_text_from(cs, i + 1)
    }
}

/// Markup from index `i` with every marker (its opening up to its end character) taken
/// out: the text between markers, in order.
pub open spec fn text_between_markers(s: Seq<char>, i: int) -> Seq<char>
    decreases s.len() - i,
{
    if i < 0 || i > s.len() {
        Seq::empty()
    } else {
        match find_marker(s, i) {
            None => s.subrange(i, s.len() as int),
            Some(at) => if at < i || at + 4 > s.len() {
                Seq::empty()
            } else {
                match find_char(s, at + 4, marker_end()) {
                    None => s.subrange(i, at),
                    Some(end) => if end < at + 4 || end >= s.len() {
                        s.subrange(i, at)
                    } else {
                        s.subrange(i, at) + text_between_markers(s, end + 1)
                    },
                }
            },
        }
    }
}

/// The text an open element shows so far.
pub open spec fn open_text(o: OpenV) -> Seq<char> {
    match o {
        OpenV::Root(nodes) => shown_text_from(nodes, 0),
        OpenV::Flex(_, nodes) => shown_text_from(nodes, 0),
        OpenV::OnOverflow(nodes) => shown_text_from(nodes, 0),
        OpenV::Button(_, _, label) => label,
    }
}

/// The text the open elements show so far, outermost first.
pub open spec fn stack_text(stack: Seq<OpenV>) -> Seq<char>
    decreases stack.len(),
{
    if stack.len() == 0 {
        Seq::empty()
    } else {
        stack_text(stack.drop_last()) + open_text(stack.last())
    }
}

proof fn lemma_shown_text_push(cs: Seq<NodeV>, n: NodeV, i: int)
    requires
        0 <= i <= cs.len(),
    ensures
        shown_text_from(cs.push(n), i) == shown_text_from(cs, i) + shown_text(n),
    decreases cs.len() - i,
{
    if i < cs.len() {
        lemma_shown_text_push(cs, n, i + 1);
        assert(cs.push(n)[i] == cs[i]);
        assert(shown_text(cs[i]) + (shown_text_from(cs, i + 1) + shown_text(n))
            =~= (shown_text(cs[i]) + shown_text_from(cs, i + 1)) + shown_text(n));
    } else {
        assert(cs.push(n)[i] == n);
        assert(shown_text_from(cs.push(n), i + 1) == Seq::<char>::empty());
        assert(shown_text(n) + Seq::<char>::empty() =~= Seq::<char>::empty() + shown_text(n));
    }
}

proof fn lemma_stack_text_push(stack: Seq<OpenV>, o: OpenV)
    ensures
        stack_text(stack.push(o)) == stack_text(stack) + open_text(o),
{
    assert(stack.push(o).drop_last() =~= stack);
}

proof fn lemma_push_text_keeps_order(stack: Seq<OpenV>, text: Seq<char>)
    requires
        push_text_spec(stack, text) is Ok,
    ensures
        stack_text(push_text_spec(stack, text).unwrap()) == stack_text(stack) + text,
{
    if text.len() == 0 {
        assert(stack_text(stack) + text =~= stack_text(stack));
    } else {
        let rest = stack.drop_last();
        assert(stack =~= rest.push(stack.last()));
        lemma_stack_text_push(rest, stack.last());
        match stack.last() {
            OpenV::Root(nodes) => {
                lemma_shown_text_push(nodes, NodeV::Text(text), 0);
                lemma_stack_text_push(rest, OpenV::Root(nodes.push(NodeV::Text(text))));
            },
            OpenV::Flex(spec, nodes) => {
                lemma_shown_text_push(nodes, NodeV::Text(text), 0);
                lemma_stack_text_push(rest, OpenV::Flex(spec, nodes.push(NodeV::Text(text))));
            },
            OpenV::OnOverflow(nodes) => {
                lemma_shown_text_push(nodes, NodeV::Text(text), 0);
                lemma_stack_text_push(rest, OpenV::OnOverflow(nodes.push(NodeV::Text(text))));
            },
            OpenV::Button(action, focused, label) => {
                lemma_stack_text_push(rest, OpenV::Button(action, focused, label + text));
            },
        }
        let st = push_text_spec(stack, text).unwrap();
        assert(stack_text(st) =~= stack_text(stack) + text);
    }
}

proof fn lemma_push_node_keeps_order(stack: Seq<OpenV>, node: NodeV)
    requires
        push_node_spec(stack, node) is Ok,
    ensures
        stack_text(push_node_spec(stack, node).unwrap()) == stack_text(stack) + shown_text(node),
{
    let rest = stack.drop_last();
    assert(stack =~= rest.push(stack.last()));
    lemma_stack_text_push(rest, stack.last());
    match stack.last() {
        OpenV::Root(nodes) => {
            lemma_shown_text_push(nodes, node, 0);
            lemma_stack_text_push(rest, OpenV::Root(nodes.push(node)));
        },
        OpenV::Flex(spec, nodes) => {
            lemma_shown_text_push(nodes, node, 0);
            lemma_stack_text_push(rest, OpenV::Flex(spec, nodes.push(node)));
        },
        OpenV::OnOverflow(nodes) => {
            lemma_shown_text_push(nodes, node, 0);
            lemma_stack_text_push(rest, OpenV::OnOverflow(nodes.push(node)));
        },
        OpenV::Button(..) => {},
    }
    let st = push_node_spec(stack, node).unwrap();
    assert(stack_text(st) =~= stack_text(stack) + shown_text(node));
}

proof fn lemma_open_empty_text(stack: Seq<OpenV>, o: OpenV)
    requires
        open_text(o) == Seq::<char>::empty(),
    ensures
        stack_text(stack.push(o)) == stack_text(stack),
{
    lemma_stack_text_push(stack, o);
    assert(stack_text(stack) + open_text(o) =~= stack_text(stack));
}

proof fn lemma_apply_marker_keeps_order(stack: Seq<OpenV>, m: Seq<char>, n_actions: nat)
    requires
        apply_marker_spec(stack, m, n_actions) is Ok,
    ensures
        stack_text(apply_marker_spec(stack, m, n_actions).unwrap()) == stack_text(stack),
{
    if m == seq!['/', 'F'] || m == seq!['/', 'B'] || m == seq!['/', 'O'] {
        let o = stack.last();
        let node = closed_node(m, o).unwrap();
        assert(shown_text(node) == open_text(o));
        let rest = stack.drop_last();
        assert(stack =~= rest.push(o));
        lemma_stack_text_push(rest, o);
        lemma_push_node_keeps_order(rest, node);
    } else if m.len() >= 2 && m[0] == 'F' && m[1] == '|' {
        let spec = parse_flex_spec_spec(m.skip(2)).unwrap();
        assert(shown_text_from(Seq::<NodeV>::empty(), 0) == Seq::<char>::empty());
        lemma_open_empty_text(stack, OpenV::Flex(spec, Seq::empty()));
    } else if m.len() >= 2 && m[0] == 'B' && m[1] == '|' {
        let st = apply_marker_spec(stack, m, n_actions).unwrap();
        let o = st.last();
        assert(st == stack.push(o));
        assert(open_text(o) == Seq::<char>::empty());
        lemma_open_empty_text(stack, o);
    } else {
        assert(shown_text_from(Seq::<NodeV>::empty(), 0) == Seq::<char>::empty());
        lemma_open_empty_text(stack, OpenV::OnOverflow(Seq::empty()));
    }
}

proof fn lemma_parse_from_keeps_order(s: Seq<char>, i: int, stack: Seq<OpenV>, n_actions: nat)
    requires
        parse_from(s, i, stack, n_actions) is Ok,
    ensures
        shown_text_from(parse_from(s, i, stack, n_actions).unwrap(), 0) == stack_text(stack) + text_between_markers(s, i),
    decreases s.len() - i,
{
    match find_marker(s, i) {
        None => {
            let text = s.subrange(i, s.len() as int);
            lemma_push_text_keeps_order(stack, text);
            let st = push_text_spec(stack, text).unwrap();
            assert(st =~= Seq::<OpenV>::empty().push(st[0]));
            lemma_stack_text_push(Seq::<OpenV>::empty(), st[0]);
            assert(stack_text(Seq::<OpenV>::empty()) == Seq::<char>::empty());
            assert(stack_text(st) =~= open_text(st[0]));
        },
        Some(at) => {
            let text = s.subrange(i, at);
            lemma_push_text_keeps_order(stack, text);
            let st = push_text_spec(stack, text).unwrap();
            let end = find_char(s, at + 4, marker_end()).unwrap();
            let st2 = apply_marker_spec(st, s.subrange(at + 4, end), n_actions).unwrap();
            lemma_apply_marker_keeps_order(st, s.subrange(at + 4, end), n_actions);
            lemma_parse_from_keeps_order(s, end + 1, st2, n_actions);
            assert(stack_text(stack) + (text + text_between_markers(s, end + 1))
                =~= (stack_text(stack) + text) + text_between_markers(s, end + 1));
        },
    }
}

/// Law: parsing keeps document order: the text that the parsed trees show, read left to
/// right (text nodes and button labels, children in order), is the markup with its markers
/// taken out.
pub proof fn lemma_parse_keeps_document_order(s: Seq<char>, n_actions: nat)
    requires
        parse_markup_spec(s, n_actions) is Ok,
    ensures
        shown_text_from(parse_markup_spec(s, n_actions).unwrap(), 0) == text_between_markers(s, 0),
{
    let root = seq![OpenV::Root(Seq::empty())];
    lemma_parse_from_keeps_order(s, 0, root, n_actions);
    assert(root =~= Seq::<OpenV>::empty().push(OpenV::Root(Seq::empty())));
    lemma_stack_text_push(Seq::<OpenV>::empty(), OpenV::Root(Seq::empty()));
    assert(stack_text(Seq::<OpenV>::empty()) == Seq::<char>::empty());
    assert(shown_text_from(Seq::<NodeV>::empty(), 0) == Seq::<char>::empty());
    assert(stack_text(root) =~= Seq::<char>::empty());
    assert(stack_text(root) + text_between_markers(s, 0) =~= text_between_markers(s, 0));
}

} // verus!
