//! The layout tree that markup parsing produces and the layout engine paints.

use vstd::prelude::*;

verus! {

/// Main axis of a `Flex` container.
#[derive(Clone, Copy, Debug, PartialEq, Eq, Structural)]
pub enum Direction {
    Row,
    Column,
}

/// Main-axis placement of children when free cells remain.
#[derive(Clone, Copy, Debug, PartialEq, Eq, Structural)]
pub enum Justify {
    Start,
    Center,
    End,
    SpaceBetween,
    SpaceAround,
}

/// Cross-axis placement of children.
#[derive(Clone, Copy, Debug, PartialEq, Eq, Structural)]
pub enum Align {
    Start,
    Center,
    End,
    Stretch,
}

/// Whether overflowing children are shrunk (`Normal`) or scrolled to the focused child.
#[derive(Clone, Copy, Debug, PartialEq, Eq, Structural)]
pub enum Overflow {
    Normal,
    Scroll,
}

/// Initial main-axis size of a `Flex` child.
#[derive(Clone, Copy, Debug, PartialEq, Eq, Structural)]
pub enum Basis {
    Auto,
    Cells(usize),
}

/// Properties of a `Flex` container.
#[derive(Clone, Copy, Debug, PartialEq, Eq, Structural)]
pub struct FlexSpec {
    pub direction: Direction,
    pub grow: usize,
    pub shrink: usize,
    pub basis: Basis,
    pub gap: usize,
    pub justify: Justify,
    pub align: Align,
    pub overflow: Overflow,
}

/// The properties a `Flex` call has when it sets none.
pub open spec fn default_flex_spec() -> FlexSpec {
    FlexSpec {
        direction: Direction::Row,
        grow: 0,
        shrink: 1,
        basis: Basis::Auto,
        gap: 0,
        justify: Justify::Start,
        align: Align::Start,
        overflow: Overflow::Normal,
    }
}

impl FlexSpec {
    /// Row direction, no grow, shrink 1, automatic basis, no gap, start justification and
    /// alignment, normal overflow.
    pub fn new() -> (r: FlexSpec)
        ensures
            r == default_flex_spec(),
    {
        FlexSpec {
            direction: Direction::Row,
            grow: 0,
            shrink: 1,
            basis: Basis::Auto,
            gap: 0,
            justify: Justify::Start,
            align: Align::Start,
            overflow: Overflow::Normal,
        }
    }
}

/// A layout tree node. Button actions are indices into the render's action list.
#[derive(Debug)]
pub enum Node {
    Text(Vec<char>),
    Button { action: usize, focused: bool, label: Vec<char> },
    Flex { spec: FlexSpec, children: Vec<Node> },
    OnOverflow { children: Vec<Node> },
}

/// The mathematical value of a layout tree.
pub enum NodeV {
    Text(Seq<char>),
    Button { action: usize, focused: bool, label: Seq<char> },
    Flex { spec: FlexSpec, children: Seq<NodeV> },
    OnOverflow { children: Seq<NodeV> },
}

impl View for Node {
    type V = NodeV;

    open spec fn view(&self) -> NodeV
        decreases self,
    {
        match self {
            Node::Text(t) => NodeV::Text(t@),
            Node::Button { action, focused, label } => NodeV::Button {
                action: *action,
                focused: *focused,
                label: label@,
            },
            Node::Flex { spec, children } => NodeV::Flex { spec: *spec, children: view_nodes(children@) },
            Node::OnOverflow { children } => NodeV::OnOverflow { children: view_nodes(children@) },
        }
    }
}

/// The values of a sequence of layout trees.
pub open spec fn view_nodes(cs: Seq<Node>) -> Seq<NodeV>
    decreases cs,
{
    if cs.len() == 0 {
        Seq::empty()
    } else {
        view_nodes(cs.drop_last()).push(cs.last().view())
    }
}

/// `view_nodes` maps each tree to its value.
pub broadcast proof fn lemma_view_nodes(cs: Seq<Node>)
    ensures
        #[trigger] view_nodes(cs).len() == cs.len(),
        forall|i: int| 0 <= i < cs.len() ==> #[trigger] view_nodes(cs)[i] == cs[i]@,
    decreases cs.len(),
{
    if cs.len() > 0 {
        lemma_view_nodes(cs.drop_last());
        assert(view_nodes(cs) == view_nodes(cs.drop_last()).push(cs.last().view()));
    } else {
        assert(view_nodes(cs) == Seq::<NodeV>::empty());
    }
}

/// Whether a tree holds a button whose resolved focus state is true.
pub open spec fn contains_focus_spec(n: NodeV) -> bool
    decreases n, 0nat,
{
    match n {
        NodeV::Button { focused, .. } => focused,
        NodeV::Flex { children, .. } => any_focus_from(children, 0),
        NodeV::OnOverflow { children } => any_focus_from(children, 0),
        NodeV::Text(_) => false,
    }
}

/// Whether any tree of `cs` from index `i` on holds a focused button.
pub open spec fn any_focus_from(cs: Seq<NodeV>, i: int) -> bool
    decreases cs, cs.len() - i,
{
    if i < 0 || i >= cs.len() {
        false
    } else {
        contains_focus_spec(cs[i]) || any_focus_from(cs, i + 1)
    }
}

impl Node {
    /// A copy of the tree with the same value.
    pub fn deep_clone(&self) -> (r: Node)
        ensures
            r@ == self@,
        decreases self,
    {
        broadcast use lemma_view_nodes;
        match self {
            Node::Text(t) => Node::Text(t.clone()),
            Node::Button { action, focused, label } => Node::Button {
                action: *action,
                focused: *focused,
                label: label.clone(),
            },
            Node::Flex { spec, children } => {
                proof {
                    assert(decreases_to!(*self => self->Flex_children));
                }
                let cs = clone_nodes(children, Ghost(self));
                Node::Flex { spec: *spec, children: cs }
            },
            Node::OnOverflow { children } => {
                proof {
                    assert(decreases_to!(*self => self->OnOverflow_children));
                }
                let cs = clone_nodes(children, Ghost(self));
                Node::OnOverflow { children: cs }
            },
        }
    }

    /// Whether the tree holds a button whose resolved focus state is true.
    pub fn contains_focus(&self) -> (r: bool)
        ensures
            r == contains_focus_spec(self@),
        decreases self,
    {
        broadcast use lemma_view_nodes;
        match self {
            Node::Button { focused, .. } => *focused,
            Node::Text(_) => false,
            Node::Flex { children, .. } => {
                proof {
                    assert(decreases_to!(*self => self->Flex_children));
                }
                any_focus(children, Ghost(self))
            },
            Node::OnOverflow { children } => {
                proof {
                    assert(decreases_to!(*self => self->OnOverflow_children));
                }
                any_focus(children, Ghost(self))
            },
        }
    }
}

fn clone_nodes(children: &Vec<Node>, Ghost(parent): Ghost<&Node>) -> (r: Vec<Node>)
    requires
        decreases_to!(*parent => *children),
    ensures
        view_nodes(r@) == view_nodes(children@),
    decreases parent, 0nat,
{
    broadcast use lemma_view_nodes;
    let mut out: Vec<Node> = Vec::new();
    let mut i: usize = 0;
    while i < children.len()
        invariant
            i <= children@.len(),
            out@.len() == i,
            decreases_to!(*parent => *children),
            forall|j: int| 0 <= j < i ==> #[trigger] out@[j]@ == children@[j]@,
        decreases children@.len() - i,
    {
        proof {
            assert(decreases_to!(*children => children@));
            assert(decreases_to!(children@ => children@[i as int]));
        }
        let c = children[i].deep_clone();
        out.push(c);
        i += 1;
    }
    proof {
        assert(view_nodes(out@) =~= view_nodes(children@));
    }
    out
}

fn any_focus(children: &Vec<Node>, Ghost(parent): Ghost<&Node>) -> (r: bool)
    requires
        decreases_to!(*parent => *children),
    ensures
        r == any_focus_from(view_nodes(children@), 0),
    decreases parent, 0nat,
{
    broadcast use lemma_view_nodes;
    let ghost cs = view_nodes(children@);
    let mut i: usize = 0;
    while i < children.len()
        invariant
            i <= children@.len(),
            cs == view_nodes(children@),
            decreases_to!(*parent => *children),
            any_focus_from(cs, 0) == any_focus_from(cs, i as int),
        decreases children@.len() - i,
    {
        proof {
            assert(decreases_to!(*children => children@));
            assert(decreases_to!(children@ => children@[i as int]));
        }
        proof {
            lemma_view_nodes(children@);
            assert(cs[i as int] == children@[i as int]@);
            assert(any_focus_from(cs, i as int) == (contains_focus_spec(cs[i as int]) || any_focus_from(cs, i as int + 1)));
        }
        if children[i].contains_focus() {
            return true;
        }
        i += 1;
    }
    false
}

} // verus!
