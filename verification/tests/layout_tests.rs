use zellij_template_render::canvas::Canvas;
use zellij_template_render::chars::chars_of;
use zellij_template_render::layout::{distribute, layout};
use zellij_template_render::node::{Direction, FlexSpec, Node, Overflow};
use zellij_template_render::paint::text_canvas;

#[derive(Clone, Debug, PartialEq, Eq)]
enum TestAction {
    Switch(usize),
    New,
}

fn text(s: &str) -> Node {
    Node::Text(s.chars().collect())
}

fn plain_button(label: &str, action: usize, focused: bool) -> Node {
    Node::Button {
        action,
        focused,
        label: label.chars().collect(),
    }
}

fn frame(node: &Node, width: usize, height: usize, actions: &[TestAction]) -> (Vec<String>, Vec<Vec<Option<TestAction>>>) {
    let canvas = layout(node, width, height).unwrap();
    let hitboxes = canvas
        .action_ids()
        .into_iter()
        .map(|row| row.into_iter().map(|id| id.map(|id| actions[id].clone())).collect())
        .collect();
    (canvas.lines(), hitboxes)
}

#[test]
fn layout_scroll_keeps_focused_button_visible() {
    let mut spec = FlexSpec::new();
    spec.gap = 2;
    spec.overflow = Overflow::Scroll;
    let node = Node::Flex {
        spec,
        children: vec![plain_button("one", 0, false), plain_button("two", 1, true)],
    };
    let (lines, _) = frame(&node, 3, 1, &[TestAction::Switch(1), TestAction::Switch(2)]);
    assert_eq!(lines[0], "two");
}

#[test]
fn on_overflow_is_hidden_when_content_fits() {
    let mut spec = FlexSpec::new();
    spec.overflow = Overflow::Scroll;
    let node = Node::Flex {
        spec,
        children: vec![text("tabs"), Node::OnOverflow { children: vec![text("v")] }],
    };
    let (lines, _) = frame(&node, 5, 1, &[]);
    assert_eq!(lines[0], "tabs");
}

#[test]
fn on_overflow_is_fixed_and_clickable_when_content_overflows() {
    let mut spec = FlexSpec::new();
    spec.overflow = Overflow::Scroll;
    let node = Node::Flex {
        spec,
        children: vec![
            text("abcdef"),
            Node::OnOverflow { children: vec![plain_button("v", 0, false)] },
        ],
    };
    let (lines, hitboxes) = frame(&node, 5, 1, &[TestAction::New]);
    assert_eq!(lines[0], "abcdv");
    assert_eq!(hitboxes[0][4], Some(TestAction::New));
}

#[test]
fn layout_click_hitboxes_are_two_dimensional() {
    let mut spec = FlexSpec::new();
    spec.direction = Direction::Column;
    let node = Node::Flex {
        spec,
        children: vec![plain_button("a", 0, false), plain_button("+", 1, false)],
    };
    let (_, hitboxes) = frame(&node, 2, 2, &[TestAction::Switch(1), TestAction::New]);
    assert_eq!(hitboxes[0][0], Some(TestAction::Switch(1)));
    assert_eq!(hitboxes[1][0], Some(TestAction::New));
}

#[test]
fn layout_clipped_ansi_text_keeps_each_visible_cell_styled() {
    let source = chars_of("\u{1b}[31mabc\u{1b}[0m");
    let canvas = text_canvas(&source, 3, 1, None).unwrap();
    let mut clipped = Canvas::new(1, 1);
    clipped.blit_from(&canvas, 0, 0, 1, 0, 1, 1);
    let lines = clipped.lines();
    assert!(lines[0].starts_with("\u{1b}[31m"));
    assert!(lines[0].ends_with("\u{1b}[0m"));
    assert!(lines[0].contains('b'));
}

#[test]
fn flex_grow_allocates_remaining_cells() {
    let mut grow = FlexSpec::new();
    grow.grow = 1;
    let node = Node::Flex {
        spec: FlexSpec::new(),
        children: vec![text("a"), Node::Flex { spec: grow, children: vec![text("b")] }],
    };
    let canvas = layout(&node, 5, 1).unwrap();
    assert_eq!(canvas.width(), 5);
    let a: String = canvas.cells[0][0].text.iter().collect();
    let b: String = canvas.cells[0][1].text.iter().collect();
    assert_eq!(a, "a");
    assert_eq!(b, "b");
}

#[test]
fn flex_gap_inserts_cells_between_children() {
    let mut spec = FlexSpec::new();
    spec.gap = 2;
    let node = Node::Flex {
        spec,
        children: vec![
            Node::Flex { spec: FlexSpec::new(), children: vec![text("a")] },
            Node::Flex { spec: FlexSpec::new(), children: vec![text("b")] },
        ],
    };
    let (lines, _) = frame(&node, 4, 1, &[]);
    assert_eq!(lines[0], "a  b");
}

#[test]
fn grow_fills_the_row_and_pushes_right_edge() {
    let mut grow = FlexSpec::new();
    grow.grow = 1;
    let node = Node::Flex {
        spec: FlexSpec::new(),
        children: vec![
            Node::Flex { spec: grow, children: vec![text("left")] },
            text("R"),
        ],
    };
    let (lines, _) = frame(&node, 10, 1, &[]);
    assert_eq!(lines[0], "left     R");
}

#[test]
fn layout_frame_has_viewport_dimensions() {
    let node = Node::Flex { spec: FlexSpec::new(), children: vec![text("a\nb\nc")] };
    let (lines, hitboxes) = frame(&node, 4, 2, &[]);
    assert_eq!(lines.len(), 2);
    assert_eq!(hitboxes.len(), 2);
    assert!(hitboxes.iter().all(|row| row.len() == 4));
    assert_eq!(lines, ["a", "b"]);
}

#[test]
fn tabs_in_text_are_rejected() {
    let node = Node::Flex { spec: FlexSpec::new(), children: vec![text("a\tb")] };
    let error = layout(&node, 4, 1).err().unwrap();
    assert_eq!(error.message(), "template text cannot contain tabs or carriage returns");
}

#[test]
fn wide_characters_take_two_cells() {
    let node = Node::Flex { spec: FlexSpec::new(), children: vec![text("日x")] };
    let (lines, _) = frame(&node, 3, 1, &[]);
    assert_eq!(lines[0], "日x");
}

#[test]
fn wide_character_line_fills_its_hitbox_columns() {
    let node = Node::Flex { spec: FlexSpec::new(), children: vec![text("中a")] };
    let (lines, hitboxes) = frame(&node, 3, 1, &[]);
    assert_eq!(lines[0], "中a");
    assert_eq!(hitboxes[0].len(), 3);
}

#[test]
fn shrinking_takes_back_only_weighted_cells() {
    let mut sizes = vec![5, 5];
    distribute(&mut sizes, &vec![1, 0], 3, false);
    assert_eq!(sizes, vec![2, 5]);
    let mut sizes = vec![5, 5, 4];
    distribute(&mut sizes, &vec![1, 0, 2], 20, false);
    assert_eq!(sizes, vec![0, 5, 0]);
    let mut sizes = vec![1, 2];
    distribute(&mut sizes, &vec![0, 0], 7, true);
    assert_eq!(sizes, vec![1, 2]);
    let mut sizes = vec![1, 2];
    distribute(&mut sizes, &vec![2, 1], 4, true);
    assert_eq!(sizes, vec![4, 3]);
}

#[test]
fn clipped_wide_characters_become_blanks() {
    let source = chars_of("日x");
    let painted = text_canvas(&source, 3, 1, Some(4)).unwrap();
    assert_eq!(painted.lines(), vec!["日x".to_string()]);
    assert_eq!(painted.action_ids(), vec![vec![Some(4), Some(4), Some(4)]]);

    let mut cut_right = Canvas::new(3, 1);
    cut_right.blit_from(&painted, 0, 0, 0, 0, 1, 1);
    assert_eq!(cut_right.lines(), vec!["".to_string()]);
    assert_eq!(cut_right.action_ids(), vec![vec![Some(4), None, None]]);

    let mut cut_left = Canvas::new(3, 1);
    cut_left.blit_from(&painted, 0, 0, 1, 0, 2, 1);
    assert_eq!(cut_left.lines(), vec![" x".to_string()]);
    assert_eq!(cut_left.action_ids(), vec![vec![Some(4), Some(4), None]]);
}
