use zellij_template_render::chars::chars_of;
use zellij_template_render::error::LayoutError;
use zellij_template_render::helpers::{
    action_token, button_label, button_marker, check_button_label, decode_action_token, flex_header, flex_marker,
    on_overflow_marker, parse_choice, BasisArg, FlexArgs,
};
use zellij_template_render::markup::parse_nodes;
use zellij_template_render::node::{Align, Basis, Direction, Justify, Node, Overflow};
use zellij_template_render::{frame_from_markup, ButtonPresentation, RenderError, Viewport};

const MARKER: &str = "\u{e000}ZT:";
const MARKER_END: char = '\u{e001}';

#[derive(Clone, Debug, PartialEq, Eq)]
enum TestAction {
    New,
    Open(usize),
}

fn no_args() -> FlexArgs {
    FlexArgs {
        direction: None,
        grow: None,
        shrink: None,
        basis: BasisArg::Auto,
        gap: None,
        justify: None,
        align: None,
        overflow: None,
    }
}

#[test]
fn template_custom_template_parses_nested_flex_and_button() {
    let rendered = format!(
        "{MARKER}F|column|1|1|auto|2|center|stretch|normal{MARKER_END}{MARKER}B|0|1{MARKER_END}+{MARKER}/B{MARKER_END}{MARKER}/F{MARKER_END}"
    );
    let frame = frame_from_markup(&rendered, &vec![TestAction::New], Viewport { rows: 1, cols: 3 }, None).unwrap();
    assert_eq!(frame.hitboxes[0][0], Some(TestAction::New));
}

#[test]
fn parses_on_overflow_inside_flex() {
    let rendered = format!(
        "{MARKER}F|row|0|1|auto|0|start|start|scroll{MARKER_END}tabs{MARKER}O{MARKER_END}v{MARKER}/O{MARKER_END}{MARKER}/F{MARKER_END}"
    );
    let nodes = parse_nodes(&chars_of(&rendered), 0).unwrap();
    assert!(matches!(
        &nodes[0],
        Node::Flex { children, .. } if matches!(&children[1], Node::OnOverflow { .. })
    ));
}

#[test]
fn flex_marker_roundtrips_through_parser() {
    let mut args = no_args();
    args.direction = Some("column".to_string());
    args.grow = Some(3);
    args.basis = BasisArg::Cells(7);
    args.gap = Some(2);
    args.justify = Some("space-around".to_string());
    args.align = Some("stretch".to_string());
    args.overflow = Some("scroll".to_string());
    let header = flex_header(&args).unwrap();
    assert_eq!(header, format!("{MARKER}F|column|3|1|7|2|space-around|stretch|scroll{MARKER_END}"));
    let markup = flex_marker(&header, "x");
    let nodes = parse_nodes(&chars_of(&markup), 0).unwrap();
    match &nodes[0] {
        Node::Flex { spec, children } => {
            assert_eq!(spec.direction, Direction::Column);
            assert_eq!(spec.grow, 3);
            assert_eq!(spec.shrink, 1);
            assert_eq!(spec.basis, Basis::Cells(7));
            assert_eq!(spec.gap, 2);
            assert_eq!(spec.justify, Justify::SpaceAround);
            assert_eq!(spec.align, Align::Stretch);
            assert_eq!(spec.overflow, Overflow::Scroll);
            assert_eq!(children.len(), 1);
        },
        other => panic!("expected Flex, got {other:?}"),
    }
}

#[test]
fn flex_defaults_render_default_marker() {
    let header = flex_header(&no_args()).unwrap();
    assert_eq!(header, format!("{MARKER}F|row|0|1|auto|0|start|start|normal{MARKER_END}"));
}

#[test]
fn flex_rejects_invalid_choices_in_order() {
    let mut args = no_args();
    args.direction = Some("diagonal".to_string());
    args.justify = Some("left".to_string());
    let error = flex_header(&args).err().unwrap();
    assert_eq!(error.message(), "invalid operation: Flex direction has invalid value \"diagonal\"");
    let mut args = no_args();
    args.basis = BasisArg::Invalid;
    args.align = Some("middle".to_string());
    let error = flex_header(&args).err().unwrap();
    assert_eq!(error.message(), "invalid operation: Flex basis must be auto or an integer");
    let mut args = no_args();
    args.overflow = Some("hidden".to_string());
    let error = flex_header(&args).err().unwrap();
    assert_eq!(error.message(), "invalid operation: Flex overflow has invalid value \"hidden\"");
}

#[test]
fn parse_choice_accepts_listed_values_only() {
    assert_eq!(parse_choice("end", &["start", "end"], "align").unwrap(), "end");
    let error = parse_choice("x", &["start", "end"], "align").err().unwrap();
    assert_eq!(error, RenderError::InvalidOperation("Flex align has invalid value \"x\"".to_string()));
}

#[test]
fn button_marker_roundtrips_through_parser() {
    let token = action_token(1);
    let id = decode_action_token(&token, 2).unwrap();
    assert_eq!(id, 1);
    let markup = button_marker(id, &ButtonPresentation { label: "go".to_string(), focused: true });
    let frame = frame_from_markup(
        &markup,
        &vec![TestAction::Open(0), TestAction::Open(7)],
        Viewport { rows: 1, cols: 2 },
        None,
    )
    .unwrap();
    assert_eq!(frame.lines, ["go"]);
    assert_eq!(frame.hitboxes[0][0], Some(TestAction::Open(7)));
    assert_eq!(frame.hitboxes[0][1], Some(TestAction::Open(7)));
}

#[test]
fn action_tokens_must_name_recorded_actions() {
    let token = action_token(3);
    assert_eq!(token, "\u{e002}ZT:3");
    assert!(decode_action_token(&token, 3).is_err());
    assert!(decode_action_token("3", 5).is_err());
    let error = decode_action_token("\u{e002}ZT:x", 5).err().unwrap();
    assert_eq!(error.message(), "invalid operation: Button on_click must come from actions");
}

#[test]
fn button_labels_cannot_hold_layout_helpers() {
    assert!(check_button_label("plain").is_ok());
    let error = check_button_label(&format!("a{MARKER}O")).err().unwrap();
    assert_eq!(error.message(), "invalid operation: Button label cannot contain layout helpers");
}

#[test]
fn button_label_prefers_argument_then_body() {
    assert_eq!(button_label(Some("a".into()), Some("b".into())).unwrap(), "a");
    assert_eq!(button_label(None, Some("b".into())).unwrap(), "b");
    let error = button_label(None, None).err().unwrap();
    assert_eq!(error.message(), "missing argument: Button expects label or caller body");
}

#[test]
fn on_overflow_marker_wraps_body() {
    let markup = on_overflow_marker("v");
    assert_eq!(markup, format!("{MARKER}O{MARKER_END}v{MARKER}/O{MARKER_END}"));
    let error = parse_nodes(&chars_of(&markup), 0).err().unwrap();
    assert_eq!(error, LayoutError::OnOverflowOutsideFlex);
}

#[test]
fn malformed_markup_errors() {
    let unterminated = format!("{MARKER}F|row");
    assert_eq!(parse_nodes(&chars_of(&unterminated), 0).err(), Some(LayoutError::UnterminatedMarker));
    let unclosed = format!("{MARKER}O{MARKER_END}");
    assert_eq!(parse_nodes(&chars_of(&unclosed), 0).err(), Some(LayoutError::UnclosedHelper));
    let stray = format!("{MARKER}/F{MARKER_END}");
    assert_eq!(parse_nodes(&chars_of(&stray), 0).err(), Some(LayoutError::MismatchedClosingMarker));
    let unknown = format!("{MARKER}Q{MARKER_END}");
    assert_eq!(parse_nodes(&chars_of(&unknown), 0).err(), Some(LayoutError::UnknownMarker));
    let bad_action = format!("{MARKER}B|4|0{MARKER_END}x{MARKER}/B{MARKER_END}");
    assert_eq!(parse_nodes(&chars_of(&bad_action), 2).err(), Some(LayoutError::InvalidButtonActionMarker));
    let bad_focus = format!("{MARKER}B|0|2{MARKER_END}x{MARKER}/B{MARKER_END}");
    assert_eq!(parse_nodes(&chars_of(&bad_focus), 2).err(), Some(LayoutError::InvalidButtonFocusedMarker));
    let bad_grow = format!("{MARKER}F|row|x|1|auto|0|start|start|normal{MARKER_END}{MARKER}/F{MARKER_END}");
    assert_eq!(parse_nodes(&chars_of(&bad_grow), 0).err(), Some(LayoutError::InvalidFlexGrow));
}
