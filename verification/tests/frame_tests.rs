use std::time::Duration;
use zellij_template_render::{
    error_frame, frame_from_markup, hit_action, layout_error, screen_output, Frame, RenderError, Viewport,
};

#[derive(Clone, Debug, PartialEq, Eq)]
enum TestAction {
    Open(usize),
}

#[test]
fn lib_malformed_template_gets_visible_error_frame() {
    let frame: Frame<TestAction> = error_frame(&layout_error("bad layout"), Viewport { rows: 1, cols: 80 });
    assert!(frame.lines[0].contains("template error:"));
    assert!(frame.lines[0].contains("bad layout"));
}

#[test]
fn mod_malformed_template_gets_visible_error_frame() {
    let error = layout_error("bad layout");
    let frame: Frame<TestAction> = error_frame(&error, Viewport { rows: 1, cols: 80 });
    assert!(frame.lines[0].contains("template error:"));
    assert!(frame.lines[0].contains("bad layout"));
}

#[test]
fn error_frame_is_clipped_to_viewport() {
    let frame: Frame<TestAction> = error_frame(&layout_error("bad layout"), Viewport { rows: 3, cols: 10 });
    assert_eq!(frame.lines, ["template e"]);
    assert_eq!(frame.hitboxes.len(), 1);
    assert_eq!(frame.hitboxes[0].len(), 10);
    assert_eq!(frame.refresh_after, None);
    let empty: Frame<TestAction> = error_frame(&layout_error("x"), Viewport { rows: 0, cols: 10 });
    assert!(empty.lines.is_empty() && empty.hitboxes.is_empty());
}

#[test]
fn render_error_messages_name_their_kind() {
    assert_eq!(layout_error("boom").message(), "invalid operation: boom");
    assert_eq!(RenderError::Template("syntax error: x".into()).message(), "syntax error: x");
    assert_eq!(RenderError::MissingArgument("y".into()).message(), "missing argument: y");
}

#[test]
fn empty_viewport_renders_nothing() {
    let frame = frame_from_markup("abc", &Vec::<TestAction>::new(), Viewport { rows: 0, cols: 5 }, None).unwrap();
    assert_eq!(frame, Frame::default());
    assert!(Viewport { rows: 2, cols: 0 }.is_empty());
}

#[test]
fn frame_carries_refresh_request() {
    let frame = frame_from_markup(
        "x",
        &Vec::<TestAction>::new(),
        Viewport { rows: 1, cols: 2 },
        Some(Duration::from_millis(5)),
    )
    .unwrap();
    assert_eq!(frame.lines, ["x"]);
    assert_eq!(frame.refresh_after, Some(Duration::from_millis(5)));
}

#[test]
fn click_dispatches_only_on_button_cells() {
    let markup = "\u{e000}ZT:B|0|0\u{e001}ab\u{e000}ZT:/B\u{e001}";
    let frame = frame_from_markup(markup, &vec![TestAction::Open(4)], Viewport { rows: 2, cols: 4 }, None).unwrap();
    assert_eq!(hit_action(&frame, 0, 1), Some(TestAction::Open(4)));
    assert_eq!(hit_action(&frame, 0, 2), None);
    assert_eq!(hit_action(&frame, 1, 0), None);
    assert_eq!(hit_action(&frame, -1, 0), None);
    assert_eq!(hit_action(&frame, 0, 9), None);
}

#[test]
fn screen_output_clears_each_row() {
    let lines = vec!["a".to_string()];
    assert_eq!(screen_output(&lines, 2), "\u{1b}[2Ka\n\u{1b}[2K");
    assert_eq!(screen_output(&lines, 0), "");
}

#[test]
fn hitboxes_only_hold_button_actions() {
    let markup = "x\u{e000}ZT:B|1|0\u{e001}go\u{e000}ZT:/B\u{e001}y";
    let actions = vec![TestAction::Open(7), TestAction::Open(9)];
    let frame = frame_from_markup(markup, &actions, Viewport { rows: 1, cols: 6 }, None).unwrap();
    let clicked: Vec<TestAction> = frame.hitboxes.iter().flatten().flatten().cloned().collect();
    assert_eq!(clicked, vec![TestAction::Open(9), TestAction::Open(9)]);
    assert_eq!(hit_action(&frame, 0, 0), None);
    assert_eq!(hit_action(&frame, 0, 3), None);
}
