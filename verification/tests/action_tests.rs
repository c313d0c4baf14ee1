use zellij_template_render::actions::{
    coordinate_argument, decode_focus_session, decode_focus_tab, decode_new_tab, decode_run_shell_cmd, focus_pane_action,
    focus_pane_id, plugin_message_target, run_plugin_coordinates, run_plugin_url, ArgValue, OpenPlugins, BuiltinAction, Coordinate, PaneCoordinates,
};

fn text(s: &str) -> ArgValue {
    ArgValue { text: Some(s.to_string()), integer: None, size: None }
}

fn integer(i: i64) -> ArgValue {
    ArgValue { text: None, integer: Some(i), size: usize::try_from(i).ok() }
}

fn run_plugin(url: &ArgValue, x: Option<&ArgValue>, y: Option<&ArgValue>, w: Option<&ArgValue>, h: Option<&ArgValue>) -> BuiltinAction {
    let url = run_plugin_url(&vec![url.clone()]).unwrap();
    let coordinates = run_plugin_coordinates(x, y, w, h).unwrap();
    BuiltinAction::RunPlugin { url, coordinates }
}

#[test]
fn plugin_action_defaults_to_centered_half_screen() {
    let action = run_plugin(&text("session-manager"), None, None, None, None);
    assert_eq!(
        action,
        BuiltinAction::RunPlugin {
            url: "session-manager".to_string(),
            coordinates: PaneCoordinates {
                x: None,
                y: None,
                width: Some(Coordinate::Percent(50)),
                height: Some(Coordinate::Percent(50)),
            },
        }
    );
}

#[test]
fn plugin_action_accepts_fixed_and_percent_coordinates() {
    let action = run_plugin(&text("session-manager"), Some(&integer(0)), Some(&integer(0)), Some(&integer(32)), Some(&text("100%")));
    assert_eq!(
        action,
        BuiltinAction::RunPlugin {
            url: "session-manager".to_string(),
            coordinates: PaneCoordinates {
                x: Some(Coordinate::Fixed(0)),
                y: Some(Coordinate::Fixed(0)),
                width: Some(Coordinate::Fixed(32)),
                height: Some(Coordinate::Percent(100)),
            },
        }
    );
}

#[test]
fn coordinates_are_validated() {
    let error = coordinate_argument(Some(&text("101%")), "w", None, false).err().unwrap();
    assert_eq!(error.message(), "invalid operation: invalid w coordinate");
    assert!(coordinate_argument(Some(&integer(0)), "h", None, false).is_err());
    assert!(coordinate_argument(Some(&text("0%")), "w", None, false).is_err());
    assert!(coordinate_argument(Some(&integer(-1)), "x", None, true).is_err());
    assert!(coordinate_argument(Some(&text("5%%")), "x", None, true).is_err());
    assert_eq!(coordinate_argument(Some(&text("+5")), "x", None, true).unwrap(), Some(Coordinate::Fixed(5)));
}

#[test]
fn focus_actions_decode_their_arguments() {
    assert_eq!(decode_focus_tab(&vec![integer(2)]).unwrap(), BuiltinAction::FocusTab(2));
    assert_eq!(
        decode_focus_tab(&vec![text("2")]).err().unwrap().message(),
        "invalid operation: focus_tab expects an integer index"
    );
    assert_eq!(
        decode_focus_tab(&vec![integer(2), integer(3)]).err().unwrap().message(),
        "invalid operation: focus_tab expects one integer index"
    );
    assert_eq!(decode_focus_session(&vec![]).unwrap(), BuiltinAction::FocusSession(None));
    assert_eq!(
        decode_focus_session(&vec![text("work")]).unwrap(),
        BuiltinAction::FocusSession(Some("work".to_string()))
    );
    assert!(decode_focus_session(&vec![text("")]).is_err());
    assert!(decode_focus_session(&vec![text("a"), text("b")]).is_err());
    assert_eq!(decode_new_tab(&vec![]).unwrap(), BuiltinAction::NewTab);
    assert!(decode_new_tab(&vec![integer(1)]).is_err());
}

#[test]
fn focus_pane_needs_one_u32_id() {
    assert_eq!(focus_pane_id(&vec![integer(7)]).unwrap(), 7);
    assert!(focus_pane_id(&vec![]).is_err());
    assert!(focus_pane_id(&vec![integer(4_294_967_296)]).is_err());
    assert_eq!(
        focus_pane_action(7, None, None, true),
        BuiltinAction::FocusTerminalPane { id: 7, should_float_if_hidden: true, should_be_in_place_if_hidden: false }
    );
    assert_eq!(
        focus_pane_action(7, Some(false), Some(true), false),
        BuiltinAction::FocusPluginPane { id: 7, should_float_if_hidden: false, should_be_in_place_if_hidden: true }
    );
}

#[test]
fn shell_commands_and_messages_need_strings() {
    match decode_run_shell_cmd(&vec![text("ls"), text("-l")]).unwrap() {
        BuiltinAction::RunShellCommand { command, context } => {
            assert_eq!(command, ["ls", "-l"]);
            assert!(context.is_empty());
        },
        other => panic!("unexpected {other:?}"),
    }
    assert!(decode_run_shell_cmd(&vec![]).is_err());
    assert_eq!(
        decode_run_shell_cmd(&vec![text("ls"), integer(1)]).err().unwrap().message(),
        "invalid operation: run_shell_cmd expects string arguments"
    );
    let (url, name) = plugin_message_target(&vec![text("u"), text("m")]).unwrap();
    assert_eq!((url.as_str(), name.as_str()), ("u", "m"));
    assert!(plugin_message_target(&vec![text("u")]).is_err());
}

#[test]
fn run_plugin_reports_the_first_invalid_coordinate() {
    let zero = integer(0);
    let bad = text("x%");
    let error = run_plugin_coordinates(Some(&zero), Some(&bad), Some(&zero), None).err().unwrap();
    assert_eq!(error.message(), "invalid operation: invalid y coordinate");
    let error = run_plugin_coordinates(Some(&zero), None, Some(&zero), None).err().unwrap();
    assert_eq!(error.message(), "invalid operation: invalid w coordinate");
    let fixed = run_plugin_coordinates(Some(&zero), Some(&zero), None, Some(&integer(3))).unwrap();
    assert_eq!(
        fixed,
        PaneCoordinates {
            x: Some(Coordinate::Fixed(0)),
            y: Some(Coordinate::Fixed(0)),
            width: Some(Coordinate::Percent(50)),
            height: Some(Coordinate::Fixed(3)),
        }
    );
}

#[test]
fn launched_plugins_are_reused_while_open() {
    let mut open = OpenPlugins::new();
    assert_eq!(open.plugin_for("zellij:session-manager"), None);
    open.record("zellij:session-manager".to_string(), 4);
    open.record("file:/tmp/a.wasm".to_string(), 9);
    assert_eq!(open.plugin_for("zellij:session-manager"), Some(4));
    open.record("zellij:session-manager".to_string(), 5);
    assert_eq!(open.plugin_for("zellij:session-manager"), Some(5));
    open.retain_alive(&vec![9, 12]);
    assert_eq!(open.plugin_for("zellij:session-manager"), None);
    assert_eq!(open.plugin_for("file:/tmp/a.wasm"), Some(9));
}
