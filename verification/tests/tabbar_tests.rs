use zellij_template_render::actions::BuiltinAction;
use zellij_template_render::host::ThemeColor;
use zellij_template_render::paths::ExternalTemplate;
use zellij_template_render::tabbar::{
    button_focus, button_style, find_tab, mount_step, positions_fit_all, present_button, ButtonPalette, MountEvent,
    MountStep, PaletteSlot, TabModel, should_repaint, TabBarUpdate,
};

fn tab(position: usize, active: bool) -> TabModel {
    TabModel {
        position,
        active,
        is_fullscreen_active: false,
        is_sync_panes_active: false,
        has_bell_notification: false,
        is_flashing_bell: false,
    }
}

#[test]
fn missing_explicit_focus_still_follows_active_tab() {
    let tabs = vec![tab(0, true), tab(1, false)];
    assert!(button_focus(None, &BuiltinAction::FocusTab(1), &tabs));
    assert!(!button_focus(None, &BuiltinAction::FocusTab(2), &tabs));
    assert!(button_focus(Some(true), &BuiltinAction::NewTab, &tabs));
    assert!(!button_focus(None, &BuiltinAction::NewTab, &tabs));
}

#[test]
fn tab_labels_show_state_markers() {
    let mut t = tab(0, true);
    t.is_fullscreen_active = true;
    t.has_bell_notification = true;
    let style = button_style("one", &BuiltinAction::FocusTab(1), true, &vec![t], false).unwrap();
    assert_eq!(style.text, " one (FULLSCREEN) [!] ");
    assert_eq!(style.foreground, PaletteSlot::SelectedEmphasis3);
    assert_eq!(style.background, PaletteSlot::SelectedBackground);
    assert_eq!(style.fill, PaletteSlot::TextUnselectedBackground);
    assert_eq!(style.separator, "\u{e0b0}");
}

#[test]
fn alternate_backgrounds_need_arrow_fonts() {
    let tabs = vec![tab(0, false), tab(1, false)];
    let even = button_style("two", &BuiltinAction::FocusTab(2), false, &tabs, true).unwrap();
    assert_eq!(even.background, PaletteSlot::UnselectedEmphasis1);
    assert_eq!(even.separator, "");
    let odd = button_style("one", &BuiltinAction::FocusTab(1), false, &tabs, true).unwrap();
    assert_eq!(odd.background, PaletteSlot::UnselectedBackground);
    let new_tab = button_style("+", &BuiltinAction::NewTab, false, &tabs, true).unwrap();
    assert_eq!(new_tab.background, PaletteSlot::UnselectedBackground);
    assert_eq!(new_tab.text, " + ");
}

#[test]
fn focus_tab_buttons_need_an_existing_tab() {
    let tabs = vec![tab(0, true)];
    assert_eq!(find_tab(&tabs, 1).unwrap(), 0);
    let error = button_style("x", &BuiltinAction::FocusTab(5), false, &tabs, false).err().unwrap();
    assert_eq!(error.message(), "invalid operation: focus_tab index does not exist");
}

#[test]
fn mounting_an_external_template_follows_host_events() {
    let template = ExternalTemplate { host_folder: "/h/t".to_string(), entry: "/main.jinja".to_string() };
    let mut pending = Some(template.clone());
    assert_eq!(mount_step(&mut pending, MountEvent::PermissionGranted), MountStep::ChangeHostFolder("/h/t".into()));
    assert_eq!(pending, Some(template.clone()));
    assert_eq!(mount_step(&mut pending, MountEvent::HostFolderChanged), MountStep::LoadRenderer);
    assert_eq!(pending, None);
    assert_eq!(mount_step(&mut pending, MountEvent::HostFolderChanged), MountStep::Nothing);
    let mut pending = Some(template.clone());
    assert_eq!(
        mount_step(&mut pending, MountEvent::PermissionDenied),
        MountStep::Fail("template_file requires FullHdAccess permission".into())
    );
    let mut pending = Some(template);
    assert_eq!(
        mount_step(&mut pending, MountEvent::MountFailed(None)),
        MountStep::Fail("failed to mount host filesystem for template_file".into())
    );
}

#[test]
fn last_usize_position_has_no_index() {
    assert!(positions_fit_all(&vec![tab(0, true)]));
    assert!(!positions_fit_all(&vec![tab(usize::MAX, false)]));
}

#[test]
fn presented_buttons_are_painted_in_palette_colours() {
    let palette = ButtonPalette {
        text_unselected_background: ThemeColor::EightBit(0),
        selected_base: ThemeColor::EightBit(1),
        selected_background: ThemeColor::Rgb(10, 20, 30),
        selected_emphasis_3: ThemeColor::EightBit(3),
        unselected_base: ThemeColor::EightBit(4),
        unselected_background: ThemeColor::EightBit(5),
        unselected_emphasis_1: ThemeColor::EightBit(6),
        unselected_emphasis_3: ThemeColor::EightBit(7),
    };
    let tabs = vec![tab(0, true)];
    let presented = present_button("one", &BuiltinAction::FocusTab(1), None, &tabs, &palette, false).unwrap();
    assert!(presented.focused);
    assert!(presented.label.contains(" one "));
    assert!(presented.label.contains("48;2;10;20;30"));
    assert!(presented.label.contains('\u{e0b0}'));
    assert_eq!(
        presented.label,
        "\u{1b}[48;2;10;20;30;38;5;0m\u{e0b0}\u{1b}[1;38;5;1m one \u{1b}[0m\u{1b}[48;5;0;38;2;10;20;30m\u{e0b0}\u{1b}[0m"
    );
    assert!(present_button("x", &BuiltinAction::FocusTab(9), None, &tabs, &palette, false).is_err());
}

#[test]
fn repaints_follow_tabs_and_changes() {
    assert!(should_repaint(TabBarUpdate::Tabs, false));
    assert!(should_repaint(TabBarUpdate::Mount, false));
    assert!(should_repaint(TabBarUpdate::Mode { changed: true }, true));
    assert!(!should_repaint(TabBarUpdate::Mode { changed: true }, false));
    assert!(!should_repaint(TabBarUpdate::Mode { changed: false }, true));
    assert!(should_repaint(TabBarUpdate::Timer { expired: true }, true));
    assert!(!should_repaint(TabBarUpdate::Timer { expired: true }, false));
    assert!(!should_repaint(TabBarUpdate::Panes, true));
    assert!(!should_repaint(TabBarUpdate::Click, true));
    assert!(!should_repaint(TabBarUpdate::Other, true));
}
