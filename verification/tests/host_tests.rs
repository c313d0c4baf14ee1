use std::collections::BTreeMap;
use zellij_template_render::host::{
    color_token, template_choice, variable_names, TemplateChoice, TemplateEnvironment, TemplateTheme, ThemeColor,
    ThemeColors,
};
use zellij_template_render::filters::foreground;

fn colors(text: ThemeColor, active_text: ThemeColor) -> ThemeColors {
    let zero = ThemeColor::EightBit(0);
    ThemeColors {
        text,
        background: zero,
        active_text,
        active_background: zero,
        muted_text: zero,
        muted_background: zero,
        alert: ThemeColor::Rgb(1, 2, 3),
    }
}

#[test]
fn mode_info_maps_zellij_colors_to_template_tokens() {
    let theme = TemplateTheme::from_colors(&colors(ThemeColor::EightBit(42), ThemeColor::Rgb(1, 2, 3)));
    assert_eq!(theme.text, "index:42");
    assert_eq!(theme.active_text, "rgb:1,2,3");
    assert_eq!(theme.alert, "rgb:1,2,3");
}

#[test]
fn theme_tokens_are_accepted_by_colour_filters() {
    let token = color_token(ThemeColor::Rgb(255, 0, 17));
    assert_eq!(token, "rgb:255,0,17");
    assert_eq!(foreground("x", &token).unwrap(), "\u{1b}[38;2;255;0;17mx\u{1b}[39m");
    let index = color_token(ThemeColor::EightBit(7));
    assert_eq!(foreground("x", &index).unwrap(), "\u{1b}[38;5;7mx\u{1b}[39m");
}

#[test]
fn conflicting_template_settings_are_rejected() {
    let error = template_choice(Some("inline"), Some("/tmp/main.jinja")).err().unwrap();
    assert_eq!(
        error.message(),
        "invalid operation: template and template_file cannot be configured together"
    );
}

#[test]
fn template_choice_follows_settings() {
    assert_eq!(template_choice(Some("inline"), None).unwrap(), TemplateChoice::Inline("inline".into()));
    assert_eq!(
        template_choice(None, Some("main.jinja")).unwrap(),
        TemplateChoice::File("main.jinja".into())
    );
    assert_eq!(template_choice(None, None).unwrap(), TemplateChoice::Embedded);
}

#[test]
fn environment_allowlist_defaults_and_trims() {
    assert_eq!(variable_names(None), ["TZ", "LANG", "TERM"]);
    assert_eq!(variable_names(Some(" HOME , ,TZ\t,")), ["HOME", "TZ"]);
    assert!(variable_names(Some("")).is_empty());
}

#[test]
fn environment_keeps_given_values() {
    let values = BTreeMap::from([("TZ".to_string(), "Etc/UTC".to_string())]);
    let environment = TemplateEnvironment::from_values(values.clone());
    assert_eq!(environment.values(), &values);
}
