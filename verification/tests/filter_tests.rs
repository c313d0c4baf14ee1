use zellij_template_render::clock::{
    chrono_pattern, clock_elapsed_fits, clock_text, clock_refresh_nanos, clock_zone, format_time_in_timezone, merge_refresh,
};
use zellij_template_render::error::LayoutError;
use zellij_template_render::filters::{background, bold, color_escape, dim, foreground};

#[test]
fn theme_filters_validate_color_shape() {
    assert!(foreground("x", "rgb:1,2,3").unwrap().contains("\u{1b}[38;2;1;2;3m"));
    assert!(background("x", "red").is_err());
}

#[test]
fn colour_filters_wrap_text_and_reset_channel() {
    assert_eq!(foreground("x", "index:208").unwrap(), "\u{1b}[38;5;208mx\u{1b}[39m");
    assert_eq!(background("x", "rgb:255,0,9").unwrap(), "\u{1b}[48;2;255;0;9mx\u{1b}[49m");
}

#[test]
fn colour_tokens_need_three_byte_channels_or_a_byte_index() {
    assert_eq!(color_escape("rgb:256,0,0", false), Err(LayoutError::InvalidColor));
    assert_eq!(color_escape("rgb:1,2", false), Err(LayoutError::InvalidColor));
    assert_eq!(color_escape("rgb:1,2,3,4", false), Err(LayoutError::InvalidColor));
    assert_eq!(color_escape("index:256", true), Err(LayoutError::InvalidColor));
    assert_eq!(color_escape("index:", true), Err(LayoutError::InvalidColor));
    assert_eq!(color_escape("index:007", true).unwrap(), "\u{1b}[48;5;7m");
    assert_eq!(color_escape("rgb:+1,02,3", false), Err(LayoutError::InvalidColor));
    assert_eq!(color_escape("index:+7", true), Err(LayoutError::InvalidColor));
    assert_eq!(color_escape("rgb:1,02,3", false).unwrap(), "\u{1b}[38;2;1;02;3m");
    assert_eq!(LayoutError::InvalidColor.message(), "color must be rgb:R,G,B or index:N");
}

#[test]
fn bold_and_dim_toggle_intensity() {
    assert_eq!(bold("b"), "\u{1b}[1mb\u{1b}[22m");
    assert_eq!(dim("d"), "\u{1b}[2md\u{1b}[22m");
}

#[test]
fn clock_aliases_become_strftime_directives() {
    assert_eq!(chrono_pattern("YYYY-MM-DD HH:MM:SS"), "%Y-%M-DD %H:%M:%S");
    assert_eq!(chrono_pattern("YYYYY"), "%%y");
    assert_eq!(chrono_pattern("YY %d"), "%y %d");
}

#[test]
fn clock_refresh_waits_for_next_second_or_minute() {
    assert_eq!(clock_refresh_nanos("HH:MM:SS", 12, 250_000_000), 750_000_000);
    assert_eq!(clock_refresh_nanos("%H:%M:%S", 0, 0), 1_000_000_000);
    assert_eq!(clock_refresh_nanos("HH:MM", 30, 0), 30_000_000_000);
    assert_eq!(clock_refresh_nanos("HH:MM", 59, 999_999_999), 1);
}

#[test]
fn earliest_refresh_wins() {
    assert_eq!(merge_refresh(None, 5), 5);
    assert_eq!(merge_refresh(Some(3), 5), 3);
    assert_eq!(merge_refresh(Some(9), 5), 5);
}

#[test]
fn clock_zone_prefers_argument_then_env() {
    assert_eq!(clock_zone(Some("UTC"), Some("America/New_York")), "UTC");
    assert_eq!(clock_zone(None, Some("America/New_York")), "America/New_York");
    assert_eq!(clock_zone(None, None), "UTC");
}

#[test]
fn clock_formats_in_named_zone() {
    assert_eq!(format_time_in_timezone(0, "%z", "UTC").unwrap(), "+0000");
    assert_eq!(format_time_in_timezone(0, "YYYY-MM-DD HH", "UTC").unwrap(), "1970-00-DD 00");
    assert_ne!(format_time_in_timezone(0, "%z", "America/New_York").unwrap(), "+0000");
    let error = format_time_in_timezone(0, "%z", "Mars/Base").err().unwrap();
    assert_eq!(error.message(), "invalid operation: invalid clock timezone \"Mars/Base\"");
}

#[test]
fn clock_reports_unrepresentable_times() {
    let error = format_time_in_timezone(i64::MAX, "%Y", "UTC").err().unwrap();
    assert_eq!(error.message(), "invalid operation: invalid system time");
    let error = zellij_template_render::clock::format_time(i64::MAX, "%Y").err().unwrap();
    assert_eq!(error.message(), "invalid operation: invalid system time");
}

#[test]
fn local_time_filter_formats_years() {
    let year = zellij_template_render::clock::format_time(0, "YYYY").unwrap();
    assert!(year == "1970" || year == "1969");
}

#[test]
fn leap_seconds_can_pass_the_refresh_period() {
    assert!(clock_elapsed_fits("HH:MM:SS", 59, 999_999_999));
    assert!(!clock_elapsed_fits("HH:MM:SS", 59, 1_500_000_000));
    assert!(clock_elapsed_fits("HH:MM", 59, 1_000_000_000));
    assert!(!clock_elapsed_fits("HH:MM", 59, 1_000_000_001));
}

#[test]
fn clock_text_is_absent_where_chrono_cannot_format() {
    assert!(clock_text(0, "%Q", "UTC").is_none());
    assert_eq!(clock_text(0, "HH:MM", "UTC").unwrap().unwrap(), "00:00");
    assert!(clock_text(0, "%Q", "Nowhere/Place").unwrap().is_err());
}

#[test]
fn local_format_keeps_text_without_specifiers() {
    let noon = zellij_template_render::clock::format_time(0, "at noon").unwrap();
    assert_eq!(noon, "at noon");
    let empty = zellij_template_render::clock::format_time(1_700_000_000, "").unwrap();
    assert_eq!(empty, "");
}
