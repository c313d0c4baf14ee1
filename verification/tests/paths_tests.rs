use zellij_template_render::paths::{expand_home, include_path, normalize, prepare_external_template, resolve_external_path};

#[test]
fn external_template_mounts_parent_and_uses_guest_root_entry() {
    let pending =
        prepare_external_template(Some("~/.config/zellij/tab-bar/main.jinja"), Some("/var/home/q"), None).unwrap();
    assert_eq!(pending.host_folder, "/var/home/q/.config/zellij/tab-bar");
    assert_eq!(pending.entry, "/main.jinja");
}

#[test]
fn relative_external_templates_are_anchored_to_config_dir() {
    let pending = prepare_external_template(Some("bar/main.jinja"), Some("/home/q"), Some("/etc/zellij")).unwrap();
    assert_eq!(pending.host_folder, "/etc/zellij/bar");
    let pending = prepare_external_template(Some("main.jinja"), Some("/home/q"), None).unwrap();
    assert_eq!(pending.host_folder, "/home/q/.config/zellij");
    assert_eq!(pending.entry, "/main.jinja");
}

#[test]
fn external_template_setting_errors() {
    assert_eq!(prepare_external_template(None, None, None).err().unwrap(), "template_file is missing");
    assert_eq!(
        prepare_external_template(Some("main.jinja"), None, None).err().unwrap(),
        "relative template_file requires ZELLIJ_CONFIG_DIR or HOME"
    );
    assert_eq!(
        prepare_external_template(Some("~/main.jinja"), None, None).err().unwrap(),
        "cannot expand template path without a home directory"
    );
    assert_eq!(
        prepare_external_template(Some("/"), None, None).err().unwrap(),
        "template_file has no parent directory: /"
    );
    assert_eq!(
        prepare_external_template(Some("/a/.."), None, None).err().unwrap(),
        "template_file has no file name: /a/.."
    );
}

#[test]
fn normalize_resolves_dots_lexically() {
    assert_eq!(normalize("/templates/./parts/../main.jinja"), "/templates/main.jinja");
    assert_eq!(normalize("a//b/"), "a/b");
    assert_eq!(normalize("../x"), "x");
    assert_eq!(normalize("/.."), "/");
}

#[test]
fn home_expansion_in_entry_and_include_paths() {
    assert_eq!(expand_home("~/main.jinja", Some("/home/q")).unwrap(), "/home/q/main.jinja");
    assert_eq!(expand_home("/srv/main.jinja", None).unwrap(), "/srv/main.jinja");
    let error = expand_home("~/main.jinja", None).err().unwrap();
    assert_eq!(error.message(), "invalid operation: cannot expand template path without a home directory");
    assert_eq!(include_path("~/shared.jinja", "/home/q/main.jinja", Some("/home/q")), "/home/q/shared.jinja");
}

#[test]
fn includes_resolve_relative_to_including_template() {
    assert_eq!(include_path("parts/tab.jinja", "/templates/main.jinja", None), "/templates/parts/tab.jinja");
    assert_eq!(include_path("../x.jinja", "/templates/parts/tab.jinja", None), "/templates/x.jinja");
    assert_eq!(include_path("part.jinja", "main.jinja", None), "part.jinja");
    assert_eq!(include_path("~/x", "/t/main.jinja", None), "~/x");
}

#[test]
fn external_entry_paths_are_anchored_before_expansion() {
    assert_eq!(resolve_external_path("t/main.jinja", Some("/home/q"), None).unwrap(), "/home/q/.config/zellij/t/main.jinja");
    assert_eq!(resolve_external_path("t/main.jinja", None, Some("/cfg")).unwrap(), "/cfg/t/main.jinja");
    assert_eq!(resolve_external_path("~/main.jinja", None, None).unwrap(), "~/main.jinja");
    assert_eq!(resolve_external_path("/abs//main.jinja", None, None).unwrap(), "/abs//main.jinja");
    assert!(resolve_external_path("main.jinja", None, None).is_err());
}
