use fire_ssr::module::{
    extension_kind, module_file, module_kind, relative_path, strip_root, ModuleKind,
};

#[test]
fn a_file_url_is_read_below_the_root() {
    assert_eq!(module_file("file:///lib/a.js"), Ok("lib/a.js".to_string()));
    assert_eq!(module_file("file:///with%20space.json"), Ok("with space.json".to_string()));
    assert_eq!(module_file("file:///"), Ok("".to_string()));
}

#[test]
fn a_path_that_is_not_text_names_no_file() {
    assert_eq!(module_file("file:///%ff"), Ok("".to_string()));
}

#[test]
fn a_host_is_no_file() {
    assert_eq!(
        module_file("https://example.com/a.js"),
        Err("Provided module specifier \"https://example.com/a.js\" is not a file URL.".to_string())
    );
    assert_eq!(
        module_file("data:text/javascript,1"),
        Err("Provided module specifier \"data:text/javascript,1\" is not a file URL.".to_string())
    );
}

#[test]
fn what_is_no_url_is_no_file() {
    assert_eq!(
        module_file("a.js"),
        Err("Provided module specifier \"a.js\" is not a file URL.".to_string())
    );
}

#[test]
fn the_first_byte_is_dropped() {
    assert_eq!(strip_root("/a/b"), "a/b");
    assert_eq!(strip_root("/\u{fc}"), "\u{fc}");
    assert_eq!(strip_root("x"), "");
    assert_eq!(strip_root(""), "");
    assert_eq!(strip_root("\u{fc}a"), "");
}

#[test]
fn the_relative_path_follows_from_the_path() {
    assert_eq!(relative_path("s", Some(Some("/m.js".to_string()))), Ok("m.js".to_string()));
    assert_eq!(relative_path("s", Some(None)), Ok("".to_string()));
    assert_eq!(
        relative_path("s", None),
        Err("Provided module specifier \"s\" is not a file URL.".to_string())
    );
}

#[test]
fn only_json_is_json() {
    assert_eq!(module_kind("/srv/data.json"), ModuleKind::Json);
    assert_eq!(module_kind("/srv/data.JSON"), ModuleKind::JavaScript);
    assert_eq!(module_kind("/srv/.json"), ModuleKind::JavaScript);
    assert_eq!(module_kind("/srv/data.json.js"), ModuleKind::JavaScript);
    assert_eq!(module_kind("..json"), ModuleKind::Json);
    assert_eq!(module_kind("/srv/data."), ModuleKind::JavaScript);
    assert_eq!(module_kind("/srv.json/data"), ModuleKind::JavaScript);
    assert_eq!(module_kind("/srv/data"), ModuleKind::JavaScript);
    assert_eq!(module_kind(""), ModuleKind::JavaScript);
}

#[test]
fn the_kind_follows_from_the_extension() {
    assert_eq!(extension_kind(Some("json".to_string())), ModuleKind::Json);
    assert_eq!(extension_kind(Some("js".to_string())), ModuleKind::JavaScript);
    assert_eq!(extension_kind(None), ModuleKind::JavaScript);
}
