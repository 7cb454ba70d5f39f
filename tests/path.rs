use json_engine::path::{get_file_name, is_json_file};

#[test]
fn json_extension_in_any_case() {
    assert!(is_json_file(String::from("/home/u/data.json")));
    assert!(is_json_file(String::from("C:/docs/Report.JSON")));
    assert!(is_json_file(String::from("mixed.JsOn")));
}

#[test]
fn other_extensions_are_not_json() {
    assert!(!is_json_file(String::from("notes.txt")));
    assert!(!is_json_file(String::from("data.json5")));
    assert!(!is_json_file(String::from("json")));
    assert!(!is_json_file(String::from(".json")));
    assert!(!is_json_file(String::from("")));
}

#[test]
fn file_name_is_last_component() {
    assert_eq!(get_file_name(String::from("/a/b/c.json")), Some(String::from("c.json")));
    assert_eq!(get_file_name(String::from("plain")), Some(String::from("plain")));
    assert_eq!(get_file_name(String::from("dir/sub/")), Some(String::from("sub")));
}

#[test]
fn no_file_name() {
    assert_eq!(get_file_name(String::from("/")), None);
    assert_eq!(get_file_name(String::from("a/..")), None);
}
