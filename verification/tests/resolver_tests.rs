use thoth_cli::resolver::resolve;

#[test]
fn test_resolve_known_aliases() {
    assert_eq!(resolve("python"), "py");
    assert_eq!(resolve("javascript"), "js");
    assert_eq!(resolve("typescript"), "ts");
    assert_eq!(resolve("c++"), "cpp");
    assert_eq!(resolve("golang"), "go");
    assert_eq!(resolve("rust"), "rs");
    assert_eq!(resolve("markdown"), "md");
    assert_eq!(resolve("shell"), "sh");
    assert_eq!(resolve("bash"), "sh");
}

#[test]
fn test_resolve_lowercases_input() {
    assert_eq!(resolve("Python"), "py");
    assert_eq!(resolve("JavaScript"), "js");
    assert_eq!(resolve("RUST"), "rs");
    assert_eq!(resolve("JSON"), "json");
}

#[test]
fn test_resolve_unknown_tag_unchanged() {
    assert_eq!(resolve("foolang"), "foolang");
    assert_eq!(resolve("FooLang"), "foolang");
    assert_eq!(resolve(""), "");
}
