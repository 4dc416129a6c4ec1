use starship::names::{extensions_of, has_marker, strip_negation, HIDDEN_MARKER, NEGATION_MARKER};

fn pair(minimal: &str, full: &str) -> Option<(String, String)> {
    Some((minimal.to_string(), full.to_string()))
}

#[test]
fn a_name_with_two_separators_has_two_extensions() {
    assert_eq!(extensions_of("archive.tar.gz"), pair("gz", "tar.gz"));
    assert_eq!(extensions_of("foo.tar.gz"), pair("gz", "tar.gz"));
}

#[test]
fn a_name_with_one_separator_has_the_same_extension_twice() {
    assert_eq!(extensions_of("main.rs"), pair("rs", "rs"));
}

#[test]
fn a_name_without_separator_has_no_extension() {
    assert_eq!(extensions_of("Makefile"), None);
    assert_eq!(extensions_of(""), None);
}

#[test]
fn a_separator_at_the_end_gives_an_empty_extension() {
    assert_eq!(extensions_of("odd."), pair("", ""));
    assert_eq!(extensions_of("a.b."), pair("", "b."));
}

#[test]
fn separators_in_a_row_are_each_counted() {
    assert_eq!(extensions_of("a..b"), pair("b", ".b"));
}

#[test]
fn extensions_outside_ascii_are_cut_at_characters() {
    assert_eq!(extensions_of("résumé.日本.語"), pair("語", "日本.語"));
}

#[test]
fn markers_are_seen_at_the_start_only() {
    assert!(has_marker(".env", HIDDEN_MARKER));
    assert!(!has_marker("env.", HIDDEN_MARKER));
    assert!(!has_marker("", HIDDEN_MARKER));
    assert!(has_marker("!Cargo.toml", NEGATION_MARKER));
    assert!(!has_marker("Cargo.toml!", NEGATION_MARKER));
    assert!(has_marker(".", HIDDEN_MARKER));
}

#[test]
fn the_negation_marker_is_taken_off_once() {
    assert_eq!(strip_negation("!Cargo.toml"), Some("Cargo.toml"));
    assert_eq!(strip_negation("!!x"), Some("!x"));
    assert_eq!(strip_negation("!"), Some(""));
    assert_eq!(strip_negation("Cargo.toml"), None);
    assert_eq!(strip_negation(""), None);
    assert_eq!(strip_negation("!é"), Some("é"));
}
