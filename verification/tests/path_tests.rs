use tisu_fs::format_path_str;

#[test]
fn directory_form_appends_separator() {
    assert_eq!(format_path_str("/docs/", true), "docs/");
}

#[test]
fn file_form_trims_blanks() {
    assert_eq!(format_path_str("  file.txt ", false), "file.txt");
}

#[test]
fn root_normalizes_to_empty() {
    assert_eq!(format_path_str("/", true), "");
    assert_eq!(format_path_str("", true), "");
    assert_eq!(format_path_str("   ", false), "");
}

#[test]
fn repeated_separators_are_stripped() {
    assert_eq!(format_path_str("///a//", false), "a");
    assert_eq!(format_path_str("  /x/y/ ", true), "x/y/");
}

#[test]
fn inner_separators_are_kept() {
    assert_eq!(format_path_str("docs/notes.txt", false), "docs/notes.txt");
    assert_eq!(format_path_str("/docs/sub/", true), "docs/sub/");
}

#[test]
fn ascii_control_blanks_are_trimmed() {
    assert_eq!(format_path_str("\u{0C}file.txt\t", false), "file.txt");
    assert_eq!(format_path_str("\u{0B} /docs/ \r\n", true), "docs/");
}
