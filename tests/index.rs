use package_manager::{same_text, tux_find_package};

#[test]
fn finds_exact_line() {
    assert!(tux_find_package("vim\nnano\ngit\n", "nano"));
    assert!(tux_find_package("vim\nnano\ngit\n", "vim"));
    assert!(tux_find_package("vim\nnano\ngit\n", "git"));
}

#[test]
fn last_line_without_newline() {
    assert!(tux_find_package("vim\nnano", "nano"));
}

#[test]
fn absent_name_is_not_found() {
    assert!(!tux_find_package("vim\nnano\n", "emacs"));
    assert!(!tux_find_package("", "vim"));
}

#[test]
fn prefix_or_extension_is_not_a_match() {
    assert!(!tux_find_package("vim\nnano\n", "vi"));
    assert!(!tux_find_package("vim\nnano\n", "vims"));
    assert!(!tux_find_package("vim\n", " vim"));
}

#[test]
fn crlf_lines_match() {
    assert!(tux_find_package("vim\r\nnano\r\n", "vim"));
    assert!(tux_find_package("vim\r\nnano\r\n", "nano"));
}

#[test]
fn empty_name_needs_empty_line() {
    assert!(!tux_find_package("vim\n", ""));
    assert!(tux_find_package("vim\n\nnano\n", ""));
    assert!(!tux_find_package("", ""));
}

#[test]
fn same_text_compares_characters() {
    assert!(same_text("abc", "abc"));
    assert!(!same_text("abc", "abd"));
    assert!(!same_text("abc", "ab"));
    assert!(same_text("", ""));
}
