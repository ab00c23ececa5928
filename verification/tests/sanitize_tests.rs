use naudit::sanitize::sanitize_audit_text;

#[test]
fn strips_color_escape_fragments() {
    let input = "\u{1b}[90mhello\u{1b}[39m world";
    assert_eq!(sanitize_audit_text(input), "hello world");
}

#[test]
fn strips_bare_fragments_without_escape() {
    assert_eq!(sanitize_audit_text("x[90m y[39m"), "x y");
}

#[test]
fn strips_special_characters_per_line() {
    assert_eq!(sanitize_audit_text("foo!@# bar?"), "foo bar");
}

#[test]
fn trims_and_keeps_line_structure() {
    assert_eq!(sanitize_audit_text("  a  \n\nb!\n"), "a\n\nb");
}

#[test]
fn sanitizing_twice_changes_nothing() {
    let input = "\u{1b}[90m foo \nbar == baz\ntail";
    let once = sanitize_audit_text(input);
    let twice = sanitize_audit_text(&once);
    assert_eq!(once, twice);
    assert_eq!(once, "foo\nbar  baz\ntail");
}

#[test]
fn trailing_line_that_sanitizes_to_nothing_collapses_once() {
    let once = sanitize_audit_text("a\n!");
    assert_eq!(once, "a\n");
    assert_eq!(sanitize_audit_text(&once), "a");
}

#[test]
fn empty_input_stays_empty() {
    assert_eq!(sanitize_audit_text(""), "");
}

#[test]
fn preserves_line_count_of_clean_text() {
    let out = sanitize_audit_text("one\ntwo\nthree");
    assert_eq!(out, "one\ntwo\nthree");
    assert_eq!(out.lines().count(), 3);
}

#[test]
fn introduces_no_new_special_characters() {
    let out = sanitize_audit_text("x*&^%$\ty\u{1b}[90mz");
    for c in out.chars() {
        assert!(c.is_alphanumeric() || c.is_whitespace());
    }
    assert_eq!(out, "x\tyz");
}
