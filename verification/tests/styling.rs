use trace_style::style::{Style, apply};
use trace_style::visible::visible_text;

#[test]
fn bold_red_error_renders_and_displays() {
    let bold_red = Style::new(vec![1, 31]);
    let out = apply(&bold_red, "ERROR");
    assert_eq!(out, "\u{1b}[1;31mERROR\u{1b}[0m");
    assert_eq!(visible_text(&out), "ERROR");
}

#[test]
fn empty_payload_displays_nothing() {
    let bold_red = Style::new(vec![1, 31]);
    assert_eq!(visible_text(&apply(&bold_red, "")), "");
    assert_eq!(apply(&bold_red, ""), "\u{1b}[1;31m\u{1b}[0m");
    assert_eq!(apply(&Style::plain(), ""), "");
}

#[test]
fn plain_style_is_identity() {
    assert_eq!(apply(&Style::plain(), "abc"), "abc");
    assert_eq!(apply(&Style::plain(), "SPAN User logged in"), "SPAN User logged in");
    assert_eq!(apply(&Style::plain(), ""), "");
}

#[test]
fn repeated_application_is_deterministic() {
    let s = Style::new(vec![4, 36]);
    assert_eq!(apply(&s, "same"), apply(&s, "same"));
}

#[test]
fn styled_string_contains_payload() {
    let s = Style::new(vec![1, 31]);
    assert!(apply(&s, "ERROR").contains("ERROR"));
    assert!(apply(&s, "").contains(""));
    assert!(apply(&Style::plain(), "ERROR").contains("ERROR"));
}

#[test]
fn escape_like_payload_is_kept_verbatim() {
    let s = Style::new(vec![32]);
    let tricky = "\u{1b}[31malready styled\u{1b}[0m";
    let out = apply(&s, tricky);
    assert!(out.contains(tricky));
    assert_eq!(out, "\u{1b}[32m\u{1b}[31malready styled\u{1b}[0m\u{1b}[0m");
}

#[test]
fn single_code_renders_one_parameter() {
    let s = Style::new(vec![0]);
    assert_eq!(apply(&s, "X"), "\u{1b}[0mX\u{1b}[0m");
}

#[test]
fn codes_render_in_decimal() {
    assert_eq!(apply(&Style::new(vec![7]), "X"), "\u{1b}[7mX\u{1b}[0m");
    assert_eq!(apply(&Style::new(vec![10]), "X"), "\u{1b}[10mX\u{1b}[0m");
    assert_eq!(apply(&Style::new(vec![99]), "X"), "\u{1b}[99mX\u{1b}[0m");
    assert_eq!(apply(&Style::new(vec![100]), "X"), "\u{1b}[100mX\u{1b}[0m");
    assert_eq!(apply(&Style::new(vec![105]), "X"), "\u{1b}[105mX\u{1b}[0m");
    assert_eq!(apply(&Style::new(vec![255]), "X"), "\u{1b}[255mX\u{1b}[0m");
}

#[test]
fn many_codes_join_with_semicolons() {
    let s = Style::new(vec![1, 30, 42]);
    assert_eq!(apply(&s, "note"), "\u{1b}[1;30;42mnote\u{1b}[0m");
}

#[test]
fn style_reports_its_codes() {
    let s = Style::new(vec![1, 31]);
    assert_eq!(s.codes().as_slice(), &[1, 31]);
    assert!(Style::plain().codes().is_empty());
}

#[test]
fn visible_text_keeps_plain_text() {
    assert_eq!(visible_text("abc"), "abc");
    assert_eq!(visible_text(""), "");
    assert_eq!(visible_text("m"), "m");
}

#[test]
fn visible_text_strips_escape_sequences() {
    assert_eq!(visible_text("\u{1b}[31m"), "");
    assert_eq!(visible_text("a\u{1b}[1;31mb\u{1b}[0mc"), "abc");
}

#[test]
fn visible_text_drops_unterminated_escape() {
    assert_eq!(visible_text("ab\u{1b}[3"), "ab");
}
