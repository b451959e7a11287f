use trace_style::render::{render_line, render_trace};
use trace_style::style::Style;
use trace_style::theme::{Role, Theme};
use trace_style::visible::visible_text;

#[test]
fn theme_hands_out_the_role_styles() {
    let theme = Theme::new(
        Style::new(vec![32]),
        Style::new(vec![36]),
        Style::new(vec![1, 31]),
    );
    assert_eq!(theme.style_for(Role::Span).codes().as_slice(), &[32]);
    assert_eq!(theme.style_for(Role::Event).codes().as_slice(), &[36]);
    assert_eq!(theme.style_for(Role::Error).codes().as_slice(), &[1, 31]);
}

#[test]
fn plain_theme_styles_nothing() {
    let theme = Theme::plain();
    assert!(theme.style_for(Role::Span).codes().is_empty());
    assert!(theme.style_for(Role::Event).codes().is_empty());
    assert!(theme.style_for(Role::Error).codes().is_empty());
}

#[test]
fn joined_line_displays_both_payloads() {
    let span_style = Style::new(vec![32]);
    let event_style = Style::new(vec![36]);
    let line = render_line(&span_style, "SPAN", &event_style, "User logged in");
    assert_eq!(visible_text(&line), "SPAN User logged in");
}

#[test]
fn joined_line_exact_escape_codes() {
    let line = render_line(
        &Style::new(vec![32]),
        "SPAN",
        &Style::new(vec![36]),
        "User logged in",
    );
    assert_eq!(
        line,
        "\u{1b}[32mSPAN\u{1b}[0m \u{1b}[36mUser logged in\u{1b}[0m"
    );
}

#[test]
fn plain_theme_trace_is_the_bare_text() {
    let (first, second) = render_trace(&Theme::plain());
    assert_eq!(first, "SPAN User logged in");
    assert_eq!(second, "ERROR Connection failed");
}

#[test]
fn styled_trace_displays_the_bare_text() {
    let theme = Theme::new(
        Style::new(vec![32]),
        Style::new(vec![36]),
        Style::new(vec![1, 31]),
    );
    let (first, second) = render_trace(&theme);
    assert_eq!(visible_text(&first), "SPAN User logged in");
    assert_eq!(visible_text(&second), "ERROR Connection failed");
    assert_eq!(
        second,
        "\u{1b}[1;31mERROR\u{1b}[0m \u{1b}[1;31mConnection failed\u{1b}[0m"
    );
}
