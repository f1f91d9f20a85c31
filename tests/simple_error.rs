use colored::Color;
use simple_detailed_error::colorization::{Attribute, Colorization};
use simple_detailed_error::range_styling::Span;
use simple_detailed_error::simple_error::SimpleError;
use simple_detailed_error::simple_error_explanation::SimpleErrorExplanation;

fn explained(reason: &str) -> SimpleError {
    SimpleError::new().error_detail(SimpleErrorExplanation::new().explanation(reason))
}

fn x_error() -> SimpleError {
    let marker = Colorization::new().foreground(Color::Red).style(Attribute::Bold);
    SimpleError::new().at("if x > 0").error_detail(
        SimpleErrorExplanation::new()
            .explanation("x doesn't exist")
            .colorization_marker(Span::new("if x > 0", 3, 4), marker),
    )
}

#[test]
fn end_to_end_unstyled() {
    assert_eq!(x_error().to_display_string(false), "At: if x > 0\nError: x doesn't exist");
}

#[test]
fn end_to_end_styled() {
    colored::control::set_override(true);
    let info = x_error().as_display_struct(true);
    let at = info.at.clone().unwrap();
    assert!(at.starts_with("if "));
    assert!(at.ends_with(" > 0"));
    assert_ne!(at, "if x > 0");
    assert_eq!(info.reason, Some("x doesn't exist".to_string()));
}

#[test]
fn unstyled_rendering_repeats() {
    let e = x_error().with_cause(explained("inner"));
    assert_eq!(e.to_display_string(false), e.to_display_string(false));
}

#[test]
fn unexplained_cause_tally() {
    let root = SimpleError::new().with_cause(explained("boom")).with_cause(SimpleError::new());
    let text = root.to_display_string(false);
    assert_eq!(
        text,
        "Error: Unexplained error\nHas: 1 unexplained cause and 1 explained cause.\nCause: \n  - Error: boom"
    );
    let info = root.as_display_struct(false);
    assert_eq!(info.unexplained_causes, 1);
    assert_eq!(info.explained_causes.len(), 1);
}

#[test]
fn fallback_when_nothing_explained() {
    let root = SimpleError::new().with_cause(SimpleError::new());
    assert_eq!(root.to_display_string(false), "Error: Unexplained error");
}

#[test]
fn complexity_ordering() {
    let big = explained("c").with_cause(explained("d")).with_cause(explained("e"));
    let root = SimpleError::new().with_cause(big).with_cause(explained("a")).with_cause(explained("b"));
    let info = root.as_display_struct(false);
    let sizes: Vec<usize> = info.explained_causes.iter().map(|c| c.complexity()).collect();
    assert_eq!(sizes, vec![1, 1, 3]);
    assert_eq!(info.explained_causes[0].reason, Some("a".to_string()));
    assert_eq!(info.explained_causes[1].reason, Some("b".to_string()));
    assert_eq!(info.explained_causes[2].reason, Some("c".to_string()));
}

#[test]
fn blank_location_is_not_shown() {
    let e = SimpleError::new().at("   ").error_detail(String::from("  boom  "));
    let info = e.as_display_struct(false);
    assert_eq!(info.at, None);
    assert_eq!(info.reason, Some("boom".to_string()));
    assert_eq!(e.to_display_string(false), "Error: boom");
}

#[test]
fn location_is_trimmed() {
    let e = SimpleError::new().at("  a == 1 \n");
    assert_eq!(e.to_display_string(false), "At: a == 1\nError: Unexplained error");
}

#[test]
fn positions_and_solution() {
    let e = SimpleError::new()
        .error_detail(SimpleErrorExplanation::new().explanation("Bad").solution("  Fix it "))
        .start_point_of_error(2, 5)
        .end_point_of_error(2, 9);
    assert_eq!(
        e.to_display_string(false),
        "Position: On line 2 and column 5 up to line 2 and column 9\nError: Bad\nSolution: Fix it"
    );
}

#[test]
fn explained_by_sets_the_explanation() {
    let e = SimpleError::new().explained_by(SimpleErrorExplanation::new().explanation("why").solution("how"));
    assert_eq!(e.to_display_string(false), "Error: why\nSolution: how");
}

#[test]
fn multi_line_location_indent_is_capped() {
    let e = SimpleError::new().at("line one\nline two");
    assert_eq!(e.to_display_string(false), "At: line one\n  line two\nError: Unexplained error");
}

#[test]
fn styled_display_keeps_the_layout() {
    colored::control::set_override(true);
    let text = x_error().to_display_string(true);
    assert!(text.starts_with("At: if \x1b["));
    assert!(text.ends_with(" > 0\nError: x doesn't exist"));
}

#[test]
fn builders_and_causes() {
    let mut e = SimpleError::new().with_cause(explained("a"));
    e.add_cause(explained("b"));
    assert_eq!(e.causes.len(), 2);
    let e = e.without_causes();
    assert!(e.causes.is_empty());
    let blank = SimpleErrorExplanation::new().explanation("   ");
    assert_eq!(blank.explanation, None);
}
