use colored::Color;
use simple_detailed_error::colorization::{Attribute, Colorization};
use simple_detailed_error::parsing_error::{
    parsing_error_text, ErrorExplanation, ParsingError, ParsingErrorDetail,
};
use simple_detailed_error::range_styling::Span;

struct Kind(&'static str);

impl ParsingErrorDetail for Kind {
    fn explain_error(&self) -> ErrorExplanation {
        ErrorExplanation::new(self.0.to_string())
            .colorization_markers(vec![(Span::new("ab", 0, 1), Colorization::new().foreground(Color::Red))])
            .complete_input_colorization(Colorization::new().style(Attribute::Dimmed))
    }
}

#[test]
fn flat_layout_with_causes() {
    let mut e = ParsingError::new(Kind("Predicate is not a bool")).location_str("if a==1");
    e.add_cause(ParsingError::new(Kind("Cannot compare")).location_str("a==1").start_point_of_error(1, 4));
    e.add_cause(ParsingError::new(Kind("   ")));
    assert_eq!(
        e.to_display_string(true),
        "On: if a==1\nReason: Predicate is not a bool\nCauses:\nOn: a==1\nReason: Cannot compare\nWhere: On line 1 and column 4"
    );
}

#[test]
fn positions_from_and_to() {
    let e = ParsingError::new(Kind("bad")).start_point_of_error(1, 2).end_point_of_error(3, 4);
    assert_eq!(e.to_display_string(true), "Reason: bad\nWhere: From line 1 and column 2 to 3 and column 4");
    let only_end = ParsingError::new(Kind("bad")).end_point_of_error(3, 4);
    assert_eq!(only_end.to_display_string(true), "Reason: bad");
}

#[test]
fn blank_input_and_reason_are_left_out() {
    let e = ParsingError::new(Kind(" ")).location_str("  ");
    assert_eq!(e.to_display_string(true), "");
    let e = ParsingError::new(Kind("x")).ast_error(Kind("y"));
    assert_eq!(e.to_display_string(true), "Reason: y");
}

#[test]
fn text_from_parts() {
    let explanation = ErrorExplanation::new("why".to_string());
    let causes = vec!["first".to_string(), " ".to_string(), "second\nline".to_string()];
    assert_eq!(
        parsing_error_text(Some(" in "), &explanation, None, None, &causes, true),
        "On:  in \nReason: why\nCauses:\nfirst\nsecond\nline"
    );
    assert_eq!(parsing_error_text(None, &explanation, None, None, &Vec::new(), true), "Reason: why");
}

#[test]
fn colored_input_keeps_layout() {
    colored::control::set_override(true);
    let e = ParsingError::new(Kind("why")).location_str("ab");
    let text = e.to_display_string(false);
    assert!(text.starts_with("On: "));
    assert!(text.ends_with("\nReason: why"));
    assert!(text.contains("\x1b["));
}
