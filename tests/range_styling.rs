use colored::Color;
use simple_detailed_error::colorization::{Attribute, Colorization};
use simple_detailed_error::range_styling::{
    apply_colorization, colorize, elementary_segments, range_contains_other, Span, StyledSegment,
};

fn red_bold() -> Colorization {
    Colorization::new().foreground(Color::Red).style(Attribute::Bold)
}

#[test]
fn overlap_test() {
    assert!(range_contains_other(0, 5, 4, 6));
    assert!(!range_contains_other(0, 5, 5, 6));
    assert!(!range_contains_other(3, 5, 0, 3));
}

#[test]
fn no_markers_one_plain_segment() {
    let segs = elementary_segments("abcde", None, &Vec::new());
    assert_eq!(segs, vec![StyledSegment { start: 0, end: 5, colorization: Colorization::new() }]);
    assert!(elementary_segments("", Some(red_bold()), &Vec::new()).is_empty());
}

#[test]
fn marker_on_x_gives_three_segments() {
    let text = "if x > 0";
    let markers = vec![(Span::new(text, 3, 4), red_bold())];
    let segs = elementary_segments(text, None, &markers);
    assert_eq!(
        segs,
        vec![
            StyledSegment { start: 0, end: 3, colorization: Colorization::new() },
            StyledSegment { start: 3, end: 4, colorization: red_bold() },
            StyledSegment { start: 4, end: 8, colorization: Colorization::new() },
        ]
    );
}

#[test]
fn segments_cover_text_without_gaps() {
    let text = "0123456789";
    let markers = vec![
        (Span::new(text, 5, 9), Colorization::new().style(Attribute::Italic)),
        (Span::new(text, 1, 3), Colorization::new().foreground(Color::Green)),
        (Span::new(text, 2, 7), Colorization::new().background(Color::Blue)),
    ];
    let segs = elementary_segments(text, None, &markers);
    let bounds: Vec<(usize, usize)> = segs.iter().map(|s| (s.start, s.end)).collect();
    assert_eq!(bounds, vec![(0, 1), (1, 2), (2, 3), (3, 5), (5, 7), (7, 9), (9, 10)]);
    for w in segs.windows(2) {
        assert_eq!(w[0].end, w[1].start);
    }
}

#[test]
fn nested_markers_merge_in_listed_order() {
    let text = "abcdef";
    let a = Colorization::new().foreground(Color::Red).style(Attribute::Bold);
    let b = Colorization::new().foreground(Color::Blue).style(Attribute::Underline);
    let a_span = Span::new(text, 2, 4);
    let b_span = Span::new(text, 0, 6);
    let segs = elementary_segments(text, None, &vec![(a_span.clone(), a), (b_span.clone(), b)]);
    assert_eq!(segs[1], StyledSegment { start: 2, end: 4, colorization: Colorization::join_const(a, b) });
    assert_eq!(segs[1].colorization.foreground, Some(Color::Blue));
    let segs = elementary_segments(text, None, &vec![(b_span, b), (a_span, a)]);
    assert_eq!(segs[1], StyledSegment { start: 2, end: 4, colorization: Colorization::join_const(b, a) });
    assert_eq!(segs[1].colorization.foreground, Some(Color::Red));
}

#[test]
fn clear_discards_earlier_styles() {
    let text = "abcdef";
    let first = Colorization::new().foreground(Color::Red).background(Color::White).style(Attribute::Bold);
    let clearing = Colorization::new().style(Attribute::Clear).foreground(Color::Green);
    let later = Colorization::new().style(Attribute::Underline);
    let markers = vec![
        (Span::new(text, 0, 6), first),
        (Span::new(text, 2, 4), clearing),
        (Span::new(text, 0, 6), later),
    ];
    let segs = elementary_segments(text, None, &markers);
    let middle = segs[1].colorization;
    assert_eq!(middle.foreground, Some(Color::Green));
    assert_eq!(middle.background, None);
    assert_eq!(middle.style_const, Some(1 | (1 << 3)));
    assert_eq!(segs[0].colorization.foreground, Some(Color::Red));
}

#[test]
fn whole_style_comes_first_and_markers_override_it() {
    let text = "abc";
    let whole = Colorization::new().foreground(Color::Blue).style(Attribute::Dimmed);
    let markers = vec![(Span::new(text, 1, 2), Colorization::new().foreground(Color::Red))];
    let segs = elementary_segments(text, Some(whole), &markers);
    assert_eq!(segs.len(), 3);
    assert_eq!(segs[0].colorization, whole);
    assert_eq!(segs[1].colorization.foreground, Some(Color::Red));
    assert_eq!(segs[1].colorization.style_const, Some(1 << 2));
}

#[test]
fn markers_outside_the_text_are_dropped() {
    let text = "abcdef";
    let markers = vec![
        (Span::new(text, 4, 2), red_bold()),
        (Span::new(text, 2, 10), red_bold()),
        (Span::new(text, 3, 3), red_bold()),
    ];
    let segs = elementary_segments(text, None, &markers);
    assert_eq!(segs, vec![StyledSegment { start: 0, end: 6, colorization: Colorization::new() }]);
}

#[test]
fn markers_of_another_text_are_dropped() {
    let text = "if x > 0";
    let markers = vec![(Span::new("let y = 1", 3, 4), red_bold())];
    let segs = elementary_segments(text, None, &markers);
    assert_eq!(segs, vec![StyledSegment { start: 0, end: 8, colorization: Colorization::new() }]);
    colored::control::set_override(true);
    assert_eq!(colorize(text, &markers, None), text);
}

#[test]
fn colorize_without_markers_keeps_text() {
    assert_eq!(colorize("if x > 0", &Vec::new(), None), "if x > 0");
    assert_eq!(colorize("", &Vec::new(), Some(red_bold())), "");
}

#[test]
fn colorize_styles_only_the_marked_range() {
    colored::control::set_override(true);
    let text = "if x > 0";
    let markers = vec![(Span::new(text, 3, 4), red_bold())];
    let out = colorize(text, &markers, None);
    assert!(out.starts_with("if \x1b["));
    assert!(out.ends_with("\x1b[0m > 0"));
    assert!(out.contains('x'));
    assert_ne!(out, text);
}

#[test]
fn colorize_without_terminal_colors_keeps_text() {
    colored::control::set_override(false);
    let text = "if x > 0";
    let markers = vec![(Span::new(text, 3, 4), red_bold())];
    assert_eq!(colorize(text, &markers, Some(Colorization::new().background(Color::Blue))), text);
}

#[test]
fn styled_piece_is_wrapped_in_escape_codes() {
    colored::control::set_override(true);
    let out = apply_colorization(String::from("x"), red_bold());
    assert!(out.starts_with("\x1b["));
    assert!(out.ends_with("\x1b[0m"));
    assert!(out.contains('x'));
}

#[test]
fn unstyled_segment_is_left_alone() {
    let text = String::from("plain");
    assert_eq!(apply_colorization(text, Colorization::new().style(Attribute::Clear)), "plain");
}
