use colored::Color;
use simple_detailed_error::colorization::{style_to_index, Attribute, Colorization};

#[test]
fn attributes_build_a_mask() {
    let c = Colorization::new().style(Attribute::Bold).style(Attribute::Italic);
    assert_eq!(c.style_const, Some((1 << 1) | (1 << 5)));
    let cleared = c.style(Attribute::Clear);
    assert_eq!(cleared.style_const, Some(1));
    assert_eq!(style_to_index(&Attribute::Strikethrough), 8);
}

#[test]
fn styles_apply_in_order() {
    let c = Colorization::new()
        .foreground(Color::Red)
        .styles(&vec![Attribute::Clear, Attribute::Italic, Attribute::Bold]);
    assert_eq!(c.foreground, Some(Color::Red));
    assert_eq!(c.style_const, Some(1 | (1 << 5) | (1 << 1)));
}

#[test]
fn join_overrides_colors_and_unites_attributes() {
    let base = Colorization::new().foreground(Color::Red).background(Color::Blue).style(Attribute::Bold);
    let overlay = Colorization::new().foreground(Color::Green).style(Attribute::Underline);
    let joined = Colorization::join_const(base, overlay);
    assert_eq!(joined.foreground, Some(Color::Green));
    assert_eq!(joined.background, Some(Color::Blue));
    assert_eq!(joined.style_const, Some((1 << 1) | (1 << 3)));
}

#[test]
fn clearing_overlay_replaces_everything() {
    let base = Colorization::new().foreground(Color::Red).background(Color::Blue).style(Attribute::Bold);
    let overlay = Colorization::new().style(Attribute::Clear).style(Attribute::Italic);
    let joined = Colorization::join_const(base, overlay);
    assert_eq!(joined, overlay);
    assert_eq!(joined.foreground, None);
    assert_eq!(joined.background, None);
}

#[test]
fn join_is_associative_on_examples() {
    let a = Colorization::new().foreground(Color::Red).style(Attribute::Bold);
    let b = Colorization::new().style(Attribute::Clear).background(Color::Yellow);
    let c = Colorization::new().foreground(Color::Cyan).style(Attribute::Dimmed);
    let left = Colorization::join_const(Colorization::join_const(a, b), c);
    let right = Colorization::join_const(a, Colorization::join_const(b, c));
    assert_eq!(left, right);
    assert_eq!(left.foreground, Some(Color::Cyan));
    assert_eq!(left.background, Some(Color::Yellow));
    assert_eq!(left.style_const, Some(1 | (1 << 2)));
}

#[test]
fn plain_is_neutral() {
    let a = Colorization::new().foreground(Color::Magenta).style(Attribute::Hidden);
    assert_eq!(Colorization::join_const(Colorization::new(), a), a);
}
