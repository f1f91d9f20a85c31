//! Styles for ranges of text: optional foreground and background colors and a set of text
//! attributes, one of which, `Clear`, discards the style inherited so far.

use vstd::prelude::*;

verus! {

/// A terminal color, as the `colored` crate defines it.
#[verifier::external_type_specification]
#[verifier::external_body]
pub struct ExColor(colored::Color);

/// A text attribute; `Clear` discards the style inherited so far.
#[derive(Clone, Copy, Debug, PartialEq, Eq)]
pub enum Attribute {
    Clear,
    Bold,
    Dimmed,
    Underline,
    Reversed,
    Italic,
    Blink,
    Hidden,
    Strikethrough,
}

/// Position of the attribute's bit in an attribute mask.
pub open spec fn attribute_index(a: Attribute) -> u16 {
    match a {
        Attribute::Clear => 0,
        Attribute::Bold => 1,
        Attribute::Dimmed => 2,
        Attribute::Underline => 3,
        Attribute::Reversed => 4,
        Attribute::Italic => 5,
        Attribute::Blink => 6,
        Attribute::Hidden => 7,
        Attribute::Strikethrough => 8,
    }
}

/// The bit of the attribute in an attribute mask.
pub open spec fn attribute_bit(a: Attribute) -> u16 {
    1u16 << attribute_index(a)
}

/// The attributes in the order in which they are applied to text.
pub open spec fn all_attributes() -> Seq<Attribute> {
    seq![
        Attribute::Clear,
        Attribute::Bold,
        Attribute::Dimmed,
        Attribute::Underline,
        Attribute::Reversed,
        Attribute::Italic,
        Attribute::Blink,
        Attribute::Hidden,
        Attribute::Strikethrough,
    ]
}

/// Position of `style` in an attribute mask.
pub fn style_to_index(style: &Attribute) -> (r: usize)
    ensures
        r == attribute_index(*style),
{
    match style {
        Attribute::Clear => 0,
        Attribute::Bold => 1,
        Attribute::Dimmed => 2,
        Attribute::Underline => 3,
        Attribute::Reversed => 4,
        Attribute::Italic => 5,
        Attribute::Blink => 6,
        Attribute::Hidden => 7,
        Attribute::Strikethrough => 8,
    }
}

/// A style: colors that replace inherited ones where given, and an attribute mask, absent when
/// no attribute was ever given.
#[derive(Clone, Copy, Debug, PartialEq, Eq)]
pub struct Colorization {
    pub foreground: Option<colored::Color>,
    pub background: Option<colored::Color>,
    pub style_const: Option<u16>,
}

/// Whether `c` carries the attribute `a`.
pub open spec fn has_attribute(c: Colorization, a: Attribute) -> bool {
    match c.style_const {
        Some(mask) => mask & attribute_bit(a) == attribute_bit(a),
        None => false,
    }
}

/// The attributes that `c` carries.
pub open spec fn attributes(c: Colorization) -> Set<Attribute> {
    Set::new(|a: Attribute| has_attribute(c, a))
}

/// Whether `c` discards the style inherited so far.
pub open spec fn is_clearing(c: Colorization) -> bool {
    has_attribute(c, Attribute::Clear)
}

/// The style with nothing set.
pub open spec fn plain() -> Colorization {
    Colorization { foreground: None, background: None, style_const: None }
}

/// `overlay` applied over `base`: a clearing overlay replaces `base` whole; otherwise the
/// overlay's colors replace those of `base` where given, and the attributes are united.
pub open spec fn join(base: Colorization, overlay: Colorization) -> Colorization {
    if is_clearing(overlay) {
        overlay
    } else {
        Colorization {
            foreground: if overlay.foreground is Some {
                overlay.foreground
            } else {
                base.foreground
            },
            background: if overlay.background is Some {
                overlay.background
            } else {
                base.background
            },
            style_const: match (base.style_const, overlay.style_const) {
                (Some(a), Some(b)) => Some(a | b),
                (None, Some(b)) => Some(b),
                (_, None) => base.style_const,
            },
        }
    }
}

proof fn lemma_or_bit(x: u16, y: u16, i: u16)
    requires
        i < 16,
    ensures
        ((x | y) & (1u16 << i) == (1u16 << i)) == ((x & (1u16 << i) == (1u16 << i)) || (y & (1u16
            << i) == (1u16 << i))),
{
    assert(((x | y) & (1u16 << i) == (1u16 << i)) == ((x & (1u16 << i) == (1u16 << i)) || (y & (
    1u16 << i) == (1u16 << i)))) by (bit_vector)
        requires
            i < 16,
    ;
}

proof fn lemma_or_has_attribute(x: u16, y: u16, a: Attribute)
    ensures
        ((x | y) & attribute_bit(a) == attribute_bit(a)) == ((x & attribute_bit(a) == attribute_bit(
            a,
        )) || (y & attribute_bit(a) == attribute_bit(a))),
{
    lemma_or_bit(x, y, attribute_index(a));
}

/// The attributes of a joined style: those of the overlay alone when it clears, else those of
/// both.
pub proof fn lemma_join_attributes(base: Colorization, overlay: Colorization)
    ensures
        is_clearing(overlay) ==> attributes(join(base, overlay)) == attributes(overlay),
        !is_clearing(overlay) ==> attributes(join(base, overlay)) == attributes(base).union(
            attributes(overlay),
        ),
{
    if !is_clearing(overlay) {
        assert forall|a: Attribute|
            #![auto]
            has_attribute(join(base, overlay), a) == (has_attribute(base, a) || has_attribute(
                overlay,
                a,
            )) by {
            match (base.style_const, overlay.style_const) {
                (Some(x), Some(y)) => lemma_or_has_attribute(x, y, a),
                _ => {},
            }
        }
        assert(attributes(join(base, overlay)) =~= attributes(base).union(attributes(overlay)));
    }
}

/// Joining is associative: applying `a`, `b` and `c` in this order gives one style however the
/// applications are grouped.
pub proof fn lemma_join_associative(a: Colorization, b: Colorization, c: Colorization)
    ensures
        join(join(a, b), c) == join(a, join(b, c)),
{
    if !is_clearing(c) && !is_clearing(b) {
        match (b.style_const, c.style_const) {
            (Some(x), Some(y)) => {
                lemma_or_has_attribute(x, y, Attribute::Clear);
                match a.style_const {
                    Some(w) => {
                        assert((w | x) | y == w | (x | y)) by (bit_vector);
                    },
                    None => {},
                }
            },
            _ => {},
        }
    } else if !is_clearing(c) && is_clearing(b) {
        match (b.style_const, c.style_const) {
            (Some(x), Some(y)) => {
                lemma_or_has_attribute(x, y, Attribute::Clear);
            },
            _ => {},
        }
    }
}

/// The plain style changes nothing when joined under another.
pub proof fn lemma_join_plain(c: Colorization)
    ensures
        join(plain(), c) == c,
{
}

impl Colorization {
    /// The plain style: no colors and no attributes.
    pub fn new() -> (r: Colorization)
        ensures
            r == plain(),
    {
        Colorization { foreground: None, background: None, style_const: None }
    }

    /// This style with the given foreground color.
    pub fn foreground(self, color: colored::Color) -> (r: Colorization)
        ensures
            r == (Colorization { foreground: Some(color), ..self }),
    {
        Colorization { foreground: Some(color), ..self }
    }

    /// This style with the given background color.
    pub fn background(self, color: colored::Color) -> (r: Colorization)
        ensures
            r == (Colorization { background: Some(color), ..self }),
    {
        Colorization { background: Some(color), ..self }
    }

    /// This style with one more attribute; `Clear` replaces all attributes given so far.
    pub fn style(self, style: Attribute) -> (r: Colorization)
        ensures
            r == styled(self, style),
    {
        let index = style_to_index(&style) as u16;
        match style {
            Attribute::Clear => Colorization { style_const: Some(1u16 << index), ..self },
            _ => {
                let mask = match self.style_const {
                    Some(mask) => mask,
                    None => 0u16,
                };
                Colorization { style_const: Some(mask | (1u16 << index)), ..self }
            },
        }
    }

    /// `other` applied over `this`, as `join` states.
    pub fn join_const(this: Self, other: Self) -> (r: Self)
        ensures
            r == join(this, other),
    {
        let clear_bit = 1u16 << (style_to_index(&Attribute::Clear) as u16);
        let is_clear_style = match other.style_const {
            Some(mask) => mask & clear_bit == clear_bit,
            None => false,
        };
        if is_clear_style {
            return other;
        }
        let mut res = this;
        if other.foreground.is_some() {
            res.foreground = other.foreground;
        }
        if other.background.is_some() {
            res.background = other.background;
        }
        res.style_const = match (this.style_const, other.style_const) {
            (Some(a), Some(b)) => Some(a | b),
            (None, Some(b)) => Some(b),
            (_, None) => this.style_const,
        };
        res
    }

    /// This style with each of `styles` added in turn, as `style` adds one.
    pub fn styles(self, styles: &Vec<Attribute>) -> (r: Colorization)
        ensures
            r == styled_all(self, styles@),
    {
        let mut res = self;
        let mut i: usize = 0;
        while i < styles.len()
            invariant
                i <= styles.len(),
                res == styled_all(self, styles@.take(i as int)),
            decreases styles.len() - i,
        {
            assert(styles@.take(i + 1).drop_last() =~= styles@.take(i as int));
            res = res.style(styles[i]);
            i = i + 1;
        }
        assert(styles@.take(styles.len() as int) =~= styles@);
        res
    }
}

/// `c` with one more attribute, as `Colorization::style` adds it.
pub open spec fn styled(c: Colorization, a: Attribute) -> Colorization {
    if a == Attribute::Clear {
        Colorization { style_const: Some(attribute_bit(Attribute::Clear)), ..c }
    } else {
        Colorization {
            style_const: Some(
                match c.style_const {
                    Some(mask) => mask,
                    None => 0u16,
                } | attribute_bit(a),
            ),
            ..c
        }
    }
}

/// `c` with each of `attrs` added in turn.
pub open spec fn styled_all(c: Colorization, attrs: Seq<Attribute>) -> Colorization
    decreases attrs.len(),
{
    if attrs.len() == 0 {
        c
    } else {
        styled(styled_all(c, attrs.drop_last()), attrs.last())
    }
}

} // verus!
