//! Restyling of a text by ranges: markers give a style to a range of the text, possibly
//! overlapping; the text is cut into elementary segments, bounded by the markers' edges, and
//! each segment gets the styles of the markers that contain it, joined in the markers' order.

use vstd::prelude::*;

use colored::Colorize;
use itertools::Itertools;

use crate::colorization::{
    Attribute, Colorization, all_attributes, attribute_index, has_attribute, is_clearing, join,
    lemma_join_plain, plain,
};

verus! {

/// A range of positions of a text, counted in characters, from `start` up to `end` excluded,
/// together with the text it was taken from: it applies to that text alone.
#[derive(Clone, Debug, PartialEq, Eq)]
pub struct Span {
    pub source: String,
    pub start: usize,
    pub end: usize,
}

impl Span {
    /// The range from `start` up to `end` of the text `source`.
    pub fn new(source: &str, start: usize, end: usize) -> (r: Span)
        ensures
            r.source@ == source@,
            r.start == start,
            r.end == end,
    {
        Span { source: String::from_str(source), start, end }
    }
}

/// A range of the text that takes part in the styling, with its style.
#[derive(Clone, Copy, Debug, PartialEq, Eq)]
pub struct MarkedRange {
    pub start: usize,
    pub end: usize,
    pub colorization: Colorization,
}

/// A part of a text with the style it is shown in.
#[derive(Clone, Copy, Debug, PartialEq, Eq)]
pub struct StyledSegment {
    pub start: usize,
    pub end: usize,
    pub colorization: Colorization,
}

/// Whether the range from `range_2_start` to `range_2_end` overlaps the range from
/// `range_1_start` to `range_1_end`.
pub fn range_contains_other(
    range_1_start: usize,
    range_1_end: usize,
    range_2_start: usize,
    range_2_end: usize,
) -> (r: bool)
    ensures
        r == (range_2_end > range_1_start && range_2_start < range_1_end),
{
    range_2_end > range_1_start && range_2_start < range_1_end
}

/// Whether a marker applies to the text `input`: it was taken from that text, lies within it
/// and covers at least one of its characters.
pub open spec fn marker_applies(input: Seq<char>, marker: (Span, Colorization)) -> bool {
    &&& marker.0.source@ == input
    &&& marker.0.start < marker.0.end
    &&& marker.0.end <= input.len()
}

/// The range and style of a marker.
pub open spec fn marked_range(marker: (Span, Colorization)) -> MarkedRange {
    MarkedRange { start: marker.0.start, end: marker.0.end, colorization: marker.1 }
}

/// The ranges of the markers of `markers` that apply to `input`, in order.
pub open spec fn kept_markers(input: Seq<char>, markers: Seq<(Span, Colorization)>) -> Seq<
    MarkedRange,
>
    decreases markers.len(),
{
    if markers.len() == 0 {
        seq![]
    } else if marker_applies(input, markers.last()) {
        kept_markers(input, markers.drop_last()).push(marked_range(markers.last()))
    } else {
        kept_markers(input, markers.drop_last())
    }
}

/// The style of the whole text as a range over the whole text of `len` characters, when there
/// is such a style and the text is not empty.
pub open spec fn whole_marker(len: nat, whole: Option<Colorization>) -> Seq<MarkedRange> {
    match whole {
        Some(w) => if len > 0 {
            seq![MarkedRange { start: 0, end: len as usize, colorization: w }]
        } else {
            seq![]
        },
        None => seq![],
    }
}

/// The ranges that take part in styling `input`: the style of the whole text first, when there
/// is one, then the markers that apply to `input`.
pub open spec fn effective_markers(
    input: Seq<char>,
    whole: Option<Colorization>,
    markers: Seq<(Span, Colorization)>,
) -> Seq<MarkedRange> {
    whole_marker(input.len(), whole) + kept_markers(input, markers)
}

/// Whether a range lies within a text of `len` characters and covers at least one of them.
pub open spec fn range_in_text(len: nat, m: MarkedRange) -> bool {
    m.start < m.end && m.end <= len
}

/// The styles of the ranges of `eff` that contain the range from `start` to `end`, joined in
/// order over the plain style.
pub open spec fn merged(eff: Seq<MarkedRange>, start: nat, end: nat) -> Colorization
    decreases eff.len(),
{
    if eff.len() == 0 {
        plain()
    } else {
        let before = merged(eff.drop_last(), start, end);
        let m = eff.last();
        if m.start <= start && end <= m.end {
            join(before, m.colorization)
        } else {
            before
        }
    }
}

/// Whether position `x` is an edge of the text of `len` characters or of a range of `eff`.
pub open spec fn is_cut(len: nat, eff: Seq<MarkedRange>, x: nat) -> bool {
    x == 0 || x == len || exists|j: int| 0 <= j < eff.len() && (eff[j].start == x || eff[j].end == x)
}

/// `segs` are the elementary segments of a text of `len` characters under the ranges `eff`:
/// they follow one another from position 0 to `len`; their edges are exactly the edges of the
/// text and of the ranges; each has the merged style of the ranges that contain it.
pub open spec fn is_segmentation(len: nat, eff: Seq<MarkedRange>, segs: Seq<StyledSegment>) -> bool {
    &&& (segs.len() == 0 <==> len == 0)
    &&& segs.len() > 0 ==> segs[0].start == 0 && segs.last().end == len
    &&& forall|k: int| 0 <= k < segs.len() ==> #[trigger] segs[k].start < segs[k].end
    &&& forall|k: int| 0 <= k < segs.len() - 1 ==> #[trigger] segs[k].end == segs[k + 1].start
    &&& forall|k: int, x: nat|
        #![trigger segs[k], is_cut(len, eff, x)]
        0 <= k < segs.len() && segs[k].start < x < segs[k].end ==> !is_cut(len, eff, x)
    &&& forall|k: int| 0 <= k < segs.len() ==> is_cut(len, eff, #[trigger] segs[k].start as nat)
    &&& forall|k: int|
        0 <= k < segs.len() ==> #[trigger] segs[k].colorization == merged(
            eff,
            segs[k].start as nat,
            segs[k].end as nat,
        )
}

/// Relies on `Itertools::sorted`: the same values, in ascending order.
#[verifier::external_body]
fn sorted(values: Vec<usize>) -> (r: Vec<usize>)
    ensures
        r@.to_multiset() == values@.to_multiset(),
        forall|x: usize| r@.contains(x) <==> values@.contains(x),
        forall|i: int, j: int| 0 <= i < j < r@.len() ==> r@[i] <= r@[j],
{
    values.into_iter().sorted().collect()
}

/// Relies on `Itertools::dedup`: runs of equal values are kept once each, in order, so that
/// sorted values come out strictly ascending.
#[verifier::external_body]
fn dedup(values: Vec<usize>) -> (r: Vec<usize>)
    ensures
        forall|x: usize| r@.contains(x) <==> values@.contains(x),
        (forall|i: int, j: int| 0 <= i < j < values@.len() ==> values@[i] <= values@[j]) ==> (
        forall|i: int, j: int| 0 <= i < j < r@.len() ==> r@[i] < r@[j]),
{
    values.into_iter().dedup().collect()
}

/// The positions that bound segments: both ends of the text and both ends of each marker.
fn cut_points(len: usize, eff: &Vec<MarkedRange>) -> (r: Vec<usize>)
    requires
        forall|j: int| 0 <= j < eff@.len() ==> range_in_text(len as nat, #[trigger] eff@[j]),
    ensures
        forall|i: int, j: int| 0 <= i < j < r@.len() ==> r@[i] < r@[j],
        forall|i: int| 0 <= i < r@.len() ==> r@[i] <= len,
        forall|x: usize| r@.contains(x) <==> is_cut(len as nat, eff@, x as nat),
{
    let mut bounds: Vec<usize> = Vec::new();
    bounds.push(0);
    bounds.push(len);
    let mut j: usize = 0;
    assert forall|x: usize| bounds@.contains(x) <==> (x == 0 || x == len) by {
        if x == 0 {
            assert(bounds@[0] == x);
        }
        if x == len {
            assert(bounds@[1] == x);
        }
    }
    while j < eff.len()
        invariant
            j <= eff@.len(),
            bounds@.len() >= 2,
            bounds@[0] == 0,
            bounds@[1] == len,
            forall|m: int| 0 <= m < eff@.len() ==> range_in_text(len as nat, #[trigger] eff@[m]),
            forall|i: int| 0 <= i < bounds@.len() ==> bounds@[i] <= len,
            forall|x: usize|
                bounds@.contains(x) <==> (x == 0 || x == len || exists|m: int|
                    0 <= m < j && (eff@[m].start == x || eff@[m].end == x)),
        decreases eff@.len() - j,
    {
        let ghost before = bounds@;
        let marker = eff[j];
        bounds.push(marker.start);
        bounds.push(marker.end);
        assert(bounds@ == before.push(marker.start).push(marker.end));
        assert forall|x: usize|
            bounds@.contains(x) <==> (x == 0 || x == len || exists|m: int|
                0 <= m < j + 1 && (eff@[m].start == x || eff@[m].end == x)) by {
            if bounds@.contains(x) {
                let i = choose|i: int| 0 <= i < bounds@.len() && bounds@[i] == x;
                if i < before.len() {
                    assert(before[i] == x);
                    assert(before.contains(x));
                    if x != 0 && x != len {
                        let m = choose|m: int|
                            0 <= m < j && (eff@[m].start == x || eff@[m].end == x);
                        assert(0 <= m < j + 1 && (eff@[m].start == x || eff@[m].end == x));
                    }
                } else {
                    assert(eff@[j as int].start == x || eff@[j as int].end == x);
                }
            }
            if exists|m: int| 0 <= m < j + 1 && (eff@[m].start == x || eff@[m].end == x) {
                let m = choose|m: int| 0 <= m < j + 1 && (eff@[m].start == x || eff@[m].end == x);
                if m < j {
                    assert(before.contains(x));
                    let i = choose|i: int| 0 <= i < before.len() && before[i] == x;
                    assert(bounds@[i] == x);
                } else if eff@[m].start == x {
                    assert(bounds@[before.len() as int] == x);
                } else {
                    assert(bounds@[before.len() as int + 1] == x);
                }
            }
            if x == 0 {
                assert(bounds@[0] == x);
            }
            if x == len {
                assert(bounds@[1] == x);
            }
        }
        j = j + 1;
    }
    let sorted_bounds = sorted(bounds);
    assert forall|i: int| 0 <= i < sorted_bounds@.len() implies sorted_bounds@[i] <= len by {
        assert(sorted_bounds@.contains(sorted_bounds@[i]));
        let k = choose|k: int| 0 <= k < bounds@.len() && bounds@[k] == sorted_bounds@[i];
    }
    let r = dedup(sorted_bounds);
    assert forall|i: int| 0 <= i < r@.len() implies r@[i] <= len by {
        assert(r@.contains(r@[i]));
        let k = choose|k: int| 0 <= k < sorted_bounds@.len() && sorted_bounds@[k] == r@[i];
    }
    r
}


proof fn lemma_kept_in_text(input: Seq<char>, markers: Seq<(Span, Colorization)>)
    ensures
        forall|j: int|
            0 <= j < kept_markers(input, markers).len() ==> range_in_text(
                input.len(),
                #[trigger] kept_markers(input, markers)[j],
            ),
    decreases markers.len(),
{
    if markers.len() > 0 {
        lemma_kept_in_text(input, markers.drop_last());
        let prev = kept_markers(input, markers.drop_last());
        let all = kept_markers(input, markers);
        if marker_applies(input, markers.last()) {
            assert forall|j: int| 0 <= j < all.len() implies range_in_text(
                input.len(),
                #[trigger] all[j],
            ) by {
                if j < prev.len() {
                    assert(all[j] == prev[j]);
                }
            }
        }
    }
}

proof fn lemma_between_cuts(c: Seq<usize>, k: int, x: usize)
    requires
        forall|i: int, j: int| 0 <= i < j < c.len() ==> c[i] < c[j],
        0 <= k,
        k + 1 < c.len(),
        c.contains(x),
    ensures
        x <= c[k] || x >= c[k + 1],
{
    let i = choose|i: int| 0 <= i < c.len() && c[i] == x;
    if i < k {
        assert(c[i] < c[k]);
    } else if i > k + 1 {
        assert(c[k + 1] < c[i]);
    }
}

proof fn lemma_cut_ends(len: usize, eff: Seq<MarkedRange>, c: Seq<usize>)
    requires
        forall|i: int, j: int| 0 <= i < j < c.len() ==> c[i] < c[j],
        forall|i: int| 0 <= i < c.len() ==> c[i] <= len,
        forall|x: usize| c.contains(x) <==> is_cut(len as nat, eff, x as nat),
    ensures
        c.len() >= 1,
        c[0] == 0,
        c.last() == len,
        len == 0 <==> c.len() == 1,
{
    assert(is_cut(len as nat, eff, 0));
    assert(c.contains(0usize));
    let i0 = choose|i: int| 0 <= i < c.len() && c[i] == 0usize;
    if i0 > 0 {
        assert(c[0] < c[i0]);
    }
    assert(is_cut(len as nat, eff, len as nat));
    assert(c.contains(len));
    let il = choose|i: int| 0 <= i < c.len() && c[i] == len;
    if il < c.len() - 1 {
        assert(c[il] < c[c.len() - 1]);
    }
    if len == 0 && c.len() > 1 {
        assert(c[0] < c[c.len() - 1]);
    }
}

/// Cuts the text `input` into its elementary segments under the style of the whole text,
/// `general_colorization`, and the markers `input_modifiers`, and gives each segment the merged
/// style of the markers that contain it. Markers taken from another text, lying outside the
/// text, or covering no character take no part.
pub fn elementary_segments(
    input: &str,
    general_colorization: Option<Colorization>,
    input_modifiers: &Vec<(Span, Colorization)>,
) -> (r: Vec<StyledSegment>)
    ensures
        is_segmentation(
            input@.len(),
            effective_markers(input@, general_colorization, input_modifiers@),
            r@,
        ),
{
    let len = input.unicode_len();
    let base = String::from_str(input);
    let ghost w = whole_marker(len as nat, general_colorization);
    let mut eff: Vec<MarkedRange> = Vec::new();
    match general_colorization {
        Some(whole) => {
            if 0 < len {
                eff.push(MarkedRange { start: 0, end: len, colorization: whole });
            }
        },
        None => {},
    }
    proof {
        assert(input_modifiers@.take(0) =~= Seq::<(Span, Colorization)>::empty());
        assert(eff@ =~= w + kept_markers(input@, input_modifiers@.take(0)));
    }
    let mut i: usize = 0;
    while i < input_modifiers.len()
        invariant
            i <= input_modifiers@.len(),
            len == input@.len(),
            base@ == input@,
            w == whole_marker(len as nat, general_colorization),
            eff@ == w + kept_markers(input@, input_modifiers@.take(i as int)),
        decreases input_modifiers@.len() - i,
    {
        let marker = &input_modifiers[i];
        proof {
            let all = input_modifiers@.take(i + 1);
            assert(all.drop_last() =~= input_modifiers@.take(i as int));
            assert(all.last() == *marker);
        }
        if marker.0.source == base && marker.0.start < marker.0.end && marker.0.end <= len {
            let ghost before = eff@;
            eff.push(MarkedRange { start: marker.0.start, end: marker.0.end, colorization: marker.1 });
            assert(eff@ =~= before.push(marked_range(*marker)));
        }
        i = i + 1;
    }
    let ghost effs = eff@;
    proof {
        assert(input_modifiers@.take(input_modifiers@.len() as int) =~= input_modifiers@);
        assert(effs == effective_markers(input@, general_colorization, input_modifiers@));
        lemma_kept_in_text(input@, input_modifiers@);
        assert forall|j: int| 0 <= j < effs.len() implies range_in_text(
            len as nat,
            #[trigger] effs[j],
        ) by {
            if j >= w.len() {
                assert(effs[j] == kept_markers(input@, input_modifiers@)[j - w.len()]);
            }
        }
    }
    let cuts = cut_points(len, &eff);
    proof {
        lemma_cut_ends(len, effs, cuts@);
    }
    let mut segs: Vec<StyledSegment> = Vec::new();
    let mut k: usize = 0;
    while k < cuts.len() - 1
        invariant
            eff@ == effs,
            cuts@.len() >= 1,
            forall|a: int, b: int| 0 <= a < b < cuts@.len() ==> cuts@[a] < cuts@[b],
            forall|x: usize| cuts@.contains(x) <==> is_cut(len as nat, effs, x as nat),
            k + 1 <= cuts@.len(),
            segs@.len() == k,
            forall|q: int|
                0 <= q < k ==> #[trigger] segs@[q] == (StyledSegment {
                    start: cuts@[q],
                    end: cuts@[q + 1],
                    colorization: merged(effs, cuts@[q] as nat, cuts@[q + 1] as nat),
                }),
        decreases cuts@.len() - k,
    {
        let start = cuts[k];
        let end = cuts[k + 1];
        let mut acc = Colorization::new();
        let mut j: usize = 0;
        while j < eff.len()
            invariant
                eff@ == effs,
                forall|a: int, b: int| 0 <= a < b < cuts@.len() ==> cuts@[a] < cuts@[b],
                forall|x: usize| cuts@.contains(x) <==> is_cut(len as nat, effs, x as nat),
                k + 1 < cuts@.len(),
                start == cuts@[k as int],
                end == cuts@[k + 1],
                j <= effs.len(),
                acc == merged(effs.take(j as int), start as nat, end as nat),
            decreases effs.len() - j,
        {
            let marker = eff[j];
            proof {
                assert(effs.take(j + 1).drop_last() =~= effs.take(j as int));
                assert(effs.take(j + 1).last() == marker);
                assert(is_cut(len as nat, effs, marker.start as nat));
                assert(is_cut(len as nat, effs, marker.end as nat));
                lemma_between_cuts(cuts@, k as int, marker.start);
                lemma_between_cuts(cuts@, k as int, marker.end);
            }
            if range_contains_other(start, end, marker.start, marker.end) {
                acc = Colorization::join_const(acc, marker.colorization);
            }
            j = j + 1;
        }
        assert(effs.take(effs.len() as int) =~= effs);
        segs.push(StyledSegment { start, end, colorization: acc });
        k = k + 1;
    }
    proof {
        let c = cuts@;
        let sg = segs@;
        assert(sg.len() == c.len() - 1);
        assert forall|q: int, x: nat|
            #![trigger sg[q], is_cut(len as nat, effs, x)]
            0 <= q < sg.len() && sg[q].start < x < sg[q].end implies !is_cut(len as nat, effs, x) by {
            if is_cut(len as nat, effs, x) {
                if x != 0 && x != len {
                    let m = choose|m: int|
                        0 <= m < effs.len() && (effs[m].start == x || effs[m].end == x);
                }
                assert(x <= len);
                assert(is_cut(len as nat, effs, (x as usize) as nat));
                assert(c.contains(x as usize));
                lemma_between_cuts(c, q, x as usize);
            }
        }
        assert forall|q: int| 0 <= q < sg.len() implies is_cut(
            len as nat,
            effs,
            #[trigger] sg[q].start as nat,
        ) by {
            assert(sg[q].start == c[q]);
            assert(c.contains(c[q]));
        }
        if sg.len() > 0 {
            assert(sg[0].start == c[0]);
            assert(sg.last().end == c.last());
        }
    }
    segs
}


/// Whether `c` changes nothing in how text is shown: no colors, and no attribute but `Clear`.
pub open spec fn is_unstyled(c: Colorization) -> bool {
    &&& c.foreground is None
    &&& c.background is None
    &&& forall|a: Attribute| has_attribute(c, a) ==> a == Attribute::Clear
}

/// The pieces of text one after another.
pub open spec fn concat_all(pieces: Seq<Seq<char>>) -> Seq<char>
    decreases pieces.len(),
{
    if pieces.len() == 0 {
        seq![]
    } else {
        concat_all(pieces.drop_last()) + pieces.last()
    }
}

/// Whether `s` is wrapped in terminal escape codes: it starts with an escape sequence and ends
/// with the reset sequence.
pub open spec fn escape_wrapped(s: Seq<char>) -> bool {
    &&& s.len() >= 6
    &&& s.subrange(0, 2) == seq!['\x1b', '[']
    &&& s.subrange(s.len() - 4, s.len() as int) == seq!['\x1b', '[', '0', 'm']
}

/// Relies on `Colorize::on_color` of `colored`: the text on a background color, in the form
/// that `colored` chooses for this terminal: either the text as it is, when colors are off, or
/// the text, its inner resets restyled, between a style sequence and the reset sequence.
#[verifier::external_body]
fn paint_background(text: String, color: colored::Color) -> (r: String)
    ensures
        r@ == text@ || escape_wrapped(r@),
{
    text.as_str().on_color(color).to_string()
}

/// Relies on `Colorize::color` of `colored`: the text in a foreground color, in the form that
/// `colored` chooses for this terminal, as for `paint_background`.
#[verifier::external_body]
fn paint_foreground(text: String, color: colored::Color) -> (r: String)
    ensures
        r@ == text@ || escape_wrapped(r@),
{
    text.as_str().color(color).to_string()
}

/// Relies on `Colorize::clear` of `colored`: a string with no color and no style is shown as
/// it is.
#[verifier::external_body]
fn paint_clear(text: String) -> (r: String)
    ensures
        r@ == text@,
{
    text.as_str().clear().to_string()
}

/// Relies on `Colorize::bold` of `colored`: the text in bold, in the form that
/// `colored` chooses for this terminal, as for `paint_background`.
#[verifier::external_body]
fn paint_bold(text: String) -> (r: String)
    ensures
        r@ == text@ || escape_wrapped(r@),
{
    text.as_str().bold().to_string()
}

/// Relies on `Colorize::dimmed` of `colored`: the text dimmed, in the form that
/// `colored` chooses for this terminal, as for `paint_background`.
#[verifier::external_body]
fn paint_dimmed(text: String) -> (r: String)
    ensures
        r@ == text@ || escape_wrapped(r@),
{
    text.as_str().dimmed().to_string()
}

/// Relies on `Colorize::underline` of `colored`: the text underlined, in the form that
/// `colored` chooses for this terminal, as for `paint_background`.
#[verifier::external_body]
fn paint_underline(text: String) -> (r: String)
    ensures
        r@ == text@ || escape_wrapped(r@),
{
    text.as_str().underline().to_string()
}

/// Relies on `Colorize::reversed` of `colored`: the text with colors reversed, in the form that
/// `colored` chooses for this terminal, as for `paint_background`.
#[verifier::external_body]
fn paint_reversed(text: String) -> (r: String)
    ensures
        r@ == text@ || escape_wrapped(r@),
{
    text.as_str().reversed().to_string()
}

/// Relies on `Colorize::italic` of `colored`: the text in italics, in the form that
/// `colored` chooses for this terminal, as for `paint_background`.
#[verifier::external_body]
fn paint_italic(text: String) -> (r: String)
    ensures
        r@ == text@ || escape_wrapped(r@),
{
    text.as_str().italic().to_string()
}

/// Relies on `Colorize::blink` of `colored`: the text blinking, in the form that
/// `colored` chooses for this terminal, as for `paint_background`.
#[verifier::external_body]
fn paint_blink(text: String) -> (r: String)
    ensures
        r@ == text@ || escape_wrapped(r@),
{
    text.as_str().blink().to_string()
}

/// Relies on `Colorize::hidden` of `colored`: the text hidden, in the form that
/// `colored` chooses for this terminal, as for `paint_background`.
#[verifier::external_body]
fn paint_hidden(text: String) -> (r: String)
    ensures
        r@ == text@ || escape_wrapped(r@),
{
    text.as_str().hidden().to_string()
}

/// Relies on `Colorize::strikethrough` of `colored`: the text struck through, in the form that
/// `colored` chooses for this terminal, as for `paint_background`.
#[verifier::external_body]
fn paint_strikethrough(text: String) -> (r: String)
    ensures
        r@ == text@ || escape_wrapped(r@),
{
    text.as_str().strikethrough().to_string()
}

/// The attribute whose bit is at position `i` of a mask.
fn attribute_at(i: usize) -> (r: Attribute)
    requires
        i < 9,
    ensures
        attribute_index(r) == i,
        r == all_attributes()[i as int],
{
    if i == 0 {
        Attribute::Clear
    } else if i == 1 {
        Attribute::Bold
    } else if i == 2 {
        Attribute::Dimmed
    } else if i == 3 {
        Attribute::Underline
    } else if i == 4 {
        Attribute::Reversed
    } else if i == 5 {
        Attribute::Italic
    } else if i == 6 {
        Attribute::Blink
    } else if i == 7 {
        Attribute::Hidden
    } else {
        Attribute::Strikethrough
    }
}

/// Shows `text` with one attribute; `Clear` leaves it as it is.
fn paint_attribute(text: String, attribute: Attribute) -> (r: String)
    ensures
        attribute == Attribute::Clear ==> r@ == text@,
        r@ == text@ || escape_wrapped(r@),
{
    match attribute {
        Attribute::Clear => paint_clear(text),
        Attribute::Bold => paint_bold(text),
        Attribute::Dimmed => paint_dimmed(text),
        Attribute::Underline => paint_underline(text),
        Attribute::Reversed => paint_reversed(text),
        Attribute::Italic => paint_italic(text),
        Attribute::Blink => paint_blink(text),
        Attribute::Hidden => paint_hidden(text),
        Attribute::Strikethrough => paint_strikethrough(text),
    }
}

/// Shows `text` in a style: background first, then foreground, then each attribute in the
/// order of `all_attributes`. An unstyled style leaves the text as it is.
pub fn apply_colorization(text: String, colorization: Colorization) -> (r: String)
    ensures
        is_unstyled(colorization) ==> r@ == text@,
        r@ == text@ || escape_wrapped(r@),
{
    let mut modified = text;
    match colorization.background {
        Some(color) => {
            modified = paint_background(modified, color);
        },
        None => {},
    }
    match colorization.foreground {
        Some(color) => {
            modified = paint_foreground(modified, color);
        },
        None => {},
    }
    match colorization.style_const {
        Some(mask) => {
            let mut i: usize = 0;
            while i < 9
                invariant
                    i <= 9,
                    colorization.style_const == Some(mask),
                    is_unstyled(colorization) ==> modified@ == text@,
                    modified@ == text@ || escape_wrapped(modified@),
                decreases 9 - i,
            {
                let attribute = attribute_at(i);
                let bit = 1u16 << (i as u16);
                if mask & bit == bit {
                    assert(has_attribute(colorization, attribute));
                    modified = paint_attribute(modified, attribute);
                }
                i = i + 1;
            }
        },
        None => {},
    }
    modified
}

proof fn lemma_segments_ordered(len: nat, eff: Seq<MarkedRange>, segs: Seq<StyledSegment>)
    requires
        is_segmentation(len, eff, segs),
    ensures
        forall|i: int, j: int|
            0 <= i < j < segs.len() ==> #[trigger] segs[i].end <= #[trigger] segs[j].start,
        forall|i: int| 0 <= i < segs.len() ==> #[trigger] segs[i].end <= len,
{
    assert forall|i: int, j: int| 0 <= i < j < segs.len() implies #[trigger] segs[i].end
        <= #[trigger] segs[j].start by {
        lemma_segment_chain(len, eff, segs, i, j);
    }
    assert forall|i: int| 0 <= i < segs.len() implies #[trigger] segs[i].end <= len by {
        if i < segs.len() - 1 {
            lemma_segment_chain(len, eff, segs, i, segs.len() - 1);
        }
    }
}

proof fn lemma_segment_chain(
    len: nat,
    eff: Seq<MarkedRange>,
    segs: Seq<StyledSegment>,
    i: int,
    j: int,
)
    requires
        is_segmentation(len, eff, segs),
        0 <= i < j < segs.len(),
    ensures
        segs[i].end <= segs[j].start,
    decreases j - i,
{
    if j > i + 1 {
        lemma_segment_chain(len, eff, segs, i, j - 1);
        assert(segs[j - 1].start < segs[j - 1].end);
        assert(segs[j - 1].end == segs[j].start);
    } else {
        assert(segs[i].end == segs[i + 1].start);
    }
}

proof fn lemma_find_segment(
    len: nat,
    eff: Seq<MarkedRange>,
    segs: Seq<StyledSegment>,
    k: int,
    p: nat,
) -> (found: int)
    requires
        is_segmentation(len, eff, segs),
        0 <= k < segs.len(),
        segs[k].start <= p < len,
    ensures
        k <= found < segs.len(),
        segs[found].start <= p < segs[found].end,
    decreases segs.len() - k,
{
    if p < segs[k].end {
        k
    } else {
        assert(segs[k + 1].start == segs[k].end);
        lemma_find_segment(len, eff, segs, k + 1, p)
    }
}

/// The elementary segments cover the text exactly: each position of the text lies in one
/// segment and in one only, and no segment reaches past the text.
pub proof fn lemma_segments_partition(
    len: nat,
    eff: Seq<MarkedRange>,
    segs: Seq<StyledSegment>,
    p: nat,
)
    requires
        is_segmentation(len, eff, segs),
        p < len,
    ensures
        exists|k: int| 0 <= k < segs.len() && #[trigger] segs[k].start <= p < segs[k].end,
        forall|i: int, j: int|
            #![trigger segs[i], segs[j]]
            0 <= i < segs.len() && 0 <= j < segs.len() && segs[i].start <= p < segs[i].end
                && segs[j].start <= p < segs[j].end ==> i == j,
        forall|k: int| 0 <= k < segs.len() ==> segs[k].end <= len,
{
    lemma_segments_ordered(len, eff, segs);
    let k = lemma_find_segment(len, eff, segs, 0, p);
    assert(segs[k].start <= p < segs[k].end);
}

/// Whether `out` is `input` restyled by ranges: the pieces of `out`, one after another, are the
/// elementary segments of `input` under the whole style and the markers, each shown in its
/// merged style: either its own text, when the terminal shows no colors, or that text wrapped in
/// escape codes; a segment whose style changes nothing is its own text.
pub open spec fn restyled(
    input: Seq<char>,
    whole: Option<Colorization>,
    markers: Seq<(Span, Colorization)>,
    out: Seq<char>,
) -> bool {
    exists|segs: Seq<StyledSegment>, pieces: Seq<Seq<char>>|
        {
            &&& is_segmentation(input.len(), effective_markers(input, whole, markers), segs)
            &&& pieces.len() == segs.len()
            &&& out == concat_all(pieces)
            &&& forall|k: int|
                0 <= k < segs.len() && is_unstyled(#[trigger] segs[k].colorization) ==> pieces[k]
                    == input.subrange(segs[k].start as int, segs[k].end as int)
            &&& forall|k: int|
                0 <= k < segs.len() ==> #[trigger] pieces[k] == input.subrange(
                    segs[k].start as int,
                    segs[k].end as int,
                ) || escape_wrapped(pieces[k])
        }
}

/// `text` restyled by ranges: the text is cut into its elementary segments under the style of
/// the whole text and the markers (see `elementary_segments`), each segment is shown in its
/// merged style, and the pieces are put back in order. Where a segment's style changes nothing,
/// its piece is the segment's text; with no marker taking part, the text comes back unchanged.
pub fn colorize(
    input: &str,
    input_modifiers: &Vec<(Span, Colorization)>,
    general_colorization: Option<Colorization>,
) -> (r: String)
    ensures
        restyled(input@, general_colorization, input_modifiers@, r@),
        effective_markers(input@, general_colorization, input_modifiers@).len() == 0 ==> r@
            == input@,
{
    let len = input.unicode_len();
    let ghost eff = effective_markers(input@, general_colorization, input_modifiers@);
    let segs = elementary_segments(input, general_colorization, input_modifiers);
    proof {
        lemma_segments_ordered(len as nat, eff, segs@);
    }
    let mut res = String::new();
    let ghost mut pieces: Seq<Seq<char>> = Seq::empty();
    let mut k: usize = 0;
    while k < segs.len()
        invariant
            len == input@.len(),
            is_segmentation(len as nat, eff, segs@),
            forall|i: int| 0 <= i < segs@.len() ==> #[trigger] segs@[i].end <= len,
            k <= segs@.len(),
            pieces.len() == k,
            res@ == concat_all(pieces),
            forall|q: int|
                0 <= q < k && is_unstyled(#[trigger] segs@[q].colorization) ==> pieces[q]
                    == input@.subrange(segs@[q].start as int, segs@[q].end as int),
            forall|q: int|
                0 <= q < k ==> #[trigger] pieces[q] == input@.subrange(
                    segs@[q].start as int,
                    segs@[q].end as int,
                ) || escape_wrapped(pieces[q]),
            eff.len() == 0 ==> res@ == input@.subrange(0, if k == 0 {
                0
            } else {
                segs@[k - 1].end as int
            }),
        decreases segs@.len() - k,
    {
        let segment = segs[k];
        assert(segment.start < segment.end);
        let text = String::from_str(input.substring_char(segment.start, segment.end));
        proof {
            if eff.len() == 0 {
                assert(segment.colorization == plain());
                assert(is_unstyled(plain()));
            }
        }
        let piece = apply_colorization(text, segment.colorization);
        let ghost before = res@;
        res.append(piece.as_str());
        proof {
            let old_pieces = pieces;
            pieces = pieces.push(piece@);
            assert(pieces.drop_last() =~= old_pieces);
            if eff.len() == 0 {
                if k == 0 {
                    assert(segment.start == 0);
                } else {
                    assert(segs@[k - 1].end == segs@[k as int].start);
                }
                assert(res@ =~= input@.subrange(0, segment.end as int));
            }
        }
        k = k + 1;
    }
    proof {
        if eff.len() == 0 {
            if segs@.len() == 0 {
                assert(input@ =~= input@.subrange(0, 0));
            } else {
                assert(res@ =~= input@);
            }
        }
        assert(restyled(input@, general_colorization, input_modifiers@, res@));
    }
    res
}


/// Two markers that apply to the text, the second containing the first: on any range inside
/// the first, the merged style is the style listed first joined with the one listed second, in
/// whichever order the two are listed.
pub proof fn lemma_nested_markers_merge(
    input: Seq<char>,
    a: (Span, Colorization),
    b: (Span, Colorization),
    start: nat,
    end: nat,
)
    requires
        marker_applies(input, a),
        marker_applies(input, b),
        b.0.start <= a.0.start,
        a.0.end <= b.0.end,
        a.0.start <= start,
        end <= a.0.end,
    ensures
        merged(effective_markers(input, None, seq![a, b]), start, end) == join(a.1, b.1),
        merged(effective_markers(input, None, seq![b, a]), start, end) == join(b.1, a.1),
{
    let none: Option<Colorization> = None;
    let ra = marked_range(a);
    let rb = marked_range(b);
    assert(whole_marker(input.len(), none) =~= Seq::<MarkedRange>::empty());
    assert(seq![a, b].drop_last() =~= seq![a]);
    assert(seq![b, a].drop_last() =~= seq![b]);
    assert(seq![a].drop_last() =~= Seq::<(Span, Colorization)>::empty());
    assert(seq![b].drop_last() =~= Seq::<(Span, Colorization)>::empty());
    let empty = Seq::<(Span, Colorization)>::empty();
    assert(kept_markers(input, empty) == Seq::<MarkedRange>::empty());
    assert(kept_markers(input, seq![a]) == kept_markers(input, empty).push(ra));
    assert(kept_markers(input, seq![b]) == kept_markers(input, empty).push(rb));
    assert(kept_markers(input, seq![a, b]) == kept_markers(input, seq![a]).push(rb));
    assert(kept_markers(input, seq![b, a]) == kept_markers(input, seq![b]).push(ra));
    let eab = effective_markers(input, None, seq![a, b]);
    let eba = effective_markers(input, None, seq![b, a]);
    assert(eab =~= seq![ra, rb]);
    assert(eba =~= seq![rb, ra]);
    lemma_join_plain(a.1);
    lemma_join_plain(b.1);
    assert(seq![ra, rb].drop_last() =~= seq![ra]);
    assert(seq![rb, ra].drop_last() =~= seq![rb]);
    assert(seq![ra].drop_last() =~= Seq::<MarkedRange>::empty());
    assert(seq![rb].drop_last() =~= Seq::<MarkedRange>::empty());
    assert(merged(Seq::<MarkedRange>::empty(), start, end) == plain());
    assert(seq![ra].last() == ra);
    assert(seq![rb].last() == rb);
    assert(merged(seq![ra], start, end) == join(plain(), a.1));
    assert(merged(seq![rb], start, end) == join(plain(), b.1));
    assert(merged(seq![ra, rb], start, end) == join(merged(seq![ra], start, end), b.1));
    assert(merged(seq![rb, ra], start, end) == join(merged(seq![rb], start, end), a.1));
}

/// A clearing style discards whatever came before it: on a range that a clearing marker
/// contains, the merged style is that of the markers from the clearing one on, as if no marker
/// came before it.
pub proof fn lemma_clear_discards_earlier(
    eff: Seq<MarkedRange>,
    j: int,
    start: nat,
    end: nat,
)
    requires
        0 <= j < eff.len(),
        is_clearing(eff[j].colorization),
        eff[j].start <= start,
        end <= eff[j].end,
    ensures
        merged(eff, start, end) == merged(eff.subrange(j, eff.len() as int), start, end),
    decreases eff.len(),
{
    let rest = eff.subrange(j, eff.len() as int);
    if eff.len() == j + 1 {
        assert(rest.drop_last() =~= Seq::<MarkedRange>::empty());
        assert(rest.last() == eff.last());
    } else {
        lemma_clear_discards_earlier(eff.drop_last(), j, start, end);
        assert(rest.drop_last() =~= eff.drop_last().subrange(j, eff.len() - 1));
        assert(rest.last() == eff.last());
    }
}

} // verus!
