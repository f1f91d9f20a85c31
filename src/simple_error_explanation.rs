//! What an error kind says of itself: why it happened, how to solve it, and how to style the
//! text of where it happened.

use vstd::prelude::*;

use crate::colorization::Colorization;
use crate::formatting::{trim, trimmed};
use crate::range_styling::Span;
use crate::simple_error_display_info::opt_text;

verus! {

/// An explanation and a solution for an error, and the styles for the text of where it
/// happened: one for the whole text and markers for ranges of it, positions counted in
/// characters of that text.
#[derive(Clone, Debug)]
pub struct SimpleErrorExplanation {
    pub explanation: Option<String>,
    pub solution: Option<String>,
    pub whole_marker: Option<Colorization>,
    pub colorization_markers: Vec<(Span, Colorization)>,
}

/// `text` without surrounding white space, or none when nothing else is left.
pub open spec fn trimmed_text(text: Seq<char>) -> Option<Seq<char>> {
    if trimmed(text).len() == 0 {
        None
    } else {
        Some(trimmed(text))
    }
}

fn trimmed_or_none(text: &str) -> (r: Option<String>)
    ensures
        opt_text(r) == trimmed_text(text@),
{
    let t = trim(text);
    if t.as_str().is_empty() {
        None
    } else {
        Some(t)
    }
}

impl SimpleErrorExplanation {
    /// An explanation with nothing in it.
    pub fn new() -> (r: Self)
        ensures
            r.explanation is None,
            r.solution is None,
            r.whole_marker is None,
            r.colorization_markers@.len() == 0,
    {
        SimpleErrorExplanation {
            explanation: None,
            solution: None,
            whole_marker: None,
            colorization_markers: Vec::new(),
        }
    }

    /// Sets why the error happened, trimmed; a blank text sets none.
    pub fn explanation(self, explanation: &str) -> (r: Self)
        ensures
            opt_text(r.explanation) == trimmed_text(explanation@),
            r.solution == self.solution,
            r.whole_marker == self.whole_marker,
            r.colorization_markers == self.colorization_markers,
    {
        SimpleErrorExplanation { explanation: trimmed_or_none(explanation), ..self }
    }

    /// Sets how to solve the error, trimmed; a blank text sets none.
    pub fn solution(self, solution: &str) -> (r: Self)
        ensures
            opt_text(r.solution) == trimmed_text(solution@),
            r.explanation == self.explanation,
            r.whole_marker == self.whole_marker,
            r.colorization_markers == self.colorization_markers,
    {
        SimpleErrorExplanation { solution: trimmed_or_none(solution), ..self }
    }

    /// Sets the style of the whole text of where the error happened.
    pub fn whole_input_colorization(self, complete_marker: Colorization) -> (r: Self)
        ensures
            r.whole_marker == Some(complete_marker),
            r.explanation == self.explanation,
            r.solution == self.solution,
            r.colorization_markers == self.colorization_markers,
    {
        SimpleErrorExplanation { whole_marker: Some(complete_marker), ..self }
    }

    /// Adds markers for ranges of the text of where the error happened, after those given.
    pub fn colorization_markers(self, colorization_markers: Vec<(Span, Colorization)>) -> (r: Self)
        ensures
            r.colorization_markers@ == self.colorization_markers@ + colorization_markers@,
            r.explanation == self.explanation,
            r.solution == self.solution,
            r.whole_marker == self.whole_marker,
    {
        let mut markers = self.colorization_markers;
        let mut added = colorization_markers;
        markers.append(&mut added);
        SimpleErrorExplanation {
            explanation: self.explanation,
            solution: self.solution,
            whole_marker: self.whole_marker,
            colorization_markers: markers,
        }
    }

    /// Adds one marker for a range of the text of where the error happened.
    pub fn colorization_marker(self, span: Span, colorization: Colorization) -> (r: Self)
        ensures
            r.colorization_markers@ == self.colorization_markers@.push((span, colorization)),
            r.explanation == self.explanation,
            r.solution == self.solution,
            r.whole_marker == self.whole_marker,
    {
        let mut markers = self.colorization_markers;
        markers.push((span, colorization));
        SimpleErrorExplanation {
            explanation: self.explanation,
            solution: self.solution,
            whole_marker: self.whole_marker,
            colorization_markers: markers,
        }
    }
}

} // verus!
