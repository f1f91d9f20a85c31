//! Parsing errors in a flat, labelled layout: where the error is, why, at which position, and
//! its causes one after another.

use vstd::prelude::*;

use itertools::Itertools;

use crate::colorization::Colorization;
use crate::formatting::{decimal, interspersed, texts, trim, trimmed, usize_to_decimal};
use crate::range_styling::{self, Span};

verus! {

/// What a parsing error says of itself: why it happened, and the styles of the input where it
/// happened, one for the whole input and markers for ranges of it.
pub struct ErrorExplanation {
    pub explanation: String,
    pub complete_marker: Option<Colorization>,
    pub colorization_markers: Vec<(Span, Colorization)>,
}

impl ErrorExplanation {
    /// An explanation with the text `explanation` and no styles.
    pub fn new(explanation: String) -> (r: Self)
        ensures
            r.explanation == explanation,
            r.complete_marker is None,
            r.colorization_markers@.len() == 0,
    {
        ErrorExplanation { explanation, colorization_markers: Vec::new(), complete_marker: None }
    }

    /// Sets the style of the whole input.
    pub fn complete_input_colorization(self, complete_marker: Colorization) -> (r: Self)
        ensures
            r.complete_marker == Some(complete_marker),
            r.explanation == self.explanation,
            r.colorization_markers == self.colorization_markers,
    {
        ErrorExplanation { complete_marker: Some(complete_marker), ..self }
    }

    /// Adds markers for ranges of the input, after those given.
    pub fn colorization_markers(self, colorization_markers: Vec<(Span, Colorization)>) -> (r: Self)
        ensures
            r.colorization_markers@ == self.colorization_markers@ + colorization_markers@,
            r.explanation == self.explanation,
            r.complete_marker == self.complete_marker,
    {
        let mut markers = self.colorization_markers;
        let mut added = colorization_markers;
        markers.append(&mut added);
        ErrorExplanation {
            explanation: self.explanation,
            complete_marker: self.complete_marker,
            colorization_markers: markers,
        }
    }
}

/// An error kind of a parser that explains itself.
pub trait ParsingErrorDetail {
    /// The explanation of this error.
    fn explain_error(&self) -> ErrorExplanation;

    /// A parsing error of this kind, happening at the input `where_`.
    fn location_str(self, where_: &str) -> (r: ParsingError<Self>) where Self: Sized
        ensures
            r.where_ matches Some(w) && w@ == where_@,
            r.ast_error == Some(self),
            r.start_point_of_error is None,
            r.end_point_of_error is None,
            r.causes@.len() == 0,
    {
        ParsingError {
            where_: Some(String::from_str(where_)),
            ast_error: Some(self),
            start_point_of_error: None,
            end_point_of_error: None,
            causes: Vec::new(),
        }
    }

    /// A parsing error of this kind, starting at `line` and `column`.
    fn start_point_of_error(self, line: usize, column: usize) -> (r: ParsingError<Self>) where
        Self: Sized
        ensures
            r.where_ is None,
            r.ast_error == Some(self),
            r.start_point_of_error == Some((line, column)),
            r.end_point_of_error is None,
            r.causes@.len() == 0,
    {
        ParsingError {
            where_: None,
            ast_error: Some(self),
            start_point_of_error: Some((line, column)),
            end_point_of_error: None,
            causes: Vec::new(),
        }
    }

    /// A parsing error of this kind, ending at `line` and `column`.
    fn end_point_of_error(self, line: usize, column: usize) -> (r: ParsingError<Self>) where
        Self: Sized
        ensures
            r.where_ is None,
            r.ast_error == Some(self),
            r.start_point_of_error is None,
            r.end_point_of_error == Some((line, column)),
            r.causes@.len() == 0,
    {
        ParsingError {
            where_: None,
            ast_error: Some(self),
            start_point_of_error: None,
            end_point_of_error: Some((line, column)),
            causes: Vec::new(),
        }
    }

    /// A parsing error of this kind, with nothing else known of it yet.
    fn as_parsing_error(self) -> (r: ParsingError<Self>) where Self: Sized
        ensures
            r.where_ is None,
            r.ast_error == Some(self),
            r.start_point_of_error is None,
            r.end_point_of_error is None,
            r.causes@.len() == 0,
    {
        ParsingError {
            where_: None,
            ast_error: Some(self),
            start_point_of_error: None,
            end_point_of_error: None,
            causes: Vec::new(),
        }
    }
}

/// A parsing error: where in the input it happened, the error kind, its start and end
/// positions, and the errors that caused it.
pub struct ParsingError<AstError> {
    pub where_: Option<String>,
    pub ast_error: Option<AstError>,
    pub start_point_of_error: Option<(usize, usize)>,
    pub end_point_of_error: Option<(usize, usize)>,
    pub causes: Vec<ParsingError<AstError>>,
}

/// The input shown for an error: its text as it is, when there is a text and it is not blank.
pub open spec fn shown_input(where_: Option<Seq<char>>) -> Option<Seq<char>> {
    match where_ {
        Some(w) => if trimmed(w).len() > 0 {
            Some(w)
        } else {
            None
        },
        None => None,
    }
}

/// The position line: from the start to the end when both are known, the start alone when the
/// end is not; nothing without a start.
pub open spec fn position_line(start: Option<(usize, usize)>, end: Option<(usize, usize)>) -> Seq<
    char,
> {
    match (start, end) {
        (Some((line, column)), Some((end_line, end_column))) => "Where: From line "@ + decimal(
            line as nat,
        ) + " and column "@ + decimal(column as nat) + " to "@ + decimal(end_line as nat)
            + " and column "@ + decimal(end_column as nat),
        (Some((line, column)), None) => "Where: On line "@ + decimal(line as nat) + " and column "@
            + decimal(column as nat),
        _ => Seq::empty(),
    }
}

/// The items of `items` that are not blank, in order.
pub open spec fn non_blank(items: Seq<Seq<char>>) -> Seq<Seq<char>>
    decreases items.len(),
{
    if items.len() == 0 {
        seq![]
    } else if trimmed(items.last()).len() > 0 {
        non_blank(items.drop_last()).push(items.last())
    } else {
        non_blank(items.drop_last())
    }
}

/// The items of `items` that are not empty, in order.
pub open spec fn non_empty(items: Seq<Seq<char>>) -> Seq<Seq<char>>
    decreases items.len(),
{
    if items.len() == 0 {
        seq![]
    } else if items.last().len() > 0 {
        non_empty(items.drop_last()).push(items.last())
    } else {
        non_empty(items.drop_last())
    }
}

/// The text of a parsing error from its parts: `On: ` and the input shown, `Reason: ` and the
/// reason when it is not blank, the position line, and `Causes:` over the texts of the causes
/// that are not blank, one per line; the parts that are empty are left out.
pub open spec fn parsing_text(
    on: Option<Seq<char>>,
    reason: Seq<char>,
    start: Option<(usize, usize)>,
    end: Option<(usize, usize)>,
    causes: Seq<Seq<char>>,
) -> Seq<char> {
    let on_part = match on {
        Some(t) => "On: "@ + t,
        None => Seq::empty(),
    };
    let reason_part = if trimmed(reason).len() > 0 {
        "Reason: "@ + reason
    } else {
        Seq::empty()
    };
    let causes_text = interspersed("\n"@, non_blank(causes));
    let causes_part = if trimmed(causes_text).len() > 0 {
        "Causes:\n"@ + causes_text
    } else {
        Seq::empty()
    };
    interspersed(
        "\n"@,
        non_empty(seq![on_part, reason_part, position_line(start, end), causes_part]),
    )
}

/// Relies on `Itertools::join`: the items in order, with `sep` between each two of them.
#[verifier::external_body]
fn join_lines(items: &Vec<String>, sep: &str) -> (r: String)
    ensures
        r@ == interspersed(sep@, texts(items@)),
{
    items.iter().join(sep)
}

/// Keeps the items of `items` that are not blank.
fn keep_non_blank(items: &Vec<String>) -> (r: Vec<String>)
    ensures
        texts(r@) == non_blank(texts(items@)),
{
    let mut out: Vec<String> = Vec::new();
    let mut i: usize = 0;
    while i < items.len()
        invariant
            i <= items@.len(),
            texts(out@) == non_blank(texts(items@).take(i as int)),
        decreases items@.len() - i,
    {
        assert(texts(items@).take(i + 1).drop_last() =~= texts(items@).take(i as int));
        let item = &items[i];
        if !trim(item.as_str()).as_str().is_empty() {
            let ghost before = out@;
            out.push(item.clone());
            assert(texts(out@) =~= texts(before).push(item@));
        }
        i = i + 1;
    }
    assert(texts(items@).take(items@.len() as int) =~= texts(items@));
    out
}

/// Keeps the items of `items` that are not empty.
fn keep_non_empty(items: Vec<String>) -> (r: Vec<String>)
    ensures
        texts(r@) == non_empty(texts(items@)),
{
    let mut out: Vec<String> = Vec::new();
    let mut i: usize = 0;
    while i < items.len()
        invariant
            i <= items@.len(),
            texts(out@) == non_empty(texts(items@).take(i as int)),
        decreases items@.len() - i,
    {
        assert(texts(items@).take(i + 1).drop_last() =~= texts(items@).take(i as int));
        let item = &items[i];
        if !item.as_str().is_empty() {
            let ghost before = out@;
            out.push(item.clone());
            assert(texts(out@) =~= texts(before).push(item@));
        }
        i = i + 1;
    }
    assert(texts(items@).take(items@.len() as int) =~= texts(items@));
    out
}

fn position_string(start: Option<(usize, usize)>, end: Option<(usize, usize)>) -> (r: String)
    ensures
        r@ == position_line(start, end),
{
    match (start, end) {
        (Some((line, column)), Some((end_line, end_column))) => {
            let mut res = String::from_str("Where: From line ");
            res.append(usize_to_decimal(line).as_str());
            res.append(" and column ");
            res.append(usize_to_decimal(column).as_str());
            res.append(" to ");
            res.append(usize_to_decimal(end_line).as_str());
            res.append(" and column ");
            res.append(usize_to_decimal(end_column).as_str());
            res
        },
        (Some((line, column)), None) => {
            let mut res = String::from_str("Where: On line ");
            res.append(usize_to_decimal(line).as_str());
            res.append(" and column ");
            res.append(usize_to_decimal(column).as_str());
            res
        },
        _ => String::new(),
    }
}

/// The text of a parsing error from its parts: the input it happened at, its explanation, its
/// positions and the texts of its causes. Without colors the input is shown as it is; with
/// colors it is restyled by the explanation's markers.
pub fn parsing_error_text(
    where_: Option<&str>,
    explanation: &ErrorExplanation,
    start: Option<(usize, usize)>,
    end: Option<(usize, usize)>,
    cause_texts: &Vec<String>,
    force_no_colorize: bool,
) -> (r: String)
    ensures
        force_no_colorize ==> r@ == parsing_text(
            shown_input(
                match where_ {
                    Some(w) => Some(w@),
                    None => None,
                },
            ),
            explanation.explanation@,
            start,
            end,
            texts(cause_texts@),
        ),
        exists|on: Option<Seq<char>>|
            (on is Some <==> shown_input(
                match where_ {
                    Some(w) => Some(w@),
                    None => None,
                },
            ) is Some) && r@ == parsing_text(
                on,
                explanation.explanation@,
                start,
                end,
                texts(cause_texts@),
            ),
{
    let ghost shown = shown_input(
        match where_ {
            Some(w) => Some(w@),
            None => None,
        },
    );
    let mut on_part = String::new();
    let ghost mut on: Option<Seq<char>> = None;
    match where_ {
        Some(w) => {
            if !trim(w).as_str().is_empty() {
                on_part.append("On: ");
                if !force_no_colorize {
                    let styled = range_styling::colorize(
                        w,
                        &explanation.colorization_markers,
                        explanation.complete_marker,
                    );
                    on_part.append(styled.as_str());
                    proof {
                        on = Some(styled@);
                    }
                } else {
                    on_part.append(w);
                    proof {
                        on = Some(w@);
                    }
                }
            }
        },
        None => {},
    }
    let mut reason_part = String::new();
    if !trim(explanation.explanation.as_str()).as_str().is_empty() {
        reason_part.append("Reason: ");
        reason_part.append(explanation.explanation.as_str());
    }
    let location = position_string(start, end);
    let shown_causes = keep_non_blank(cause_texts);
    let causes_text = join_lines(&shown_causes, "\n");
    let mut causes_part = String::new();
    if !trim(causes_text.as_str()).as_str().is_empty() {
        causes_part.append("Causes:\n");
        causes_part.append(causes_text.as_str());
    }
    let parts = vec![on_part, reason_part, location, causes_part];
    let ghost on_seq = match on {
        Some(t) => "On: "@ + t,
        None => Seq::<char>::empty(),
    };
    assert(parts@[0]@ =~= on_seq);
    assert(texts(parts@) =~= seq![parts@[0]@, parts@[1]@, parts@[2]@, parts@[3]@]);
    let kept = keep_non_empty(parts);
    let r = join_lines(&kept, "\n");
    assert(on is Some <==> shown is Some);
    assert(force_no_colorize ==> on == shown);
    assert(r@ == parsing_text(on, explanation.explanation@, start, end, texts(cause_texts@)));
    r
}

impl<AstError: ParsingErrorDetail> ParsingError<AstError> {
    /// A parsing error of the kind `ast_error`, with nothing else known of it yet.
    pub fn new(ast_error: AstError) -> (r: Self)
        ensures
            r.ast_error == Some(ast_error),
            r.where_ is None,
            r.start_point_of_error is None,
            r.end_point_of_error is None,
            r.causes@.len() == 0,
    {
        ParsingError {
            where_: None,
            ast_error: Some(ast_error),
            start_point_of_error: None,
            end_point_of_error: None,
            causes: Vec::new(),
        }
    }

    /// This error, happening at the input `location_str`.
    pub fn location_str(self, location_str: &str) -> (r: Self)
        ensures
            r.where_ matches Some(w) && w@ == location_str@,
            r.ast_error == self.ast_error,
            r.start_point_of_error == self.start_point_of_error,
            r.end_point_of_error == self.end_point_of_error,
            r.causes == self.causes,
    {
        ParsingError { where_: Some(String::from_str(location_str)), ..self }
    }

    /// This error, starting at `line` and `column`.
    pub fn start_point_of_error(self, line: usize, column: usize) -> (r: Self)
        ensures
            r.start_point_of_error == Some((line, column)),
            r.where_ == self.where_,
            r.ast_error == self.ast_error,
            r.end_point_of_error == self.end_point_of_error,
            r.causes == self.causes,
    {
        ParsingError { start_point_of_error: Some((line, column)), ..self }
    }

    /// This error, ending at `line` and `column`.
    pub fn end_point_of_error(self, line: usize, column: usize) -> (r: Self)
        ensures
            r.end_point_of_error == Some((line, column)),
            r.where_ == self.where_,
            r.ast_error == self.ast_error,
            r.start_point_of_error == self.start_point_of_error,
            r.causes == self.causes,
    {
        ParsingError { end_point_of_error: Some((line, column)), ..self }
    }

    /// This error, of the kind `ast_error`.
    pub fn ast_error(self, ast_error: AstError) -> (r: Self)
        ensures
            r.ast_error == Some(ast_error),
            r.where_ == self.where_,
            r.start_point_of_error == self.start_point_of_error,
            r.end_point_of_error == self.end_point_of_error,
            r.causes == self.causes,
    {
        ParsingError { ast_error: Some(ast_error), ..self }
    }

    /// Adds a cause after those this error has.
    pub fn add_cause(&mut self, cause: ParsingError<AstError>)
        ensures
            final(self).causes@ == old(self).causes@.push(cause),
            final(self).where_ == old(self).where_,
            final(self).ast_error == old(self).ast_error,
            final(self).start_point_of_error == old(self).start_point_of_error,
            final(self).end_point_of_error == old(self).end_point_of_error,
    {
        self.causes.push(cause);
    }

    /// The text of this error and of its causes, each explained by its error kind, as
    /// `parsing_error_text` writes it from the explanation and the texts of the causes.
    pub fn to_display_string(&self, force_no_colorize: bool) -> (r: String)
        ensures
            exists|on: Option<Seq<char>>, reason: Seq<char>, causes: Seq<Seq<char>>|
                {
                    &&& on is Some <==> shown_input(
                        match self.where_ {
                            Some(w) => Some(w@),
                            None => None,
                        },
                    ) is Some
                    &&& force_no_colorize ==> on == shown_input(
                        match self.where_ {
                            Some(w) => Some(w@),
                            None => None,
                        },
                    )
                    &&& causes.len() == self.causes@.len()
                    &&& r@ == parsing_text(
                        on,
                        reason,
                        self.start_point_of_error,
                        self.end_point_of_error,
                        causes,
                    )
                },
        decreases self,
    {
        let explanation = match &self.ast_error {
            Some(ast_error) => ast_error.explain_error(),
            None => ErrorExplanation::new(String::new()),
        };
        let mut cause_texts: Vec<String> = Vec::new();
        let mut i: usize = 0;
        while i < self.causes.len()
            invariant
                i <= self.causes@.len(),
                cause_texts@.len() == i,
            decreases self.causes@.len() - i,
        {
            cause_texts.push(self.causes[i].to_display_string(force_no_colorize));
            i = i + 1;
        }
        let where_ = match &self.where_ {
            Some(w) => Some(w.as_str()),
            None => None,
        };
        let r = parsing_error_text(
            where_,
            &explanation,
            self.start_point_of_error,
            self.end_point_of_error,
            &cause_texts,
            force_no_colorize,
        );
        assert(texts(cause_texts@).len() == self.causes@.len());
        r
    }
}

} // verus!
